//! The authentication guard: extracts a bearer token from a request header
//! and validates it against a remotely fetched key set.
//!
//! Fetching the key set is outbound I/O and stays with the caller; the
//! guard's decisions are verified functions over the header, the fetched
//! keys and the verification verdict. Every failure is an `Unauthorized`
//! response whose body carries one fixed reason string, or the raw
//! verification error text.

use vstd::prelude::*;
use vstd::string::StrSliceExecFns;
use vstd::string::StringExecFns;

verus! {

/// The decoded, verified payload of a bearer token.
#[derive(Debug)]
pub struct Claims {
    pub iat: i32,
    pub scope: String,
}

/// A validated request: the claims of its bearer token.
#[derive(Debug)]
pub struct JWT {
    pub claims: Claims,
}

/// One public signing key of the fetched key set, as base64url RSA
/// components.
#[derive(Debug)]
pub struct Jwk {
    pub n: String,
    pub e: String,
}

/// A transport-level response classification.
#[derive(Debug)]
pub enum NetworkResponse {
    Created(String),
    BadRequest(String),
    Unauthorized(String),
    NotFound(String),
    Conflict(String),
}

/// The payload of a response body.
#[derive(Debug)]
pub enum ResponseBody {
    Message(String),
    AuthToken(String),
}

/// A response body wrapper.
#[derive(Debug)]
pub struct Response {
    pub body: ResponseBody,
}

/// How an authentication failure body renders: the reason is inserted
/// verbatim (it is one of the fixed reason strings or the verification
/// library's error text; no escaping is applied).
pub open spec fn unauthorized_body(reason: Seq<char>) -> Seq<char> {
    "{\"body\":{\"Message\":\""@ + reason + "\"}}"@
}

/// An `Unauthorized` response whose body carries the given reason.
pub fn make_unauthorized(reason: &str) -> (r: NetworkResponse)
    ensures
        r matches NetworkResponse::Unauthorized(b) && b@ == unauthorized_body(reason@),
{
    let body = String::from_str("{\"body\":{\"Message\":\"").concat(reason).concat("\"}}");
    NetworkResponse::Unauthorized(body)
}

pub open spec fn is_space(c: char) -> bool {
    c == ' ' || c == '\t' || c == '\r' || c == '\n'
}

/// The header value with every leading `Bearer` marker removed.
pub open spec fn strip_bearer(s: Seq<char>) -> Seq<char>
    decreases s.len(),
{
    if s.len() >= 6 && s.take(6) == "Bearer"@ {
        strip_bearer(s.skip(6))
    } else {
        s
    }
}

pub open spec fn trim_front(s: Seq<char>) -> Seq<char>
    decreases s.len(),
{
    if s.len() > 0 && is_space(s[0]) {
        trim_front(s.drop_first())
    } else {
        s
    }
}

pub open spec fn trim_back(s: Seq<char>) -> Seq<char>
    decreases s.len(),
{
    if s.len() > 0 && is_space(s.last()) {
        trim_back(s.drop_last())
    } else {
        s
    }
}

/// The header value with surrounding whitespace removed.
pub open spec fn trim_spaces(s: Seq<char>) -> Seq<char> {
    trim_back(trim_front(s))
}

/// The raw token carried by a header value: the scheme marker stripped,
/// then surrounding whitespace removed.
pub open spec fn token_of(s: Seq<char>) -> Seq<char> {
    trim_spaces(strip_bearer(s))
}

proof fn lemma_trim_front_at(s: Seq<char>, j: int)
    requires
        0 <= j <= s.len(),
        forall|k: int| 0 <= k < j ==> is_space(s[k]),
        j < s.len() ==> !is_space(s[j]),
    ensures
        trim_front(s) =~= s.skip(j),
    decreases s.len(),
{
    if s.len() > 0 && is_space(s[0]) {
        assert(forall|k: int| 0 <= k < s.len() - 1 ==> s.drop_first()[k] == s[k + 1]);
        lemma_trim_front_at(s.drop_first(), j - 1);
        assert(s.drop_first().skip(j - 1) =~= s.skip(j));
    } else {
        assert(j == 0);
        assert(s.skip(0) =~= s);
    }
}

proof fn lemma_trim_back_at(s: Seq<char>, h: int)
    requires
        0 <= h <= s.len(),
        forall|k: int| h <= k < s.len() ==> is_space(s[k]),
        h > 0 ==> !is_space(s[h - 1]),
    ensures
        trim_back(s) =~= s.take(h),
    decreases s.len(),
{
    if s.len() > 0 && is_space(s.last()) {
        assert(forall|k: int| 0 <= k < s.len() - 1 ==> s.drop_last()[k] == s[k]);
        lemma_trim_back_at(s.drop_last(), h);
        assert(s.drop_last().take(h) =~= s.take(h));
    } else {
        assert(h == s.len());
        assert(s.take(h) =~= s);
    }
}

/// Whether the six characters at `at` spell the scheme marker.
fn is_bearer_at(s: &str, at: usize) -> (r: bool)
    requires
        at <= s@.len(),
    ensures
        r == (s@.skip(at as int).len() >= 6 && s@.skip(at as int).take(6) == "Bearer"@),
{
    proof {
        reveal_strlit("Bearer");
    }
    let len = s.unicode_len();
    if at > len || len - at < 6 {
        return false;
    }
    let r = s.get_char(at) == 'B' && s.get_char(at + 1) == 'e' && s.get_char(at + 2) == 'a'
        && s.get_char(at + 3) == 'r' && s.get_char(at + 4) == 'e' && s.get_char(at + 5) == 'r';
    proof {
        if r {
            assert(s@.skip(at as int).take(6) =~= "Bearer"@);
        } else {
            assert(s@.skip(at as int).take(6) != "Bearer"@) by {
                let t6 = s@.skip(at as int).take(6);
                if t6 == "Bearer"@ {
                    assert(t6[0] == s@[at as int]);
                    assert(t6[1] == s@[at as int + 1]);
                    assert(t6[2] == s@[at as int + 2]);
                    assert(t6[3] == s@[at as int + 3]);
                    assert(t6[4] == s@[at as int + 4]);
                    assert(t6[5] == s@[at as int + 5]);
                }
            }
        }
    }
    r
}

fn is_space_char(c: char) -> (r: bool)
    ensures
        r == is_space(c),
{
    c == ' ' || c == '\t' || c == '\r' || c == '\n'
}

/// Extracts the raw token from a header value: strips the leading scheme
/// marker and surrounding whitespace.
#[verifier::loop_isolation(false)]
pub fn extract_token(header: &str) -> (r: String)
    ensures
        r@ == token_of(header@),
{
    let len = header.unicode_len();
    let mut start: usize = 0;
    proof {
        assert(header@.skip(0) =~= header@);
    }
    while is_bearer_at(header, start)
        invariant
            0 <= start <= len,
            len == header@.len(),
            strip_bearer(header@) == strip_bearer(header@.skip(start as int)),
        decreases len - start,
    {
        proof {
            assert(header@.skip(start as int).skip(6) =~= header@.skip(start as int + 6));
        }
        start = start + 6;
    }
    let ghost stripped = header@.skip(start as int);
    proof {
        assert(strip_bearer(stripped) == stripped);
    }
    let mut lo: usize = start;
    while lo < len && is_space_char(header.get_char(lo))
        invariant
            start <= lo <= len,
            forall|k: int| start <= k < lo ==> is_space(header@[k]),
        decreases len - lo,
    {
        lo = lo + 1;
    }
    let mut hi: usize = len;
    while hi > lo && is_space_char(header.get_char(hi - 1))
        invariant
            lo <= hi <= len,
            forall|k: int| hi <= k < len ==> is_space(header@[k]),
        decreases hi,
    {
        hi = hi - 1;
    }
    let token = header.substring_char(lo, hi).to_owned();
    proof {
        assert(forall|k: int| 0 <= k < stripped.len() ==> stripped[k] == header@[k + start]);
        lemma_trim_front_at(stripped, lo - start);
        let fronted = stripped.skip(lo - start);
        assert(forall|k: int| 0 <= k < fronted.len() ==> fronted[k] == header@[k + lo]);
        lemma_trim_back_at(fronted, hi - lo);
        assert(fronted.take(hi - lo) =~= header@.subrange(lo as int, hi as int));
        assert(token@ == token_of(header@));
    }
    token
}

/// The outcome of verifying a token's signature and decoding its claims.
#[derive(Debug)]
pub enum TokenVerdict {
    /// Signature valid and unexpired; the claims as found in the payload.
    Valid { iat: Option<i64>, scope: Option<String> },
    /// The signature is past its expiry.
    Expired,
    /// The token is structurally invalid.
    Malformed,
    /// Any other verification failure, with its error text.
    Failed(String),
}

/// Mathematical model of a verification outcome.
pub enum TokenVerdictV {
    Valid { iat: Option<i64>, scope: Option<Seq<char>> },
    Expired,
    Malformed,
    Failed(Seq<char>),
}

impl View for TokenVerdict {
    type V = TokenVerdictV;

    open spec fn view(&self) -> TokenVerdictV {
        match self {
            TokenVerdict::Valid { iat, scope } => TokenVerdictV::Valid {
                iat: *iat,
                scope: match scope {
                    Some(s) => Some(s@),
                    None => None,
                },
            },
            TokenVerdict::Expired => TokenVerdictV::Expired,
            TokenVerdict::Malformed => TokenVerdictV::Malformed,
            TokenVerdict::Failed(m) => TokenVerdictV::Failed(m@),
        }
    }
}

#[verifier::external_type_specification]
#[verifier::external_body]
pub struct ExDecodingKey(jsonwebtoken::DecodingKey);

/// Relies on jsonwebtoken's `DecodingKey::from_rsa_components`: builds a
/// verification key from base64url RSA components, or fails on malformed
/// components. Nothing is promised of the key itself.
#[verifier::external_body]
fn rsa_key_from_components(n: &str, e: &str) -> (r: Option<jsonwebtoken::DecodingKey>) {
    jsonwebtoken::DecodingKey::from_rsa_components(n, e).ok()
}

/// Relies on jsonwebtoken's `decode` with the RS256 algorithm pinned: the
/// verdict depends on the signature, the key and the clock, so nothing is
/// promised of it; the caller states what holds of every outcome.
#[verifier::external_body]
fn decode_rs256(token: &str, key: &jsonwebtoken::DecodingKey) -> (r: TokenVerdict) {
    let validation = jsonwebtoken::Validation::new(jsonwebtoken::Algorithm::RS256);
    match jsonwebtoken::decode::<serde_json::Value>(token, key, &validation) {
        Ok(data) => TokenVerdict::Valid {
            iat: data.claims.get("iat").and_then(serde_json::Value::as_i64),
            scope: data.claims.get("scope").and_then(serde_json::Value::as_str).map(
                str::to_string,
            ),
        },
        Err(err) => match err.kind() {
            jsonwebtoken::errors::ErrorKind::ExpiredSignature => TokenVerdict::Expired,
            jsonwebtoken::errors::ErrorKind::InvalidToken => TokenVerdict::Malformed,
            _ => TokenVerdict::Failed(err.to_string()),
        },
    }
}

/// What each verification outcome yields: the claims on a valid token whose
/// `iat` fits, the fixed reason otherwise.
pub open spec fn spec_finish(v: TokenVerdictV) -> Result<(i32, Seq<char>), Seq<char>> {
    match v {
        TokenVerdictV::Valid { iat: Some(t), scope: Some(sc) } => if i32::MIN <= t <= i32::MAX {
            Ok((t as i32, sc))
        } else {
            Err(unauthorized_body("invalid token"@))
        },
        TokenVerdictV::Valid { .. } => Err(unauthorized_body("invalid token"@)),
        TokenVerdictV::Expired => Err(unauthorized_body("expired token"@)),
        TokenVerdictV::Malformed => Err(unauthorized_body("invalid token"@)),
        TokenVerdictV::Failed(m) => Err(unauthorized_body(m)),
    }
}

/// Maps a verification outcome to the guard's result: an expired signature,
/// a structurally invalid token or missing claims are `Unauthorized` with
/// their fixed reasons; any other failure carries the raw error text.
pub fn finish_auth(verdict: TokenVerdict) -> (r: Result<JWT, NetworkResponse>)
    ensures
        match r {
            Ok(jwt) => spec_finish(verdict@) == Ok::<(i32, Seq<char>), Seq<char>>(
                (jwt.claims.iat, jwt.claims.scope@),
            ),
            Err(e) => e matches NetworkResponse::Unauthorized(b) && spec_finish(verdict@) == Err::<
                (i32, Seq<char>),
                Seq<char>,
            >(b@),
        },
{
    match verdict {
        TokenVerdict::Valid { iat: Some(t), scope: Some(sc) } => {
            if i32::MIN as i64 <= t && t <= i32::MAX as i64 {
                Ok(JWT { claims: Claims { iat: t as i32, scope: sc } })
            } else {
                Err(make_unauthorized("invalid token"))
            }
        },
        TokenVerdict::Valid { .. } => Err(make_unauthorized("invalid token")),
        TokenVerdict::Expired => Err(make_unauthorized("expired token")),
        TokenVerdict::Malformed => Err(make_unauthorized("invalid token")),
        TokenVerdict::Failed(m) => {
            let r = make_unauthorized(m.as_str());
            Err(r)
        },
    }
}

/// The first step of the guard: without a bearer header the request is
/// terminally `Unauthorized`; otherwise the raw token is extracted.
pub fn begin_auth(header: Option<&str>) -> (r: Result<String, NetworkResponse>)
    ensures
        match header {
            None => r matches Err(e) && e matches NetworkResponse::Unauthorized(b) && b@
                == unauthorized_body("no token provided"@),
            Some(h) => r matches Ok(t) && t@ == token_of(h@),
        },
{
    match header {
        None => Err(make_unauthorized("no token provided")),
        Some(h) => Ok(extract_token(h)),
    }
}

/// Selects the signing key: the first key of the fetched set.
pub fn select_key(keys: &Vec<Jwk>) -> (r: Option<&Jwk>)
    ensures
        match r {
            Some(k) => keys@.len() > 0 && k.n@ == keys@[0].n@ && k.e@ == keys@[0].e@,
            None => keys@.len() == 0,
        },
{
    if keys.len() == 0 {
        None
    } else {
        Some(&keys[0])
    }
}

/// The remaining steps of the guard, given the raw token and the fetched
/// key set (`None` when the fetch or its deserialization failed, which is
/// treated as a token failure). The first key verifies the token; every
/// failure is `Unauthorized`.
pub fn complete_auth(token: &String, keys: Option<&Vec<Jwk>>) -> (r: Result<JWT, NetworkResponse>)
    ensures
        match keys {
            None => r matches Err(e) && e matches NetworkResponse::Unauthorized(b) && b@
                == unauthorized_body("invalid token"@),
            Some(ks) => {
                &&& ks@.len() == 0 ==> (r matches Err(e) && e matches NetworkResponse::Unauthorized(
                    b,
                ) && b@ == unauthorized_body("invalid token"@))
                &&& r matches Err(e) ==> e is Unauthorized
            },
        },
{
    let ks = match keys {
        None => {
            return Err(make_unauthorized("invalid token"));
        },
        Some(ks) => ks,
    };
    let jwk = match select_key(ks) {
        None => {
            return Err(make_unauthorized("invalid token"));
        },
        Some(k) => k,
    };
    let key = match rsa_key_from_components(jwk.n.as_str(), jwk.e.as_str()) {
        None => {
            return Err(make_unauthorized("invalid token"));
        },
        Some(k) => k,
    };
    let verdict = decode_rs256(token.as_str(), &key);
    finish_auth(verdict)
}

} // verus!
