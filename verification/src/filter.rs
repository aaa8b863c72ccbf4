//! Translation of external query parameters into a store-level filter
//! predicate and a pagination/projection descriptor.

use vstd::prelude::*;
use vstd::string::StrSliceExecFns;
use vstd::string::StringExecFns;

use crate::error::{api_error, ApiError, ApiErrorV, LocalError, LocalErrorV};
use crate::json::{
    first_key_index, jv_fields, lemma_first_key_index, lemma_jv_fields_index,
    lemma_jv_fields_insert, lemma_jv_fields_len, lemma_jv_fields_remove, lookup, Json, JsonV,
};

verus! {

/// What parsing a timestamp string yields: `Some` with milliseconds since
/// the Unix epoch exactly when the string is a well-formed timestamp. The
/// grammar is the timestamp format of the date library; it is a function of
/// the characters alone.
pub uninterp spec fn utc_parse(s: Seq<char>) -> Option<i64>;

/// Relies on chrono's `DateTime<Utc>` `FromStr` (an RFC 3339 timestamp
/// parser) and `timestamp_millis`: a deterministic function of the input
/// characters.
#[verifier::external_body]
pub fn parse_datetime_utc(s: &str) -> (r: Option<i64>)
    ensures
        r == utc_parse(s@),
{
    match s.parse::<chrono::DateTime<chrono::Utc>>() {
        Ok(d) => Some(d.timestamp_millis()),
        Err(_) => None,
    }
}

/// Relies on chrono's `Utc::now`: the current time, about which nothing is
/// promised.
#[verifier::external_body]
pub fn now_millis() -> i64 {
    chrono::Utc::now().timestamp_millis()
}

/// The timestamp stored under `v[root][sub]`, when that field holds a
/// parseable timestamp string.
pub open spec fn date_of(v: JsonV, root: Seq<char>, sub: Seq<char>) -> Option<i64> {
    match lookup(v, root) {
        Some(inner) => match lookup(inner, sub) {
            Some(JsonV::Str(s)) => utc_parse(s),
            _ => None,
        },
        None => None,
    }
}

/// Reads the timestamp string at `v[root][sub]` and parses it; any missing
/// field or malformed timestamp is a context error naming the two keys.
pub fn get_date_filter(v: &Json, root: &str, sub: &str) -> (r: Result<i64, ApiError>)
    ensures
        match r {
            Ok(ms) => date_of(v@, root@, sub@) == Some(ms),
            Err(e) => date_of(v@, root@, sub@) is None && e@ == api_error(
                LocalErrorV::ContextError("Exception on value "@ + root@ + " "@ + sub@),
            ),
        },
{
    let parsed: Option<i64> = match v.get(root) {
        Some(inner) => match inner.get(sub) {
            Some(Json::Str(s)) => parse_datetime_utc(s.as_str()),
            _ => None,
        },
        None => None,
    };
    match parsed {
        Some(ms) => Ok(ms),
        None => {
            let desc = String::from_str("Exception on value ").concat(root).concat(" ").concat(
                sub,
            );
            Err(ApiError::new(LocalError::ContextError(desc)))
        },
    }
}

/// Index of the first separator character, if any.
pub open spec fn first_sep(s: Seq<char>) -> Option<int>
    decreases s,
{
    if s.len() == 0 {
        None
    } else if s[0] == '.' {
        Some(0int)
    } else {
        match first_sep(s.drop_first()) {
            Some(i) => Some(i + 1),
            None => None,
        }
    }
}

pub proof fn lemma_first_sep(s: Seq<char>)
    ensures
        match first_sep(s) {
            Some(i) => 0 <= i < s.len() && s[i] == '.' && (forall|k: int| 0 <= k < i ==> s[k] != '.'),
            None => forall|k: int| 0 <= k < s.len() ==> s[k] != '.',
        },
    decreases s,
{
    if s.len() > 0 && s[0] != '.' {
        lemma_first_sep(s.drop_first());
        assert(forall|k: int| 1 <= k < s.len() ==> s[k] == s.drop_first()[k - 1]);
    }
}

/// The first separator is wherever the first `'.'` stands.
pub proof fn lemma_first_sep_at(s: Seq<char>, j: int)
    requires
        0 <= j <= s.len(),
        forall|k: int| 0 <= k < j ==> s[k] != '.',
        j < s.len() ==> s[j] == '.',
    ensures
        first_sep(s) == if j == s.len() {
            Option::<int>::None
        } else {
            Option::<int>::Some(j)
        },
    decreases s,
{
    if s.len() > 0 && s[0] != '.' {
        assert(forall|k: int| 1 <= k < s.len() ==> s[k] == s.drop_first()[k - 1]);
        lemma_first_sep_at(s.drop_first(), j - 1);
    }
}

/// The segments of `s` between `'.'` separators, in order.
pub open spec fn spec_split(s: Seq<char>) -> Seq<Seq<char>>
    decreases s.len(),
    via spec_split_decreases
{
    match first_sep(s) {
        None => seq![s],
        Some(i) => seq![s.take(i)] + spec_split(s.skip(i + 1)),
    }
}

#[via_fn]
proof fn spec_split_decreases(s: Seq<char>) {
    lemma_first_sep(s);
}

/// The views of a vector of strings.
pub open spec fn strs_view(v: Seq<String>) -> Seq<Seq<char>> {
    Seq::new(v.len(), |i: int| v[i]@)
}

/// Splits a key on `'.'` into its path segments.
#[verifier::loop_isolation(false)]
pub fn split_dots(s: &str) -> (r: Vec<String>)
    ensures
        strs_view(r@) == spec_split(s@),
{
    let len = s.unicode_len();
    let mut out: Vec<String> = Vec::new();
    let mut start: usize = 0;
    let mut i: usize = 0;
    proof {
        assert(s@.skip(0) =~= s@);
        assert(strs_view(out@) =~= Seq::<Seq<char>>::empty());
    }
    while i < len
        invariant
            0 <= start <= i <= len,
            len == s@.len(),
            forall|k: int| start <= k < i ==> s@[k] != '.',
            strs_view(out@) + spec_split(s@.skip(start as int)) =~= spec_split(s@),
        decreases len - i,
    {
        if s.get_char(i) == '.' {
            let seg = s.substring_char(start, i).to_owned();
            proof {
                let rest = s@.skip(start as int);
                assert(forall|k: int| 0 <= k < i - start ==> rest[k] == s@[k + start]);
                assert(rest[i - start] == s@[i as int]);
                lemma_first_sep_at(rest, i - start);
                assert(rest.take(i - start) =~= s@.subrange(start as int, i as int));
                assert(rest.skip(i - start + 1) =~= s@.skip(i + 1));
                assert(spec_split(rest) == seq![s@.subrange(start as int, i as int)] + spec_split(
                    s@.skip(i + 1),
                ));
                assert(strs_view(out@.push(seg)) =~= strs_view(out@) + seq![seg@]);
            }
            out.push(seg);
            start = i + 1;
        }
        i = i + 1;
    }
    let seg = s.substring_char(start, len).to_owned();
    proof {
        let rest = s@.skip(start as int);
        assert(forall|k: int| 0 <= k < rest.len() ==> rest[k] == s@[k + start]);
        lemma_first_sep_at(rest, rest.len() as int);
        assert(rest =~= s@.subrange(start as int, len as int));
        assert(spec_split(rest) == seq![rest]);
        assert(strs_view(out@.push(seg)) =~= strs_view(out@) + seq![seg@]);
    }
    out.push(seg);
    proof {
        assert(strs_view(out@) =~= spec_split(s@));
    }
    out
}

/// One condition of a structured filter: the value found at a field path
/// must equal the given value.
#[derive(Debug)]
pub struct FieldCond {
    pub path: Vec<String>,
    pub value: Json,
}

/// Mathematical model of a filter predicate.
pub enum FilterV {
    /// `requestDate` at least the given timestamp.
    DateGte(i64),
    /// Every listed path holds the listed value.
    Fields(Seq<(Seq<Seq<char>>, JsonV)>),
}

/// A store-level filter predicate.
#[derive(Debug)]
pub enum Filter {
    /// `requestDate` at least the given timestamp.
    DateGte(i64),
    /// Every listed path holds the listed value.
    Fields(Vec<FieldCond>),
}

impl View for Filter {
    type V = FilterV;

    open spec fn view(&self) -> FilterV {
        match self {
            Filter::DateGte(t) => FilterV::DateGte(*t),
            Filter::Fields(conds) => FilterV::Fields(
                Seq::new(conds@.len(), |i: int| (strs_view(conds@[i].path@), conds@[i].value@)),
            ),
        }
    }
}

/// The value reached by walking `path` down through nested objects.
pub open spec fn path_lookup(v: JsonV, path: Seq<Seq<char>>) -> Option<JsonV>
    decreases path.len(),
{
    if path.len() == 0 {
        Some(v)
    } else {
        match lookup(v, path[0]) {
            Some(w) => path_lookup(w, path.drop_first()),
            None => None,
        }
    }
}

/// Whether a document content satisfies a filter predicate.
pub open spec fn filter_matches(f: FilterV, v: JsonV) -> bool {
    match f {
        FilterV::DateGte(t) => match lookup(v, "requestDate"@) {
            Some(JsonV::Date(ms)) => ms >= t,
            _ => false,
        },
        FilterV::Fields(conds) => forall|i: int|
            0 <= i < conds.len() ==> path_lookup(v, (#[trigger] conds[i]).0) == Some(conds[i].1),
    }
}

/// Walks a pre-split field path down through nested objects, starting at
/// segment `from`.
pub fn path_get<'a>(v: &'a Json, path: &Vec<String>, from: usize) -> (r: Option<&'a Json>)
    requires
        from <= path@.len(),
    ensures
        match r {
            Some(w) => path_lookup(v@, strs_view(path@).skip(from as int)) == Some(w@),
            None => path_lookup(v@, strs_view(path@).skip(from as int)) is None,
        },
    decreases path@.len() - from,
{
    if from == path.len() {
        proof {
            assert(strs_view(path@).skip(from as int) =~= Seq::<Seq<char>>::empty());
        }
        Some(v)
    } else {
        proof {
            assert(strs_view(path@).skip(from as int)[0] == path@[from as int]@);
            assert(strs_view(path@).skip(from as int).drop_first() =~= strs_view(path@).skip(
                from as int + 1,
            ));
        }
        match v.get(path[from].as_str()) {
            Some(w) => path_get(w, path, from + 1),
            None => None,
        }
    }
}

/// What building a date filter yields: a "`requestDate` at least the given
/// timestamp" predicate from the `requestdate` field of the query object.
pub open spec fn spec_date_filter(v: JsonV) -> Result<FilterV, ApiErrorV> {
    match lookup(v, "requestdate"@) {
        Some(JsonV::Str(d)) => match utc_parse(d) {
            Some(t) => Ok(FilterV::DateGte(t)),
            None => Err(api_error(LocalErrorV::FilterStringParsing("Date filter wrongly formatted."@))),
        },
        _ => Err(api_error(LocalErrorV::FilterDateParsing("Filter value not found requestDate"@))),
    }
}

/// Builds a "`requestDate` at least the given timestamp" predicate from the
/// `requestdate` field of the query object.
pub fn create_date_filter(filter: Json) -> (r: Result<Filter, ApiError>)
    ensures
        match r {
            Ok(f) => spec_date_filter(filter@) == Ok::<FilterV, ApiErrorV>(f@),
            Err(e) => spec_date_filter(filter@) == Err::<FilterV, ApiErrorV>(e@),
        },
{
    match filter.get("requestdate") {
        Some(Json::Str(d)) => match parse_datetime_utc(d.as_str()) {
            Some(t) => Ok(Filter::DateGte(t)),
            None => Err(
                ApiError::new(
                    LocalError::FilterStringParsing(
                        String::from_str("Date filter wrongly formatted."),
                    ),
                ),
            ),
        },
        _ => Err(
            ApiError::new(
                LocalError::FilterDateParsing(
                    String::from_str("Filter value not found requestDate"),
                ),
            ),
        ),
    }
}

/// What converting a query object into a structured predicate yields: one
/// condition per field, its key split on `'.'` into a path.
pub open spec fn spec_string_filter(v: JsonV) -> Result<FilterV, ApiErrorV> {
    match v {
        JsonV::Obj(fields) => Ok(
            FilterV::Fields(Seq::new(fields.len(), |i: int| (spec_split(fields[i].0), fields[i].1))),
        ),
        _ => Err(
            api_error(
                LocalErrorV::FilterDateParsing("Input Json String filter Data wrongly structure."@),
            ),
        ),
    }
}

/// Converts a query object into a structured predicate: one condition per
/// field, its key split on `'.'` into a path of nested object fields.
#[verifier::loop_isolation(false)]
pub fn create_string_filter(filter: Json) -> (r: Result<Filter, ApiError>)
    ensures
        match r {
            Ok(f) => spec_string_filter(filter@) == Ok::<FilterV, ApiErrorV>(f@),
            Err(e) => spec_string_filter(filter@) == Err::<FilterV, ApiErrorV>(e@),
        },
{
    match filter {
        Json::Obj(fields) => {
            let mut conds: Vec<FieldCond> = Vec::new();
            let mut i: usize = 0;
            while i < fields.len()
                invariant
                    0 <= i <= fields@.len(),
                    conds@.len() == i,
                    forall|k: int|
                        0 <= k < i ==> (strs_view((#[trigger] conds@[k]).path@) == spec_split(
                            crate::json::jv_fields(fields@)[k].0,
                        ) && conds@[k].value@ == crate::json::jv_fields(fields@)[k].1),
                decreases fields@.len() - i,
            {
                proof {
                    crate::json::lemma_jv_fields_len(fields@);
                    crate::json::lemma_jv_fields_index(fields@, i as int);
                }
                let path = split_dots(fields[i].0.as_str());
                let value = fields[i].1.deep_clone();
                conds.push(FieldCond { path, value });
                i = i + 1;
            }
            let result = Filter::Fields(conds);
            proof {
                crate::json::lemma_jv_fields_len(fields@);
                assert(result@ matches FilterV::Fields(cs) && cs =~= Seq::new(
                    crate::json::jv_fields(fields@).len(),
                    |k: int|
                        (
                            spec_split(crate::json::jv_fields(fields@)[k].0),
                            crate::json::jv_fields(fields@)[k].1,
                        ),
                ));
            }
            Ok(result)
        },
        _ => Err(
            ApiError::new(
                LocalError::FilterDateParsing(
                    String::from_str("Input Json String filter Data wrongly structure."),
                ),
            ),
        ),
    }
}

/// The skip count of a page window: `(page - 1) * limit`, with `page`
/// clamped to at least 1 and `limit` to at least 0, saturating at the
/// largest representable count.
pub open spec fn spec_skip(page: i64, limit: i64) -> int {
    let p: int = if page < 1 {
        0
    } else {
        page - 1
    };
    let l: int = if limit < 0 {
        0
    } else {
        limit as int
    };
    if p * l > u64::MAX {
        u64::MAX as int
    } else {
        p * l
    }
}

/// The fields a listing response hides, as dotted names.
pub open spec fn excluded_names() -> Seq<Seq<char>> {
    seq![
        "policy.location"@,
        "policy.title"@,
        "policy.toto"@,
        "requestDate"@,
        "policyStartDate"@,
        "policyEndDate"@,
    ]
}

/// Pagination and projection for a listing query: how many matches to skip,
/// how many to return, and which fields to hide.
#[derive(Debug)]
pub struct FindDescriptor {
    pub skip: u64,
    pub limit: i64,
    pub excluded: Vec<String>,
}

/// Builds the pagination/projection descriptor for a 1-based page of the
/// given size; the excluded-fields list is a fixed constant set.
pub fn head_filter(page: i64, limit: i64) -> (r: Result<FindDescriptor, ApiError>)
    ensures
        match r {
            Ok(d) => d.skip == spec_skip(page, limit) && d.limit == limit && strs_view(d.excluded@)
                == excluded_names(),
            Err(_) => false,
        },
{
    let p: u64 = if page < 1 {
        0
    } else {
        (page - 1) as u64
    };
    let l: u64 = if limit < 0 {
        0
    } else {
        limit as u64
    };
    let skip = match p.checked_mul(l) {
        Some(x) => x,
        None => u64::MAX,
    };
    let excluded = vec![
        String::from_str("policy.location"),
        String::from_str("policy.title"),
        String::from_str("policy.toto"),
        String::from_str("requestDate"),
        String::from_str("policyStartDate"),
        String::from_str("policyEndDate"),
    ];
    proof {
        assert(strs_view(excluded@) =~= excluded_names());
    }
    Ok(FindDescriptor { skip, limit, excluded })
}

/// A field list without its first field named `key`, if it has one.
pub open spec fn remove_key_fields(
    fields: Seq<(Seq<char>, JsonV)>,
    key: Seq<char>,
) -> Seq<(Seq<char>, JsonV)> {
    match first_key_index(fields, key) {
        Some(i) => fields.remove(i),
        None => fields,
    }
}

/// Removes the field reached by walking `path` down through nested objects;
/// a value without that path is unchanged.
pub open spec fn remove_path(v: JsonV, path: Seq<Seq<char>>) -> JsonV
    decreases path.len(),
{
    if path.len() == 0 {
        v
    } else {
        match v {
            JsonV::Obj(fields) => if path.len() == 1 {
                JsonV::Obj(remove_key_fields(fields, path[0]))
            } else {
                match first_key_index(fields, path[0]) {
                    Some(i) => JsonV::Obj(
                        fields.update(
                            i,
                            (fields[i].0, remove_path(fields[i].1, path.drop_first())),
                        ),
                    ),
                    None => v,
                }
            },
            _ => v,
        }
    }
}

/// Removes the field at the pre-split path, starting at segment `from`.
pub fn remove_path_exec(v: Json, path: &Vec<String>, from: usize) -> (r: Json)
    requires
        from <= path@.len(),
    ensures
        r@ == remove_path(v@, strs_view(path@).skip(from as int)),
    decreases path@.len() - from,
{
    if from == path.len() {
        proof {
            assert(strs_view(path@).skip(from as int) =~= Seq::<Seq<char>>::empty());
        }
        v
    } else {
        proof {
            assert(strs_view(path@).skip(from as int)[0] == path@[from as int]@);
        }
        match v {
            Json::Obj(mut fields) => {
                let ghost gfields = fields@;
                match Json::find_key(&fields, path[from].as_str()) {
                    Some(i) => {
                        proof {
                            lemma_first_key_index(jv_fields(gfields), path@[from as int]@);
                            lemma_jv_fields_len(gfields);
                        }
                        if from + 1 == path.len() {
                            fields.remove(i);
                            proof {
                                lemma_jv_fields_remove(gfields, i as int);
                            }
                            Json::Obj(fields)
                        } else {
                            let entry = fields.remove(i);
                            proof {
                                lemma_jv_fields_remove(gfields, i as int);
                                lemma_jv_fields_index(gfields, i as int);
                                assert(strs_view(path@).skip(from as int).drop_first()
                                    =~= strs_view(path@).skip(from as int + 1));
                            }
                            let newv = remove_path_exec(entry.1, path, from + 1);
                            let ghost gmid = fields@;
                            fields.insert(i, (entry.0, newv));
                            proof {
                                lemma_jv_fields_insert(gmid, i as int, (entry.0, newv));
                                assert(jv_fields(gmid) =~= jv_fields(gfields).remove(i as int));
                                assert(jv_fields(fields@) =~= jv_fields(gfields).remove(
                                    i as int,
                                ).insert(i as int, (entry.0@, newv@)));
                                assert(jv_fields(fields@) =~= jv_fields(gfields).update(
                                    i as int,
                                    (
                                        jv_fields(gfields)[i as int].0,
                                        remove_path(
                                            jv_fields(gfields)[i as int].1,
                                            strs_view(path@).skip(from as int).drop_first(),
                                        ),
                                    ),
                                ));
                            }
                            Json::Obj(fields)
                        }
                    },
                    None => Json::Obj(fields),
                }
            },
            other => other,
        }
    }
}

/// The projection applied to each listed document: the excluded fields are
/// removed from the returned content.
pub open spec fn project(v: JsonV) -> JsonV {
    remove_path(
        remove_path(
            remove_path(
                remove_path(
                    remove_path(
                        remove_path(v, seq!["policy"@, "location"@]),
                        seq!["policy"@, "title"@],
                    ),
                    seq!["policy"@, "toto"@],
                ),
                seq!["requestDate"@],
            ),
            seq!["policyStartDate"@],
        ),
        seq!["policyEndDate"@],
    )
}

/// Applies the listing projection to a document content.
pub fn project_exec(v: Json) -> (r: Json)
    ensures
        r@ == project(v@),
{
    let p0: Vec<String> = vec![String::from_str("policy"), String::from_str("location")];
    let p1: Vec<String> = vec![String::from_str("policy"), String::from_str("title")];
    let p2: Vec<String> = vec![String::from_str("policy"), String::from_str("toto")];
    let p3: Vec<String> = vec![String::from_str("requestDate")];
    let p4: Vec<String> = vec![String::from_str("policyStartDate")];
    let p5: Vec<String> = vec![String::from_str("policyEndDate")];
    proof {
        assert(strs_view(p0@).skip(0) =~= seq!["policy"@, "location"@]);
        assert(strs_view(p1@).skip(0) =~= seq!["policy"@, "title"@]);
        assert(strs_view(p2@).skip(0) =~= seq!["policy"@, "toto"@]);
        assert(strs_view(p3@).skip(0) =~= seq!["requestDate"@]);
        assert(strs_view(p4@).skip(0) =~= seq!["policyStartDate"@]);
        assert(strs_view(p5@).skip(0) =~= seq!["policyEndDate"@]);
    }
    let v = remove_path_exec(v, &p0, 0);
    let v = remove_path_exec(v, &p1, 0);
    let v = remove_path_exec(v, &p2, 0);
    let v = remove_path_exec(v, &p3, 0);
    let v = remove_path_exec(v, &p4, 0);
    remove_path_exec(v, &p5, 0)
}

impl Filter {
    /// Whether a document content satisfies this filter.
    #[verifier::loop_isolation(false)]
    pub fn matches(&self, v: &Json) -> (r: bool)
        ensures
            r == filter_matches(self@, v@),
    {
        match self {
            Filter::DateGte(t) => match v.get("requestDate") {
                Some(Json::Date(ms)) => *ms >= *t,
                _ => false,
            },
            Filter::Fields(conds) => {
                let mut i: usize = 0;
                while i < conds.len()
                    invariant
                        0 <= i <= conds@.len(),
                        forall|k: int|
                            0 <= k < i ==> path_lookup(v@, (#[trigger] self@->Fields_0[k]).0)
                                == Some(self@->Fields_0[k].1),
                    decreases conds@.len() - i,
                {
                    proof {
                        assert(self@->Fields_0[i as int] == (
                            strs_view(conds@[i as int].path@),
                            conds@[i as int].value@,
                        ));
                    }
                    match path_get(v, &conds[i].path, 0) {
                        Some(w) => {
                            proof {
                                assert(strs_view(conds@[i as int].path@).skip(0) =~= strs_view(
                                    conds@[i as int].path@,
                                ));
                                assert(path_lookup(v@, self@->Fields_0[i as int].0) == Some(w@));
                            }
                            if !w.deep_eq(&conds[i].value) {
                                proof {
                                    assert(path_lookup(v@, self@->Fields_0[i as int].0) != Some(
                                        self@->Fields_0[i as int].1,
                                    ));
                                }
                                return false;
                            }
                        },
                        None => {
                            proof {
                                assert(strs_view(conds@[i as int].path@).skip(0) =~= strs_view(
                                    conds@[i as int].path@,
                                ));
                                assert(path_lookup(v@, self@->Fields_0[i as int].0) is None);
                            }
                            return false;
                        },
                    }
                    i = i + 1;
                }
                true
            },
        }
    }
}

} // verus!
