//! The document lifecycle engine: creation with derived temporal fields,
//! filtered and paginated listing, versioned update, delete-to-archive, and
//! count.
//!
//! The store keeps three partitions: `active` holds current versions,
//! `history` receives the prior content of a record the moment an update
//! supersedes it, and `deleted` receives the content of a record the moment
//! it is deleted. `history` and `deleted` are append-only. Each multi-step
//! lifecycle transition (supersede-then-remove, archive-then-remove) is a
//! single operation on the store, atomic from the caller's point of view.

use vstd::prelude::*;
use vstd::string::StrSliceExecFns;
use vstd::string::StringExecFns;

use crate::error::{api_error, render_error, ApiError, ApiErrorV, LocalError, LocalErrorV};
use crate::filter::{date_of, get_date_filter, now_millis};
use crate::json::{jv_seq, lemma_jv_seq_index, lemma_jv_seq_len, lookup, set_field, Json, JsonV};
use crate::models::Policy;
use crate::oid::{is_oid, lemma_oid_of_injective, lemma_oid_of_valid, oid_of, oid_valid, fresh_oid};

verus! {

/// One active record: its identifier and its content.
pub struct StoredDoc {
    pub id: String,
    pub content: Json,
}

/// Mathematical model of an active record.
#[verifier::ext_equal]
pub struct DocV {
    pub id: Seq<char>,
    pub content: JsonV,
}

/// Mathematical model of the store: the three partitions and the
/// identifier counter.
#[verifier::ext_equal]
pub struct StoreV {
    pub active: Seq<DocV>,
    pub history: Seq<JsonV>,
    pub deleted: Seq<JsonV>,
    pub next: u64,
}

/// The document store.
pub struct DocumentStore {
    pub active: Vec<StoredDoc>,
    pub history: Vec<Json>,
    pub deleted: Vec<Json>,
    pub next_seq: u64,
}

impl View for DocumentStore {
    type V = StoreV;

    open spec fn view(&self) -> StoreV {
        StoreV {
            active: Seq::new(
                self.active@.len(),
                |i: int| DocV { id: self.active@[i].id@, content: self.active@[i].content@ },
            ),
            history: Seq::new(self.history@.len(), |i: int| self.history@[i]@),
            deleted: Seq::new(self.deleted@.len(), |i: int| self.deleted@[i]@),
            next: self.next_seq,
        }
    }
}

/// Whether an identifier was issued by a counter that has since passed it.
pub open spec fn issued(id: Seq<char>, next: u64) -> bool {
    exists|k: u64| k < next && id == oid_of(k)
}

/// Well-formedness: every active identifier is well formed, was issued by
/// the counter, and is unique.
pub open spec fn wf_store(s: StoreV) -> bool {
    &&& forall|i: int| 0 <= i < s.active.len() ==> is_oid((#[trigger] s.active[i]).id)
    &&& forall|i: int, j: int|
        0 <= i < j < s.active.len() ==> (#[trigger] s.active[i]).id != (#[trigger] s.active[j]).id
    &&& forall|i: int| 0 <= i < s.active.len() ==> issued((#[trigger] s.active[i]).id, s.next)
}

/// Index of the first active record with the given identifier, if any.
pub open spec fn active_index(docs: Seq<DocV>, id: Seq<char>) -> Option<int>
    decreases docs,
{
    if docs.len() == 0 {
        None
    } else if docs[0].id == id {
        Some(0int)
    } else {
        match active_index(docs.drop_first(), id) {
            Some(i) => Some(i + 1),
            None => None,
        }
    }
}

pub proof fn lemma_active_index(docs: Seq<DocV>, id: Seq<char>)
    ensures
        match active_index(docs, id) {
            Some(i) => 0 <= i < docs.len() && docs[i].id == id && (forall|k: int|
                0 <= k < i ==> (#[trigger] docs[k]).id != id),
            None => forall|k: int| 0 <= k < docs.len() ==> (#[trigger] docs[k]).id != id,
        },
    decreases docs,
{
    if docs.len() > 0 && docs[0].id != id {
        lemma_active_index(docs.drop_first(), id);
        assert(forall|k: int| 1 <= k < docs.len() ==> docs[k] == docs.drop_first()[k - 1]);
    }
}

/// The first active record with an identifier is wherever the first record
/// bearing it stands.
pub proof fn lemma_active_index_at(docs: Seq<DocV>, id: Seq<char>, j: int)
    requires
        0 <= j <= docs.len(),
        forall|k: int| 0 <= k < j ==> (#[trigger] docs[k]).id != id,
        j < docs.len() ==> docs[j].id == id,
    ensures
        active_index(docs, id) == if j == docs.len() {
            Option::<int>::None
        } else {
            Option::<int>::Some(j)
        },
    decreases docs,
{
    if docs.len() > 0 && docs[0].id != id {
        assert(forall|k: int| 1 <= k < docs.len() ==> docs[k] == docs.drop_first()[k - 1]);
        lemma_active_index_at(docs.drop_first(), id, j - 1);
    }
}

/// In a well-formed store the identifier the counter would issue next is
/// carried by no active record.
pub proof fn lemma_fresh_id(s: StoreV)
    requires
        wf_store(s),
    ensures
        forall|k: int| 0 <= k < s.active.len() ==> (#[trigger] s.active[k]).id != oid_of(s.next),
{
    assert forall|k: int| 0 <= k < s.active.len() implies (#[trigger] s.active[k]).id != oid_of(
        s.next,
    ) by {
        let n = choose|n: u64| n < s.next && s.active[k].id == oid_of(n);
        if s.active[k].id == oid_of(s.next) {
            lemma_oid_of_injective(n, s.next);
        }
    }
}

/// Reading back string values that were stored as JSON strings yields the
/// original strings.
pub proof fn lemma_str_items_of_str_jsons(ids: Seq<Seq<char>>)
    ensures
        str_items(str_jsons(ids)) =~= ids,
    decreases ids.len(),
{
    if ids.len() > 0 {
        assert(str_jsons(ids).drop_last() =~= str_jsons(ids.drop_last()));
        lemma_str_items_of_str_jsons(ids.drop_last());
        assert(str_jsons(ids).last() == JsonV::Str(ids.last()));
    }
}

/// A record content stamped with its derived date fields: the three context
/// dates re-stored as native date values, and the integration date set to
/// the given time.
pub open spec fn stamp(v: JsonV, rd: i64, sd: i64, ed: i64, now: i64) -> JsonV {
    set_field(
        set_field(
            set_field(
                set_field(v, "requestDate"@, JsonV::Date(rd as int)),
                "policyStartDate"@,
                JsonV::Date(sd as int),
            ),
            "policyEndDate"@,
            JsonV::Date(ed as int),
        ),
        "integrationDate"@,
        JsonV::Date(now as int),
    )
}

/// What a read yields: the content of the active record with that
/// identifier; a malformed identifier or an absent record is an error.
pub open spec fn spec_get(s: StoreV, id: Seq<char>) -> Result<JsonV, ApiErrorV> {
    if !is_oid(id) {
        Err(api_error(LocalErrorV::OidFormatError("ObjectId wrongly structure."@)))
    } else {
        match active_index(s.active, id) {
            Some(i) => Ok(s.active[i].content),
            None => Err(api_error(LocalErrorV::DataNotFoundError("No result."@))),
        }
    }
}

/// What preparing a record for creation yields: the content must be an
/// object carrying the three parseable context dates; the record is that
/// content stamped with the derived date fields.
pub open spec fn spec_prepare(any: JsonV, now: i64) -> Result<JsonV, ApiErrorV> {
    if !(any is Obj) {
        Err(api_error(LocalErrorV::ParsingError("Document creation exception"@)))
    } else {
        match date_of(any, "context"@, "requestDate"@) {
            None => Err(api_error(LocalErrorV::ContextError("Invalid requestDate"@))),
            Some(rd) => match date_of(any, "context"@, "policyStartDate"@) {
                None => Err(api_error(LocalErrorV::ContextError("Invalid policyStartDate"@))),
                Some(sd) => match date_of(any, "context"@, "policyEndDate"@) {
                    None => Err(api_error(LocalErrorV::ContextError("Invalid policyEndDate"@))),
                    Some(ed) => Ok(stamp(any, rd, sd, ed, now)),
                },
            },
        }
    }
}

/// What a create does: prepares the record, appends it to the active
/// partition under a fresh identifier, and yields that identifier; on
/// failure the store is unchanged.
pub open spec fn spec_create(s: StoreV, any: JsonV, now: i64) -> (StoreV, Result<
    Seq<char>,
    ApiErrorV,
>) {
    match spec_prepare(any, now) {
        Err(e) => (s, Err(e)),
        Ok(record) => {
            let id = oid_of(s.next);
            (
                StoreV {
                    active: s.active.push(DocV { id, content: record }),
                    history: s.history,
                    deleted: s.deleted,
                    next: (s.next + 1) as u64,
                },
                Ok(id),
            )
        },
    }
}

/// Validates the three context dates of a content and stamps the derived
/// date fields; this is the compute part of a create, shared with backends
/// that persist elsewhere.
pub fn prepare_record(any: Json, now: i64) -> (r: Result<Json, ApiError>)
    ensures
        match r {
            Ok(record) => spec_prepare(any@, now) == Ok::<JsonV, ApiErrorV>(record@),
            Err(e) => spec_prepare(any@, now) == Err::<JsonV, ApiErrorV>(e@),
        },
{
    match &any {
        Json::Obj(_) => {},
        _ => {
            return Err(
                ApiError::new(
                    LocalError::ParsingError(String::from_str("Document creation exception")),
                ),
            );
        },
    }
    let rd = match get_date_filter(&any, "context", "requestDate") {
        Ok(r) => r,
        Err(_) => {
            return Err(
                ApiError::new(LocalError::ContextError(String::from_str("Invalid requestDate"))),
            );
        },
    };
    let sd = match get_date_filter(&any, "context", "policyStartDate") {
        Ok(r) => r,
        Err(_) => {
            return Err(
                ApiError::new(
                    LocalError::ContextError(String::from_str("Invalid policyStartDate")),
                ),
            );
        },
    };
    let ed = match get_date_filter(&any, "context", "policyEndDate") {
        Ok(r) => r,
        Err(_) => {
            return Err(
                ApiError::new(LocalError::ContextError(String::from_str("Invalid policyEndDate"))),
            );
        },
    };
    let record = any.set("requestDate", Json::Date(rd)).set("policyStartDate", Json::Date(sd)).set(
        "policyEndDate",
        Json::Date(ed),
    ).set("integrationDate", Json::Date(now));
    Ok(record)
}

/// The identifier strings among a sequence of values, in order; entries
/// that are not strings are dropped.
pub open spec fn str_items(items: Seq<JsonV>) -> Seq<Seq<char>>
    decreases items.len(),
{
    if items.len() == 0 {
        Seq::empty()
    } else {
        let rest = str_items(items.drop_last());
        match items.last() {
            JsonV::Str(s) => rest.push(s),
            _ => rest,
        }
    }
}

/// The version chain carried by a content: the identifier strings of its
/// `previousObjectIds` array, or empty when absent or not an array.
pub open spec fn chain_of(v: JsonV) -> Seq<Seq<char>> {
    match lookup(v, "previousObjectIds"@) {
        Some(JsonV::Arr(items)) => str_items(items),
        _ => Seq::empty(),
    }
}

/// Identifier strings as JSON string values.
pub open spec fn str_jsons(ids: Seq<Seq<char>>) -> Seq<JsonV> {
    Seq::new(ids.len(), |i: int| JsonV::Str(ids[i]))
}

/// An empty or absent update content: the original content is then reused.
pub open spec fn is_empty_content(v: JsonV) -> bool {
    v == JsonV::Null || (v matches JsonV::Obj(f) && f.len() == 0)
}

/// The content handed to the superseding create: `base` with its
/// `previousObjectIds` set to the superseded identifier followed by the
/// chain the superseded content already carried.
pub open spec fn with_chain(base: JsonV, id: Seq<char>, old_c: JsonV) -> JsonV {
    let chain = JsonV::Arr(str_jsons(seq![id] + chain_of(old_c)));
    match base {
        JsonV::Obj(_) => set_field(base, "previousObjectIds"@, chain),
        JsonV::Null => JsonV::Obj(seq![("previousObjectIds"@, chain)]),
        _ => base,
    }
}

/// What an update does: fetches the active record, creates a new version
/// whose chain is the old identifier prepended to the old chain, appends
/// the superseded content to history, and removes the superseded record
/// from the active partition; each failure leaves the store unchanged.
pub open spec fn spec_update(s: StoreV, any: JsonV, id: Seq<char>, now: i64) -> (StoreV, Result<
    Seq<char>,
    ApiErrorV,
>) {
    if !is_oid(id) {
        (s, Err(api_error(LocalErrorV::OidFormatError("Wrong structure."@))))
    } else {
        match active_index(s.active, id) {
            None => (
                s,
                Err(
                    api_error(
                        LocalErrorV::ConnectionError(
                            "Get policy failed: "@ + render_error(
                                LocalErrorV::DataNotFoundError("No result."@),
                            ) + "."@,
                        ),
                    ),
                ),
            ),
            Some(i) => {
                let old_c = s.active[i].content;
                let base = if is_empty_content(any) {
                    old_c
                } else {
                    any
                };
                let data = with_chain(base, id, old_c);
                let created = spec_create(s, data, now);
                match created.1 {
                    Err(e) => (
                        s,
                        Err(
                            api_error(
                                LocalErrorV::ConnectionError(
                                    "Create policy failed : "@ + e.description + "."@,
                                ),
                            ),
                        ),
                    ),
                    Ok(new_id) => (
                        StoreV {
                            active: created.0.active.remove(i),
                            history: s.history.push(old_c),
                            deleted: s.deleted,
                            next: created.0.next,
                        },
                        Ok(new_id),
                    ),
                }
            },
        }
    }
}

/// What a delete does: moves the active record with that identifier to the
/// deleted partition; a malformed identifier or an absent record is an
/// error and leaves the store unchanged.
pub open spec fn spec_delete(s: StoreV, id: Seq<char>) -> (StoreV, Result<int, ApiErrorV>) {
    if !is_oid(id) {
        (s, Err(api_error(LocalErrorV::OidFormatError("Wrong structure."@))))
    } else {
        match active_index(s.active, id) {
            None => (s, Err(api_error(LocalErrorV::DataNotFoundError("No result."@)))),
            Some(i) => (
                StoreV {
                    active: s.active.remove(i),
                    history: s.history,
                    deleted: s.deleted.push(s.active[i].content),
                    next: s.next,
                },
                Ok(1int),
            ),
        }
    }
}

/// The contents of a sequence of active records, in order.
pub open spec fn contents(docs: Seq<DocV>) -> Seq<JsonV> {
    Seq::new(docs.len(), |i: int| docs[i].content)
}

/// The contents that satisfy a filter, in order.
pub open spec fn matching(docs: Seq<JsonV>, f: crate::filter::FilterV) -> Seq<JsonV>
    decreases docs.len(),
{
    if docs.len() == 0 {
        Seq::empty()
    } else {
        let rest = matching(docs.drop_last(), f);
        if crate::filter::filter_matches(f, docs.last()) {
            rest.push(docs.last())
        } else {
            rest
        }
    }
}

pub proof fn lemma_matching_len(docs: Seq<JsonV>, f: crate::filter::FilterV)
    ensures
        matching(docs, f).len() <= docs.len(),
    decreases docs.len(),
{
    if docs.len() > 0 {
        lemma_matching_len(docs.drop_last(), f);
    }
}

/// The page of a match list: `skip` entries are passed over and at most
/// `limit` are taken.
pub open spec fn page_window(s: Seq<JsonV>, skip: int, limit: i64) -> Seq<JsonV> {
    let l: int = if limit < 0 {
        0
    } else {
        limit as int
    };
    let sk: int = if skip > s.len() {
        s.len() as int
    } else {
        skip
    };
    let end: int = if sk + l > s.len() {
        s.len() as int
    } else {
        sk + l
    };
    s.subrange(sk, end)
}

/// The views of the optional filter arguments.
pub open spec fn opt_view(o: Option<String>) -> Option<Seq<char>> {
    match o {
        Some(s) => Some(s@),
        None => None,
    }
}

/// Which filter a listing or count uses: the date filter when a date is
/// given (taking precedence over a policyholder), the policyholder filter
/// otherwise; with neither, the query is rejected.
pub open spec fn spec_filter_choice(fd: Option<Seq<char>>, fp: Option<Seq<char>>) -> Result<
    crate::filter::FilterV,
    ApiErrorV,
> {
    match fd {
        Some(d) => crate::filter::spec_date_filter(
            JsonV::Obj(seq![("requestdate"@, JsonV::Str(d))]),
        ),
        None => match fp {
            Some(p) => crate::filter::spec_string_filter(
                JsonV::Obj(seq![("policy.name"@, JsonV::Str(p))]),
            ),
            None => Err(api_error(LocalErrorV::ParsingError("No filter defined."@))),
        },
    }
}

/// What a listing yields: the projected contents of the active records that
/// match the chosen filter, within the requested page window.
pub open spec fn spec_list(
    s: StoreV,
    fd: Option<Seq<char>>,
    fp: Option<Seq<char>>,
    page: i64,
    limit: i64,
) -> Result<Seq<JsonV>, ApiErrorV> {
    match spec_filter_choice(fd, fp) {
        Err(e) => Err(e),
        Ok(f) => Ok(
            page_window(
                matching(contents(s.active), f),
                crate::filter::spec_skip(page, limit),
                limit,
            ).map_values(|v: JsonV| crate::filter::project(v)),
        ),
    }
}

/// What a count yields: how many active records match the chosen filter.
pub open spec fn spec_count(s: StoreV, fd: Option<Seq<char>>, fp: Option<Seq<char>>) -> Result<
    int,
    ApiErrorV,
> {
    match spec_filter_choice(fd, fp) {
        Err(e) => Err(e),
        Ok(f) => Ok(matching(contents(s.active), f).len() as int),
    }
}

/// Removing an active record preserves well-formedness.
proof fn lemma_wf_remove(s: StoreV, t: StoreV, i: int)
    requires
        wf_store(s),
        0 <= i < s.active.len(),
        t.active == s.active.remove(i),
        t.next == s.next,
    ensures
        wf_store(t),
{
    assert forall|k: int| 0 <= k < t.active.len() implies is_oid((#[trigger] t.active[k]).id) by {
        if k < i {
            assert(t.active[k] == s.active[k]);
        } else {
            assert(t.active[k] == s.active[k + 1]);
        }
    }
    assert forall|k: int| 0 <= k < t.active.len() implies issued(
        (#[trigger] t.active[k]).id,
        t.next,
    ) by {
        let k0 = if k < i {
            k
        } else {
            k + 1
        };
        assert(t.active[k] == s.active[k0]);
        assert(issued(s.active[k0].id, s.next));
    }
    assert forall|k: int, l: int| 0 <= k < l < t.active.len() implies (#[trigger] t.active[k]).id
        != (#[trigger] t.active[l]).id by {
        let k0 = if k < i {
            k
        } else {
            k + 1
        };
        let l0 = if l < i {
            l
        } else {
            l + 1
        };
        assert(t.active[k] == s.active[k0]);
        assert(t.active[l] == s.active[l0]);
    }
}

/// Whether an update content is empty, so the original content is reused.
pub fn is_empty_json(v: &Json) -> (r: bool)
    ensures
        r == is_empty_content(v@),
{
    match v {
        Json::Null => true,
        Json::Obj(f) => {
            proof {
                crate::json::lemma_jv_fields_len(f@);
            }
            f.len() == 0
        },
        _ => false,
    }
}

/// Builds the new `previousObjectIds` array: the superseded identifier
/// followed by the chain the superseded content carried.
pub fn chain_json(old_c: &Json, id: &String) -> (r: Json)
    ensures
        r@ == JsonV::Arr(str_jsons(seq![id@] + chain_of(old_c@))),
{
    let mut arr: Vec<Json> = Vec::new();
    let ghost e0 = arr@;
    let head = Json::Str(id.clone());
    let ghost ghead = head;
    arr.push(head);
    proof {
        crate::json::lemma_jv_seq_push(e0, ghead);
        assert(jv_seq(e0) =~= Seq::<JsonV>::empty());
        assert(jv_seq(arr@) =~= seq![JsonV::Str(id@)]);
    }
    match old_c.get("previousObjectIds") {
        Some(prev) => match prev {
            Json::Arr(items) => {
                let ghost gitems = jv_seq(items@);
                proof {
                    lemma_jv_seq_len(items@);
                    assert(chain_of(old_c@) == str_items(gitems));
                    assert(gitems.take(0) =~= Seq::<JsonV>::empty());
                    assert(jv_seq(arr@) =~= str_jsons(seq![id@] + str_items(gitems.take(0))));
                }
                let mut i: usize = 0;
                while i < items.len()
                    invariant
                        0 <= i <= items@.len(),
                        items@.len() == gitems.len(),
                        gitems == jv_seq(items@),
                        jv_seq(arr@) =~= str_jsons(seq![id@] + str_items(gitems.take(i as int))),
                    decreases items@.len() - i,
                {
                    proof {
                        lemma_jv_seq_index(items@, i as int);
                        assert(gitems.take(i as int + 1).drop_last() =~= gitems.take(i as int));
                        assert(gitems.take(i as int + 1).last() == gitems[i as int]);
                    }
                    match &items[i] {
                        Json::Str(s) => {
                            let ghost before = arr@;
                            let item = Json::Str(s.clone());
                            let ghost gitem = item;
                            arr.push(item);
                            proof {
                                crate::json::lemma_jv_seq_push(before, gitem);
                                assert(jv_seq(arr@) =~= str_jsons(
                                    seq![id@] + str_items(gitems.take(i as int + 1)),
                                ));
                            }
                        },
                        _ => {
                            proof {
                                assert(str_items(gitems.take(i as int + 1)) == str_items(
                                    gitems.take(i as int),
                                ));
                            }
                        },
                    }
                    i = i + 1;
                }
                proof {
                    assert(gitems.take(items@.len() as int) =~= gitems);
                }
            },
            _ => {
                proof {
                    assert(chain_of(old_c@) =~= Seq::<Seq<char>>::empty());
                    assert(jv_seq(arr@) =~= str_jsons(seq![id@] + chain_of(old_c@)));
                }
            },
        },
        None => {
            proof {
                assert(chain_of(old_c@) =~= Seq::<Seq<char>>::empty());
                assert(jv_seq(arr@) =~= str_jsons(seq![id@] + chain_of(old_c@)));
            }
        },
    }
    proof {
        assert(jv_seq(arr@) =~= str_jsons(seq![id@] + chain_of(old_c@)));
    }
    Json::Arr(arr)
}

impl DocumentStore {
    /// An empty store.
    pub fn new() -> (r: DocumentStore)
        ensures
            r@.active == Seq::<DocV>::empty(),
            r@.history == Seq::<JsonV>::empty(),
            r@.deleted == Seq::<JsonV>::empty(),
            wf_store(r@),
    {
        let r = DocumentStore { active: Vec::new(), history: Vec::new(), deleted: Vec::new(), next_seq: 0 };
        proof {
            assert(r@.active =~= Seq::<DocV>::empty());
            assert(r@.history =~= Seq::<JsonV>::empty());
            assert(r@.deleted =~= Seq::<JsonV>::empty());
        }
        r
    }

    /// Index of the active record with the given identifier.
    fn find_active(&self, id: &str) -> (r: Option<usize>)
        ensures
            match r {
                Some(i) => active_index(self@.active, id@) == Some(i as int) && i
                    < self.active@.len(),
                None => active_index(self@.active, id@) is None,
            },
    {
        proof {
            lemma_active_index(self@.active, id@);
        }
        let mut i: usize = 0;
        while i < self.active.len()
            invariant
                0 <= i <= self.active@.len(),
                forall|k: int| 0 <= k < i ==> (#[trigger] self@.active[k]).id != id@,
            decreases self.active@.len() - i,
        {
            if crate::json::str_eq(self.active[i].id.as_str(), id) {
                proof {
                    assert(self@.active[i as int].id == id@);
                    lemma_active_index(self@.active, id@);
                }
                return Some(i);
            }
            i = i + 1;
        }
        proof {
            lemma_active_index(self@.active, id@);
        }
        None
    }

    /// Returns the stored content of the record with the given identifier;
    /// the identifier field of the returned document is cleared.
    pub fn get_any(&self, id: &String) -> (r: Result<Policy, ApiError>)
        ensures
            match r {
                Ok(p) => spec_get(self@, id@) == Ok::<JsonV, ApiErrorV>(p.content@) && p.id
                    is None,
                Err(e) => spec_get(self@, id@) == Err::<JsonV, ApiErrorV>(e@),
            },
    {
        if !oid_valid(id.as_str()) {
            return Err(
                ApiError::new(
                    LocalError::OidFormatError(String::from_str("ObjectId wrongly structure.")),
                ),
            );
        }
        match self.find_active(id.as_str()) {
            Some(i) => Ok(Policy { id: None, content: self.active[i].content.deep_clone() }),
            None => Err(
                ApiError::new(LocalError::DataNotFoundError(String::from_str("No result."))),
            ),
        }
    }

    /// Creates a document from the given content at the given integration
    /// time. Validates the three context dates, stamps the derived date
    /// fields, and persists to the active partition. The returned document
    /// carries only the newly assigned identifier as its content.
    pub fn create_any_at(&mut self, any: Json, now: i64) -> (r: Result<Policy, ApiError>)
        requires
            wf_store(old(self)@),
            old(self)@.next < u64::MAX,
        ensures
            wf_store(final(self)@),
            final(self)@ == spec_create(old(self)@, any@, now).0,
            match r {
                Ok(p) => spec_create(old(self)@, any@, now).1 matches Ok(nid) && p.id is None
                    && p.content@ == JsonV::Str(nid),
                Err(e) => spec_create(old(self)@, any@, now).1 == Err::<Seq<char>, ApiErrorV>(e@),
            },
    {
        let ghost s0 = self@;
        let ghost ganyv = any@;
        let record = match prepare_record(any, now) {
            Ok(record) => record,
            Err(e) => {
                return Err(e);
            },
        };
        let id = fresh_oid(self.next_seq);
        let id_for_result = id.clone();
        proof {
            lemma_oid_of_valid(s0.next);
            assert forall|i: int| 0 <= i < s0.active.len() implies (#[trigger] s0.active[i]).id
                != oid_of(s0.next) by {
                let k = choose|k: u64| k < s0.next && s0.active[i].id == oid_of(k);
                if s0.active[i].id == oid_of(s0.next) {
                    lemma_oid_of_injective(k, s0.next);
                }
            }
        }
        self.active.push(StoredDoc { id, content: record });
        self.next_seq = self.next_seq + 1;
        proof {
            let created = spec_create(s0, ganyv, now).0;
            assert(self@.active =~= created.active);
            assert(self@.history =~= created.history);
            assert(self@.deleted =~= created.deleted);
            assert(self@ =~= created);
            assert forall|i: int| 0 <= i < self@.active.len() implies issued(
                (#[trigger] self@.active[i]).id,
                self@.next,
            ) by {
                if i < s0.active.len() {
                    let k = choose|k: u64| k < s0.next && s0.active[i].id == oid_of(k);
                    assert(k < self@.next && self@.active[i].id == oid_of(k));
                } else {
                    assert(self@.active[i].id == oid_of(s0.next));
                    assert(s0.next < self@.next);
                }
            }
        }
        Ok(Policy { id: None, content: Json::Str(id_for_result) })
    }

    /// Updates the record with the given identifier at the given
    /// integration time: a new version is created whose `previousObjectIds`
    /// begins with the superseded identifier, the superseded content moves
    /// to history, and the superseded record leaves the active partition.
    /// An empty content reuses the superseded content. The returned
    /// document carries only the newly assigned identifier as its content.
    pub fn update_any_at(&mut self, any: Json, id: String, now: i64) -> (r: Result<
        Policy,
        ApiError,
    >)
        requires
            wf_store(old(self)@),
            old(self)@.next < u64::MAX,
        ensures
            wf_store(final(self)@),
            final(self)@ == spec_update(old(self)@, any@, id@, now).0,
            match r {
                Ok(p) => spec_update(old(self)@, any@, id@, now).1 matches Ok(nid) && p.id
                    is None && p.content@ == JsonV::Str(nid),
                Err(e) => spec_update(old(self)@, any@, id@, now).1 == Err::<
                    Seq<char>,
                    ApiErrorV,
                >(e@),
            },
    {
        let ghost s0 = self@;
        let ghost ganyv = any@;
        let ghost gid = id@;
        if !oid_valid(id.as_str()) {
            return Err(
                ApiError::new(LocalError::OidFormatError(String::from_str("Wrong structure."))),
            );
        }
        let i = match self.find_active(id.as_str()) {
            Some(i) => i,
            None => {
                let inner = LocalError::DataNotFoundError(String::from_str("No result."));
                let im = inner.message();
                let msg = String::from_str("Get policy failed: ").concat(im.as_str()).concat(".");
                return Err(ApiError::new(LocalError::ConnectionError(msg)));
            },
        };
        let old_c = self.active[i].content.deep_clone();
        let ghost gold_c = s0.active[i as int].content;
        let chain = chain_json(&old_c, &id);
        let empty = is_empty_json(&any);
        let base: Json = if empty {
            old_c.deep_clone()
        } else {
            any
        };
        let base_is_obj = match &base {
            Json::Obj(_) => true,
            _ => false,
        };
        let base_is_null = match &base {
            Json::Null => true,
            _ => false,
        };
        let ghost gbase = base@;
        let data: Json = if base_is_obj {
            base.set("previousObjectIds", chain)
        } else if base_is_null {
            let fields = vec![(String::from_str("previousObjectIds"), chain)];
            proof {
                crate::json::lemma_jv_fields_len(fields@);
                crate::json::lemma_jv_fields_index(fields@, 0);
                assert(crate::json::jv_fields(fields@) =~= with_chain(gbase, gid, gold_c)->Obj_0);
            }
            Json::Obj(fields)
        } else {
            base
        };
        proof {
            assert(data@ == with_chain(gbase, gid, gold_c));
        }
        let created = self.create_any_at(data, now);
        match created {
            Err(e) => {
                let em = e.message();
                let msg = String::from_str("Create policy failed : ").concat(em.as_str()).concat(
                    ".",
                );
                return Err(ApiError::new(LocalError::ConnectionError(msg)));
            },
            Ok(p) => {
                let ghost smid = self@;
                self.history.push(old_c);
                self.active.remove(i);
                proof {
                    let target = spec_update(s0, ganyv, gid, now).0;
                    assert(self@.active =~= smid.active.remove(i as int));
                    assert(self@.history =~= s0.history.push(gold_c));
                    assert(self@.deleted =~= s0.deleted);
                    assert(self@ =~= target);
                    lemma_wf_remove(smid, self@, i as int);
                }
                Ok(p)
            },
        }
    }

    /// Updates the record with the given identifier, stamping the new
    /// version's integration date with the current time.
    pub fn update_any(&mut self, any: Json, id: String) -> (r: Result<Policy, ApiError>)
        requires
            wf_store(old(self)@),
            old(self)@.next < u64::MAX,
        ensures
            wf_store(final(self)@),
            exists|t: i64|
                {
                    &&& final(self)@ == (#[trigger] spec_update(old(self)@, any@, id@, t)).0
                    &&& match r {
                        Ok(p) => spec_update(old(self)@, any@, id@, t).1 matches Ok(nid) && p.id
                            is None && p.content@ == JsonV::Str(nid),
                        Err(e) => spec_update(old(self)@, any@, id@, t).1 == Err::<
                            Seq<char>,
                            ApiErrorV,
                        >(e@),
                    }
                },
    {
        let now = now_millis();
        let ghost gid = id@;
        let r = self.update_any_at(any, id, now);
        proof {
            assert(spec_update(old(self)@, any@, gid, now) == spec_update(
                old(self)@,
                any@,
                gid,
                now,
            ));
        }
        r
    }

    /// Moves the record with the given identifier to the deleted partition.
    pub fn delete_any(&mut self, id: &String) -> (r: Result<crate::models::DeleteResult, ApiError>)
        ensures
            final(self)@ == spec_delete(old(self)@, id@).0,
            wf_store(old(self)@) ==> wf_store(final(self)@),
            match r {
                Ok(d) => spec_delete(old(self)@, id@).1 == Ok::<int, ApiErrorV>(
                    d.deleted_count as int,
                ) && d.deleted_count == 1,
                Err(e) => spec_delete(old(self)@, id@).1 == Err::<int, ApiErrorV>(e@),
            },
    {
        let ghost s0 = self@;
        if !oid_valid(id.as_str()) {
            return Err(
                ApiError::new(LocalError::OidFormatError(String::from_str("Wrong structure."))),
            );
        }
        match self.find_active(id.as_str()) {
            None => Err(
                ApiError::new(LocalError::DataNotFoundError(String::from_str("No result."))),
            ),
            Some(i) => {
                let content = self.active[i].content.deep_clone();
                self.deleted.push(content);
                self.active.remove(i);
                proof {
                    let target = spec_delete(s0, id@).0;
                    assert(self@.active =~= target.active);
                    assert(self@.history =~= target.history);
                    assert(self@.deleted =~= target.deleted);
                    assert(self@ =~= target);
                    if wf_store(s0) {
                        lemma_wf_remove(s0, self@, i as int);
                    }
                }
                Ok(crate::models::DeleteResult { deleted_count: 1 })
            },
        }
    }

    /// Builds the filter a listing or count uses from its optional
    /// arguments; the date filter takes precedence.
    fn choose_filter(
        filter_date: Option<String>,
        filter_policyholder: Option<String>,
    ) -> (r: Result<crate::filter::Filter, ApiError>)
        ensures
            match r {
                Ok(f) => spec_filter_choice(opt_view(filter_date), opt_view(filter_policyholder))
                    == Ok::<crate::filter::FilterV, ApiErrorV>(f@),
                Err(e) => spec_filter_choice(opt_view(filter_date), opt_view(filter_policyholder))
                    == Err::<crate::filter::FilterV, ApiErrorV>(e@),
            },
    {
        match filter_date {
            Some(d) => {
                let ghost gd = d@;
                let rq_fields = vec![(String::from_str("requestdate"), Json::Str(d))];
                proof {
                    crate::json::lemma_jv_fields_len(rq_fields@);
                    crate::json::lemma_jv_fields_index(rq_fields@, 0);
                    assert(crate::json::jv_fields(rq_fields@) =~= seq![
                        ("requestdate"@, JsonV::Str(gd)),
                    ]);
                }
                crate::filter::create_date_filter(Json::Obj(rq_fields))
            },
            None => match filter_policyholder {
                Some(p) => {
                    let ghost gp = p@;
                    let rq_fields = vec![(String::from_str("policy.name"), Json::Str(p))];
                    proof {
                        crate::json::lemma_jv_fields_len(rq_fields@);
                        crate::json::lemma_jv_fields_index(rq_fields@, 0);
                        assert(crate::json::jv_fields(rq_fields@) =~= seq![
                            ("policy.name"@, JsonV::Str(gp)),
                        ]);
                    }
                    crate::filter::create_string_filter(Json::Obj(rq_fields))
                },
                None => Err(
                    ApiError::new(LocalError::ParsingError(String::from_str("No filter defined."))),
                ),
            },
        }
    }

    /// Lists the active documents matching the date or policyholder filter,
    /// paginated 1-based and with the fixed exclusion set projected away.
    /// Exactly one of the two filters must be supplied; the date filter
    /// takes precedence.
    #[verifier::loop_isolation(false)]
    pub fn get_all_any(
        &self,
        filter_date: Option<String>,
        filter_policyholder: Option<String>,
        pagination: (i64, i64),
    ) -> (r: Result<Vec<Policy>, ApiError>)
        ensures
            match r {
                Ok(list) => spec_list(
                    self@,
                    opt_view(filter_date),
                    opt_view(filter_policyholder),
                    pagination.0,
                    pagination.1,
                ) matches Ok(l) && list@.len() == l.len() && (forall|k: int|
                    0 <= k < l.len() ==> (#[trigger] list@[k]).id is None && list@[k].content@
                        == l[k]),
                Err(e) => spec_list(
                    self@,
                    opt_view(filter_date),
                    opt_view(filter_policyholder),
                    pagination.0,
                    pagination.1,
                ) == Err::<Seq<JsonV>, ApiErrorV>(e@),
            },
    {
        let f = match Self::choose_filter(filter_date, filter_policyholder) {
            Ok(f) => f,
            Err(e) => {
                return Err(e);
            },
        };
        let (page, limit) = pagination;
        let desc = match crate::filter::head_filter(page, limit) {
            Ok(d) => d,
            Err(e) => {
                return Err(e);
            },
        };
        let skip: u64 = desc.skip;
        let lim: u64 = if limit < 0 {
            0
        } else {
            limit as u64
        };
        let ghost all = contents(self@.active);
        let ghost gf = f@;
        let mut out: Vec<Policy> = Vec::new();
        let mut skipped: u64 = 0;
        let mut i: usize = 0;
        proof {
            assert(all.take(0) =~= Seq::<JsonV>::empty());
            assert(page_window(matching(all.take(0), gf), skip as int, limit) =~= Seq::<
                JsonV,
            >::empty());
        }
        while i < self.active.len()
            invariant
                0 <= i <= self.active@.len(),
                skipped as int == vstd::math::min(
                    skip as int,
                    matching(all.take(i as int), gf).len() as int,
                ),
                out@.len() == page_window(matching(all.take(i as int), gf), skip as int, limit).len(),
                forall|k: int|
                    0 <= k < out@.len() ==> (#[trigger] out@[k]).id is None && out@[k].content@
                        == crate::filter::project(
                        page_window(matching(all.take(i as int), gf), skip as int, limit)[k],
                    ),
            decreases self.active@.len() - i,
        {
            let ghost mt = matching(all.take(i as int), gf);
            let ghost mt1 = matching(all.take(i as int + 1), gf);
            proof {
                lemma_matching_len(all.take(i as int), gf);
                assert(all.take(i as int + 1).drop_last() =~= all.take(i as int));
                assert(all.take(i as int + 1).last() == all[i as int]);
                assert(all[i as int] == self@.active[i as int].content);
            }
            if f.matches(&self.active[i].content) {
                if skipped < skip {
                    skipped = skipped + 1;
                    proof {
                        assert(mt1 == mt.push(all[i as int]));
                        assert(mt.len() == skipped - 1 && mt1.len() == skipped);
                        assert(page_window(mt1, skip as int, limit) =~= Seq::<JsonV>::empty());
                        assert(page_window(mt, skip as int, limit) =~= Seq::<JsonV>::empty());
                    }
                } else if (out.len() as u64) < lim {
                    let content = crate::filter::project_exec(
                        self.active[i].content.deep_clone(),
                    );
                    proof {
                        assert(mt1 == mt.push(all[i as int]));
                        assert(page_window(mt1, skip as int, limit) =~= page_window(
                            mt,
                            skip as int,
                            limit,
                        ).push(all[i as int]));
                    }
                    out.push(Policy { id: None, content });
                } else {
                    proof {
                        assert(mt1 == mt.push(all[i as int]));
                        assert(page_window(mt1, skip as int, limit) =~= page_window(
                            mt,
                            skip as int,
                            limit,
                        ));
                    }
                }
            } else {
                proof {
                    assert(mt1 == mt);
                }
            }
            i = i + 1;
        }
        proof {
            assert(all.take(self.active@.len() as int) =~= all);
            let l = spec_list(
                self@,
                opt_view(filter_date),
                opt_view(filter_policyholder),
                page,
                limit,
            )->Ok_0;
            assert(l =~= page_window(matching(all, gf), skip as int, limit).map_values(
                |v: JsonV| crate::filter::project(v),
            ));
        }
        Ok(out)
    }

    /// Counts the active documents matching the date or policyholder
    /// filter. Exactly one of the two filters must be supplied; the date
    /// filter takes precedence.
    #[verifier::loop_isolation(false)]
    pub fn count_all_any(
        &self,
        filter_date: Option<String>,
        filter_policyholder: Option<String>,
    ) -> (r: Result<u64, ApiError>)
        ensures
            match r {
                Ok(c) => spec_count(self@, opt_view(filter_date), opt_view(filter_policyholder))
                    == Ok::<int, ApiErrorV>(c as int),
                Err(e) => spec_count(self@, opt_view(filter_date), opt_view(filter_policyholder))
                    == Err::<int, ApiErrorV>(e@),
            },
    {
        let f = match Self::choose_filter(filter_date, filter_policyholder) {
            Ok(f) => f,
            Err(e) => {
                return Err(e);
            },
        };
        let ghost all = contents(self@.active);
        let ghost gf = f@;
        let mut count: u64 = 0;
        let mut i: usize = 0;
        proof {
            assert(all.take(0) =~= Seq::<JsonV>::empty());
        }
        while i < self.active.len()
            invariant
                0 <= i <= self.active@.len(),
                count as int == matching(all.take(i as int), gf).len(),
            decreases self.active@.len() - i,
        {
            proof {
                lemma_matching_len(all.take(i as int), gf);
                assert(all.take(i as int + 1).drop_last() =~= all.take(i as int));
                assert(all.take(i as int + 1).last() == all[i as int]);
                assert(all[i as int] == self@.active[i as int].content);
            }
            if f.matches(&self.active[i].content) {
                count = count + 1;
            }
            i = i + 1;
        }
        proof {
            assert(all.take(self.active@.len() as int) =~= all);
        }
        Ok(count)
    }

    /// Creates a document from the given content, stamping the integration
    /// date with the current time.
    pub fn create_any(&mut self, any: Json) -> (r: Result<Policy, ApiError>)
        requires
            wf_store(old(self)@),
            old(self)@.next < u64::MAX,
        ensures
            wf_store(final(self)@),
            exists|t: i64|
                {
                    &&& final(self)@ == (#[trigger] spec_create(old(self)@, any@, t)).0
                    &&& match r {
                        Ok(p) => spec_create(old(self)@, any@, t).1 matches Ok(nid) && p.id
                            is None && p.content@ == JsonV::Str(nid),
                        Err(e) => spec_create(old(self)@, any@, t).1 == Err::<
                            Seq<char>,
                            ApiErrorV,
                        >(e@),
                    }
                },
    {
        let now = now_millis();
        let r = self.create_any_at(any, now);
        proof {
            assert(spec_create(old(self)@, any@, now) == spec_create(old(self)@, any@, now));
        }
        r
    }
}

} // verus!
