//! The lifecycle laws of the store, proved once and for all over its
//! mathematical model.

use vstd::prelude::*;

use crate::error::{api_error, ApiErrorV, LocalErrorV};
use crate::filter::{date_of, project, spec_skip};
use crate::json::{lemma_lookup_set, lookup, JsonV};
use crate::oid::{is_oid, lemma_oid_of_injective, lemma_oid_of_valid, oid_of};
use crate::store::{
    active_index, chain_of, contents, is_empty_content, lemma_active_index, lemma_active_index_at,
    lemma_fresh_id, lemma_str_items_of_str_jsons, matching, spec_count, spec_create, spec_delete,
    spec_filter_choice, spec_get, spec_list, spec_update, stamp, str_jsons, wf_store, with_chain,
    DocV, StoreV,
};

verus! {

/// The four derived date fields a create stamps onto a record.
pub open spec fn is_stamped_key(key: Seq<char>) -> bool {
    key == "requestDate"@ || key == "policyStartDate"@ || key == "policyEndDate"@ || key
        == "integrationDate"@
}

/// Stamping only touches the four derived date fields.
pub proof fn lemma_stamp_other_fields(v: JsonV, rd: i64, sd: i64, ed: i64, now: i64, q: Seq<char>)
    requires
        v is Obj,
        !is_stamped_key(q),
    ensures
        lookup(stamp(v, rd, sd, ed, now), q) == lookup(v, q),
{
    let v1 = crate::json::set_field(v, "requestDate"@, JsonV::Date(rd as int));
    let v2 = crate::json::set_field(v1, "policyStartDate"@, JsonV::Date(sd as int));
    let v3 = crate::json::set_field(v2, "policyEndDate"@, JsonV::Date(ed as int));
    lemma_lookup_set(v, "requestDate"@, JsonV::Date(rd as int), q);
    lemma_lookup_set(v1, "policyStartDate"@, JsonV::Date(sd as int), q);
    lemma_lookup_set(v2, "policyEndDate"@, JsonV::Date(ed as int), q);
    lemma_lookup_set(v3, "integrationDate"@, JsonV::Date(now as int), q);
}

/// Round trip: a create with valid context dates succeeds, and reading the
/// new identifier back returns the given content stamped with its derived
/// date fields; every field other than the four stamped ones is as given.
pub proof fn lemma_create_round_trip(s: StoreV, any: JsonV, now: i64)
    requires
        wf_store(s),
        any is Obj,
        date_of(any, "context"@, "requestDate"@) is Some,
        date_of(any, "context"@, "policyStartDate"@) is Some,
        date_of(any, "context"@, "policyEndDate"@) is Some,
    ensures
        spec_create(s, any, now).1 is Ok,
        spec_get(spec_create(s, any, now).0, spec_create(s, any, now).1->Ok_0) == Ok::<
            JsonV,
            ApiErrorV,
        >(
            stamp(
                any,
                date_of(any, "context"@, "requestDate"@)->0,
                date_of(any, "context"@, "policyStartDate"@)->0,
                date_of(any, "context"@, "policyEndDate"@)->0,
                now,
            ),
        ),
        forall|q: Seq<char>|
            !is_stamped_key(q) ==> lookup(#[trigger] spec_get(
                spec_create(s, any, now).0,
                spec_create(s, any, now).1->Ok_0,
            )->Ok_0, q) == lookup(any, q),
{
    let rd = date_of(any, "context"@, "requestDate"@)->0;
    let sd = date_of(any, "context"@, "policyStartDate"@)->0;
    let ed = date_of(any, "context"@, "policyEndDate"@)->0;
    let nid = oid_of(s.next);
    let record = stamp(any, rd, sd, ed, now);
    let s1 = spec_create(s, any, now).0;
    lemma_oid_of_valid(s.next);
    lemma_fresh_id(s);
    lemma_active_index_at(s1.active, nid, s.active.len() as int);
    assert(spec_get(s1, nid) == Ok::<JsonV, ApiErrorV>(record));
    assert forall|q: Seq<char>| !is_stamped_key(q) implies lookup(
        #[trigger] spec_get(s1, spec_create(s, any, now).1->Ok_0)->Ok_0,
        q,
    ) == lookup(any, q) by {
        lemma_stamp_other_fields(any, rd, sd, ed, now, q);
    }
}

/// Chain growth: after a successful update, reading the new identifier back
/// succeeds, and the new document's `previousObjectIds` is the superseded
/// identifier followed by the chain the superseded content carried: one
/// entry longer, its first element the superseded identifier.
pub proof fn lemma_update_chain_growth(s: StoreV, any: JsonV, id: Seq<char>, now: i64)
    requires
        wf_store(s),
        spec_update(s, any, id, now).1 is Ok,
    ensures
        spec_get(spec_update(s, any, id, now).0, spec_update(s, any, id, now).1->Ok_0) is Ok,
        chain_of(
            spec_get(spec_update(s, any, id, now).0, spec_update(s, any, id, now).1->Ok_0)->Ok_0,
        ) == seq![id] + chain_of(s.active[active_index(s.active, id)->0].content),
        chain_of(
            spec_get(spec_update(s, any, id, now).0, spec_update(s, any, id, now).1->Ok_0)->Ok_0,
        ).len() == chain_of(s.active[active_index(s.active, id)->0].content).len() + 1,
        chain_of(
            spec_get(spec_update(s, any, id, now).0, spec_update(s, any, id, now).1->Ok_0)->Ok_0,
        )[0] == id,
{
    lemma_active_index(s.active, id);
    let i = active_index(s.active, id)->0;
    let old_c = s.active[i].content;
    let base = if is_empty_content(any) {
        old_c
    } else {
        any
    };
    let data = with_chain(base, id, old_c);
    let created = spec_create(s, data, now);
    let nid = created.1->Ok_0;
    let s2 = spec_update(s, any, id, now).0;
    assert(data is Obj);
    let rd = date_of(data, "context"@, "requestDate"@)->0;
    let sd = date_of(data, "context"@, "policyStartDate"@)->0;
    let ed = date_of(data, "context"@, "policyEndDate"@)->0;
    let record = stamp(data, rd, sd, ed, now);
    lemma_oid_of_valid(s.next);
    lemma_fresh_id(s);
    assert(nid == oid_of(s.next));
    assert(s2.active.len() == s.active.len());
    assert(s2.active[s.active.len() - 1] == DocV { id: nid, content: record });
    assert forall|k: int| 0 <= k < s.active.len() - 1 implies (#[trigger] s2.active[k]).id
        != nid by {
        if k < i {
            assert(s2.active[k] == s.active[k]);
        } else {
            assert(s2.active[k] == s.active[k + 1]);
        }
    }
    lemma_active_index_at(s2.active, nid, s.active.len() - 1 as int);
    assert(spec_get(s2, nid) == Ok::<JsonV, ApiErrorV>(record));
    let chain = JsonV::Arr(str_jsons(seq![id] + chain_of(old_c)));
    assert(lookup(data, "previousObjectIds"@) == Some(chain)) by {
        if base is Obj {
            lemma_lookup_set(base, "previousObjectIds"@, chain, "previousObjectIds"@);
        } else {
            crate::json::lemma_first_key_index_at(
                seq![("previousObjectIds"@, chain)],
                "previousObjectIds"@,
                0,
            );
        }
    }
    assert(lookup(record, "previousObjectIds"@) == Some(chain)) by {
        reveal_strlit("previousObjectIds");
        reveal_strlit("requestDate");
        reveal_strlit("policyStartDate");
        reveal_strlit("policyEndDate");
        reveal_strlit("integrationDate");
        assert("previousObjectIds"@.len() == 17);
        assert("requestDate"@.len() == 11);
        assert("policyStartDate"@.len() == 15);
        assert("policyEndDate"@.len() == 13);
        assert("integrationDate"@.len() == 15);
        assert(!is_stamped_key("previousObjectIds"@));
        lemma_stamp_other_fields(data, rd, sd, ed, now, "previousObjectIds"@);
    }
    lemma_str_items_of_str_jsons(seq![id] + chain_of(old_c));
    assert(chain_of(record) == seq![id] + chain_of(old_c));
    assert(chain_of(record)[0] == id);
}

/// Archival exclusivity: after a successful delete the identifier no longer
/// resolves, and the last archived copy equals the pre-delete content.
pub proof fn lemma_delete_archival(s: StoreV, id: Seq<char>)
    requires
        wf_store(s),
        spec_delete(s, id).1 is Ok,
    ensures
        spec_get(spec_delete(s, id).0, id) == Err::<JsonV, ApiErrorV>(
            api_error(LocalErrorV::DataNotFoundError("No result."@)),
        ),
        spec_delete(s, id).0.deleted == s.deleted.push(
            s.active[active_index(s.active, id)->0].content,
        ),
        spec_delete(s, id).0.history == s.history,
{
    lemma_active_index(s.active, id);
    let i = active_index(s.active, id)->0;
    let s1 = spec_delete(s, id).0;
    assert forall|k: int| 0 <= k < s1.active.len() implies (#[trigger] s1.active[k]).id != id by {
        if k < i {
            assert(s1.active[k] == s.active[k]);
        } else {
            assert(s1.active[k] == s.active[k + 1]);
        }
    }
    lemma_active_index_at(s1.active, id, s1.active.len() as int);
}

/// History is append-only across updates: a successful update appends
/// exactly the superseded content to history, the superseded identifier
/// leaves the active partition, and the deleted partition is untouched.
pub proof fn lemma_update_history(s: StoreV, any: JsonV, id: Seq<char>, now: i64)
    requires
        wf_store(s),
        spec_update(s, any, id, now).1 is Ok,
    ensures
        spec_update(s, any, id, now).0.history == s.history.push(
            s.active[active_index(s.active, id)->0].content,
        ),
        active_index(spec_update(s, any, id, now).0.active, id) is None,
        spec_update(s, any, id, now).0.deleted == s.deleted,
{
    lemma_active_index(s.active, id);
    let i = active_index(s.active, id)->0;
    let s2 = spec_update(s, any, id, now).0;
    lemma_fresh_id(s);
    assert forall|k: int| 0 <= k < s2.active.len() implies (#[trigger] s2.active[k]).id != id by {
        if k < s.active.len() - 1 {
            if k < i {
                assert(s2.active[k] == s.active[k]);
            } else {
                assert(s2.active[k] == s.active[k + 1]);
            }
        } else {
            assert(s2.active[k].id == oid_of(s.next));
            let n = choose|n: u64| n < s.next && s.active[i].id == oid_of(n);
            if id == oid_of(s.next) {
                lemma_oid_of_injective(n, s.next);
            }
        }
    }
    lemma_active_index_at(s2.active, id, s2.active.len() as int);
}

/// Filter exclusivity: a listing or count with neither filter is rejected
/// with a parsing error; with both filters present, the date filter takes
/// precedence.
pub proof fn lemma_filter_exclusivity(s: StoreV, d: Seq<char>, p: Seq<char>, page: i64, limit: i64)
    ensures
        spec_list(s, None, None, page, limit) == Err::<Seq<JsonV>, ApiErrorV>(
            api_error(LocalErrorV::ParsingError("No filter defined."@)),
        ),
        spec_count(s, None, None) == Err::<int, ApiErrorV>(
            api_error(LocalErrorV::ParsingError("No filter defined."@)),
        ),
        spec_list(s, Some(d), Some(p), page, limit) == spec_list(s, Some(d), None, page, limit),
        spec_count(s, Some(d), Some(p)) == spec_count(s, Some(d), None),
{
}

/// Pagination: page `page` of size `limit` passes over the first
/// `(page - 1) * limit` matches of the underlying predicate and returns the
/// following matches, at most `limit` of them, projected.
pub proof fn lemma_pagination(
    s: StoreV,
    fd: Option<Seq<char>>,
    fp: Option<Seq<char>>,
    page: i64,
    limit: i64,
)
    requires
        page >= 1,
        limit >= 0,
        (page - 1) * limit <= u64::MAX,
        spec_list(s, fd, fp, page, limit) is Ok,
    ensures
        spec_skip(page, limit) == (page - 1) * limit,
        ({
            let m = matching(contents(s.active), spec_filter_choice(fd, fp)->Ok_0);
            let sk = (page - 1) * limit;
            let l = spec_list(s, fd, fp, page, limit)->Ok_0;
            &&& l.len() == (if sk >= m.len() {
                0int
            } else if m.len() - sk < limit {
                m.len() - sk
            } else {
                limit as int
            })
            &&& forall|k: int| 0 <= k < l.len() ==> #[trigger] l[k] == project(m[sk + k])
        }),
{
}

} // verus!
