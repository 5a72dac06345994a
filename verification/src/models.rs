use vstd::prelude::*;

use crate::database::{
    ctrl_frame, distinct_ids, get_connection, release_connection, Database, IndexSpec,
    IndexSpecView,
};
use crate::aggregate::{eval_pipeline, group_exec, DecodeRecord, Pipeline, Stage, StageView};
use crate::cursor::ModelCursor;
use crate::errors::Error;
use crate::query::{
    apply_update, apply_update_exec, changed_count, count_matching, eval_filter, filter_matches,
    find_first_match, first_match_index, first_matching, has_match, lemma_apply_update_keeps_id,
    lemma_matching_push, matching, not_matching, updated_all, Filter, FilterView, Update,
    UpdateOpView,
};
use crate::record::{clone_record, record_eq, Record, RecordView};

verus! {

/// `None` when an operation can lease a connection from the pool;
/// otherwise the error the operation owes: `NotInitialized` before any
/// successful setup, `Connection` on an exhausted pool.
pub open spec fn lease_blocked(db: Database) -> Option<Error> {
    if !db.initialized() {
        Some(Error::NotInitialized)
    } else if db.leased() >= db.pool_size() {
        Some(Error::Connection)
    } else {
        None
    }
}

/// The operation left every observable aspect of the handle as it was.
pub open spec fn db_unchanged(pre: Database, post: Database) -> bool {
    &&& ctrl_frame(pre, post)
    &&& forall|c: u64| post.records_of(c) == pre.records_of(c)
    &&& forall|c: u64| post.indexes_of(c) == pre.indexes_of(c)
}

/// The operation changed at most the records of collection `cid`.
pub open spec fn db_changed_only(pre: Database, post: Database, cid: u64) -> bool {
    &&& ctrl_frame(pre, post)
    &&& forall|c: u64| c != cid ==> post.records_of(c) == pre.records_of(c)
    &&& forall|c: u64| post.indexes_of(c) == pre.indexes_of(c)
}

/// Match and modification counts of an update operation.
#[derive(Clone, Copy, Debug, PartialEq, Eq, Structural)]
pub struct UpdateResult {
    pub matched_count: u64,
    pub modified_count: u64,
}

/// The count a delete operation reports.
#[derive(Clone, Copy, Debug, PartialEq, Eq, Structural)]
pub struct DeleteResult {
    pub deleted_count: u64,
}

/// Filtering keeps identifiers distinct.
proof fn lemma_filter_distinct(s: Seq<RecordView>, p: spec_fn(RecordView) -> bool)
    requires
        distinct_ids(s),
    ensures
        distinct_ids(s.filter(p)),
    decreases s.len(),
{
    reveal(Seq::filter);
    if s.len() > 0 {
        let pre = s.drop_last();
        assert(distinct_ids(pre)) by {
            assert forall|i: int, j: int| 0 <= i < j < pre.len() implies pre[i].id != pre[j].id by {
                assert(pre[i] == s[i] && pre[j] == s[j]);
            }
        }
        lemma_filter_distinct(pre, p);
        if p(s.last()) {
            assert forall|k: int| 0 <= k < pre.filter(p).len() implies pre.filter(p)[k].id
                != s.last().id by {
                assert(pre.filter(p).contains(pre.filter(p)[k]));
                pre.lemma_filter_contains_rev(p, pre.filter(p)[k]);
                let w = choose|w: int| 0 <= w < pre.len() && pre[w] == pre.filter(p)[k];
                assert(s[w].id != s[s.len() - 1].id);
            }
            assert(distinct_ids(pre.filter(p).push(s.last())));
        }
    }
}

/// Removing one record keeps identifiers distinct.
proof fn lemma_remove_distinct(s: Seq<RecordView>, i: int)
    requires
        distinct_ids(s),
        0 <= i < s.len(),
    ensures
        distinct_ids(s.remove(i)),
{
    assert forall|a: int, b: int| 0 <= a < b < s.remove(i).len() implies s.remove(i)[a].id
        != s.remove(i)[b].id by {
        let sa: int = if a < i { a } else { a + 1 };
        let sb: int = if b < i { b } else { b + 1 };
        assert(s.remove(i)[a] == s[sa] && s.remove(i)[b] == s[sb]);
        assert(s[sa].id != s[sb].id);
    }
}

/// Splits a collection's records on a filter: the matches and the rest,
/// both in their original order, as copies.
fn partition_matching(recs: &Vec<Record>, f: &Filter) -> (out: (Vec<Record>, Vec<Record>))
    ensures
        out.0.deep_view() == matching(recs.deep_view(), f@),
        out.1.deep_view() == not_matching(recs.deep_view(), f@),
{
    let ghost s = recs.deep_view();
    let mut yes: Vec<Record> = Vec::new();
    let mut no: Vec<Record> = Vec::new();
    let n = recs.len();
    let mut i: usize = 0;
    while i < n
        invariant
            n == recs.len(),
            i <= n,
            s == recs.deep_view(),
            yes.deep_view() == matching(s.take(i as int), f@),
            no.deep_view() == not_matching(s.take(i as int), f@),
        decreases n - i,
    {
        proof {
            lemma_matching_push(s.take(i as int), f@, s[i as int]);
            assert(s.take(i as int).push(s[i as int]) =~= s.take(i + 1));
        }
        if eval_filter(f, &recs[i]) {
            yes.push(clone_record(&recs[i]));
            proof {
                assert(yes.deep_view() =~= matching(s.take(i + 1), f@));
            }
        } else {
            no.push(clone_record(&recs[i]));
            proof {
                assert(no.deep_view() =~= not_matching(s.take(i + 1), f@));
            }
        }
        i = i + 1;
    }
    proof {
        assert(s.take(n as int) =~= s);
    }
    (yes, no)
}

/// Copies a record sequence; the copy reads the same.
fn clone_records(recs: &Vec<Record>) -> (out: Vec<Record>)
    ensures
        out.deep_view() == recs.deep_view(),
{
    let n = recs.len();
    let mut out: Vec<Record> = Vec::new();
    let mut i: usize = 0;
    while i < n
        invariant
            n == recs.len(),
            i <= n,
            out.len() == i,
            forall|j: int| 0 <= j < i ==> out@[j]@ == recs@[j]@,
        decreases n - i,
    {
        out.push(clone_record(&recs[i]));
        i = i + 1;
    }
    proof {
        assert(out.deep_view() =~= recs.deep_view());
    }
    out
}

/// Deleting the matches removes exactly them: no survivor still matches,
/// so the count before the deletion, minus the count after, equals the
/// number of records the deletion reports.
pub proof fn lemma_delete_many_accounting(s: Seq<RecordView>, f: FilterView)
    ensures
        count_matching(not_matching(s, f), f) == 0,
        count_matching(s, f) - count_matching(not_matching(s, f), f) == count_matching(s, f),
    decreases s.len(),
{
    crate::query::lemma_matching_empty(f);
    if s.len() > 0 {
        let dl = s.drop_last();
        lemma_delete_many_accounting(dl, f);
        lemma_matching_push(dl, f, s.last());
        assert(dl.push(s.last()) =~= s);
        if !filter_matches(f, s.last()) {
            lemma_matching_push(not_matching(dl, f), f, s.last());
        }
    }
}

/// Updating in place keeps identifiers distinct: an update never changes
/// a record's identifier.
proof fn lemma_update_at_distinct(s: Seq<RecordView>, i: int, ops: Seq<UpdateOpView>)
    requires
        distinct_ids(s),
        0 <= i < s.len(),
    ensures
        distinct_ids(s.update(i, apply_update(s[i], ops))),
{
    lemma_apply_update_keeps_id(s[i], ops);
    let t = s.update(i, apply_update(s[i], ops));
    assert forall|a: int, b: int| 0 <= a < b < t.len() implies t[a].id != t[b].id by {
        assert(t[a].id == s[a].id && t[b].id == s[b].id);
    }
}

/// Applies the update to the first matching record in place; hands back a
/// copy of the updated record and whether the update changed it.
fn update_first(recs: &mut Vec<Record>, f: &Filter, u: &Update) -> (out: Option<(Record, bool)>)
    ensures
        match out {
            None => first_match_index(old(recs).deep_view(), f@) == -1 && first_matching(
                old(recs).deep_view(),
                f@,
            ) is None && final(recs).deep_view() == old(recs).deep_view(),
            Some(p) => {
                let s = old(recs).deep_view();
                let idx = first_match_index(s, f@);
                &&& 0 <= idx < s.len()
                &&& first_matching(s, f@) == Some(s[idx])
                &&& p.0@ == apply_update(s[idx], u@)
                &&& p.1 == (apply_update(s[idx], u@) != s[idx])
                &&& final(recs).deep_view() == s.update(idx, apply_update(s[idx], u@))
            },
        },
        distinct_ids(old(recs).deep_view()) ==> distinct_ids(final(recs).deep_view()),
{
    let ghost s = recs.deep_view();
    match find_first_match(recs, f) {
        Some(i) => {
            let newr = apply_update_exec(&recs[i], u);
            let changed = !record_eq(&recs[i], &newr);
            let out = clone_record(&newr);
            recs.remove(i);
            recs.insert(i, newr);
            proof {
                assert(recs.deep_view() =~= s.update(i as int, apply_update(s[i as int], u@)));
                if distinct_ids(s) {
                    lemma_update_at_distinct(s, i as int, u@);
                }
            }
            Some((out, changed))
        },
        None => None,
    }
}

/// The changed-record count commutes with appending one record.
proof fn lemma_changed_count_push(
    s: Seq<RecordView>,
    f: FilterView,
    ops: Seq<UpdateOpView>,
    r: RecordView,
)
    ensures
        changed_count(s.push(r), f, ops) == changed_count(s, f, ops) + (
        if filter_matches(f, r) && apply_update(r, ops) != r {
            1nat
        } else {
            0nat
        }),
{
    s.lemma_filter_push(r, |x: RecordView| filter_matches(f, x) && apply_update(x, ops) != x);
}

/// Updating all matches commutes with appending one record.
proof fn lemma_updated_all_push(
    s: Seq<RecordView>,
    f: FilterView,
    ops: Seq<UpdateOpView>,
    r: RecordView,
)
    ensures
        updated_all(s.push(r), f, ops) =~= updated_all(s, f, ops).push(
            if filter_matches(f, r) {
                apply_update(r, ops)
            } else {
                r
            },
        ),
{
}

/// Applies the update to every matching record, reporting the match and
/// modification counts; order and positions are kept.
fn apply_all_matches(recs: &Vec<Record>, f: &Filter, u: &Update) -> (out: (
    Vec<Record>,
    UpdateResult,
))
    ensures
        out.0.deep_view() == updated_all(recs.deep_view(), f@, u@),
        out.1.matched_count as nat == count_matching(recs.deep_view(), f@),
        out.1.modified_count as nat == changed_count(recs.deep_view(), f@, u@),
        distinct_ids(recs.deep_view()) ==> distinct_ids(out.0.deep_view()),
{
    let ghost s = recs.deep_view();
    let mut outv: Vec<Record> = Vec::new();
    let mut matched: u64 = 0;
    let mut modified: u64 = 0;
    let n = recs.len();
    let mut i: usize = 0;
    while i < n
        invariant
            n == recs.len(),
            i <= n,
            s == recs.deep_view(),
            outv.deep_view() == updated_all(s.take(i as int), f@, u@),
            matched as nat == count_matching(s.take(i as int), f@),
            modified as nat == changed_count(s.take(i as int), f@, u@),
            matched <= i,
            modified <= matched,
        decreases n - i,
    {
        proof {
            assert(recs.deep_view()[i as int] == recs@[i as int]@);
            lemma_matching_push(s.take(i as int), f@, s[i as int]);
            lemma_changed_count_push(s.take(i as int), f@, u@, s[i as int]);
            lemma_updated_all_push(s.take(i as int), f@, u@, s[i as int]);
            assert(s.take(i as int).push(s[i as int]) =~= s.take(i + 1));
        }
        if eval_filter(f, &recs[i]) {
            let newr = apply_update_exec(&recs[i], u);
            proof {
                assert(newr@ == apply_update(s[i as int], u@));
            }
            if !record_eq(&recs[i], &newr) {
                modified = modified + 1;
            }
            outv.push(newr);
            matched = matched + 1;
        } else {
            outv.push(clone_record(&recs[i]));
        }
        proof {
            assert(outv.deep_view() =~= updated_all(s.take(i + 1), f@, u@));
        }
        i = i + 1;
    }
    proof {
        assert(s.take(n as int) =~= s);
        if distinct_ids(s) {
            assert forall|a: int, b: int|
                0 <= a < b < updated_all(s, f@, u@).len() implies updated_all(s, f@, u@)[a].id
                != updated_all(s, f@, u@)[b].id by {
                lemma_apply_update_keeps_id(s[a], u@);
                lemma_apply_update_keeps_id(s[b], u@);
            }
        }
    }
    (outv, UpdateResult { matched_count: matched, modified_count: modified })
}

/// The generic Model capability. Every entity type implements this once,
/// supplying its collection identifier, its entity-level validation rule
/// and its declared index set; it thereby inherits the uniform operations,
/// each of which leases a connection, delegates to the store, and returns
/// the lease on every exit path.
pub trait ModelExt {
    /// The identifier of the entity's collection.
    spec fn spec_collection() -> u64;

    /// The entity-level constraint a record must meet before a write.
    spec fn spec_valid(r: RecordView) -> bool;

    /// The entity's declared index set.
    spec fn spec_indexes() -> Seq<IndexSpecView>;

    /// The collection identifier, as a value.
    fn collection() -> (c: u64)
        ensures
            c == Self::spec_collection(),
    ;

    /// Decides the entity-level constraint.
    fn validate(r: &Record) -> (b: bool)
        ensures
            b == Self::spec_valid(r@),
    ;

    /// The declared index set, as a value.
    fn indexes() -> (v: Vec<IndexSpec>)
        ensures
            v.deep_view() == Self::spec_indexes(),
    ;

    /// Validates the record, then persists it at the end of the collection.
    /// An invalid record is rejected before any write; a record whose
    /// identifier is already present is a store failure.
    fn create(db: &mut Database, record: Record) -> (res: Result<Record, Error>)
        requires
            old(db).wf(),
        ensures
            final(db).wf(),
            match lease_blocked(*old(db)) {
                Some(e) => res == Err::<Record, Error>(e) && db_unchanged(*old(db), *final(db)),
                None => {
                    let cid = Self::spec_collection();
                    let s = old(db).records_of(cid);
                    &&& !Self::spec_valid(record@) ==> res == Err::<Record, Error>(
                        Error::Validation,
                    ) && db_unchanged(*old(db), *final(db))
                    &&& Self::spec_valid(record@) && has_match(s, FilterView::IdEq(record.id))
                        ==> res == Err::<Record, Error>(Error::Store) && db_unchanged(
                        *old(db),
                        *final(db),
                    )
                    &&& Self::spec_valid(record@) && !has_match(s, FilterView::IdEq(record.id))
                        ==> (res matches Ok(out) && out@ == record@) && final(db).records_of(cid)
                        == s.push(record@) && db_changed_only(*old(db), *final(db), cid)
                },
            },
    {
        let conn = match get_connection(db) {
            Ok(c) => c,
            Err(e) => {
                return Err(e);
            },
        };
        if !Self::validate(&record) {
            release_connection(db, conn);
            return Err(Error::Validation);
        }
        let cid = Self::collection();
        let mut recs = db.take_records(cid);
        let dup = Filter::IdEq(record.id);
        match find_first_match(&recs, &dup) {
            Some(_) => {
                db.put_records(cid, recs);
                release_connection(db, conn);
                Err(Error::Store)
            },
            None => {
                let out = clone_record(&record);
                let ghost s = recs.deep_view();
                let ghost rv = record@;
                recs.push(record);
                proof {
                    assert(recs.deep_view() =~= s.push(rv));
                    assert forall|i: int, j: int|
                        0 <= i < j < s.push(rv).len() implies s.push(rv)[i].id != s.push(
                        rv,
                    )[j].id by {
                        if j < s.len() {
                            assert(s[i].id != s[j].id);
                        } else if s[i].id == rv.id {
                            assert(filter_matches(FilterView::IdEq(rv.id), s[i]));
                            assert(has_match(s, FilterView::IdEq(rv.id)));
                        }
                    }
                    assert(distinct_ids(recs.deep_view()));
                }
                db.put_records(cid, recs);
                release_connection(db, conn);
                Ok(out)
            },
        }
    }

    /// Looks a record up by its identifier. Absence is an empty optional,
    /// never an error.
    fn find_by_id(db: &mut Database, id: u64) -> (res: Result<Option<Record>, Error>)
        requires
            old(db).wf(),
        ensures
            final(db).wf(),
            match lease_blocked(*old(db)) {
                Some(e) => res == Err::<Option<Record>, Error>(e) && db_unchanged(
                    *old(db),
                    *final(db),
                ),
                None => db_unchanged(*old(db), *final(db)) && match res {
                    Ok(o) => match o {
                        Some(r) => first_matching(
                            old(db).records_of(Self::spec_collection()),
                            FilterView::IdEq(id),
                        ) == Some(r@),
                        None => first_matching(
                            old(db).records_of(Self::spec_collection()),
                            FilterView::IdEq(id),
                        ) is None,
                    },
                    Err(_) => false,
                },
            },
    {
        let f = Filter::IdEq(id);
        Self::find_one(db, &f)
    }

    /// The first record satisfying the filter, in the store's natural
    /// (insertion) order; an empty optional when nothing matches.
    fn find_one(db: &mut Database, filter: &Filter) -> (res: Result<Option<Record>, Error>)
        requires
            old(db).wf(),
        ensures
            final(db).wf(),
            match lease_blocked(*old(db)) {
                Some(e) => res == Err::<Option<Record>, Error>(e) && db_unchanged(
                    *old(db),
                    *final(db),
                ),
                None => db_unchanged(*old(db), *final(db)) && match res {
                    Ok(o) => match o {
                        Some(r) => first_matching(
                            old(db).records_of(Self::spec_collection()),
                            filter@,
                        ) == Some(r@),
                        None => first_matching(
                            old(db).records_of(Self::spec_collection()),
                            filter@,
                        ) is None,
                    },
                    Err(_) => false,
                },
            },
    {
        let conn = match get_connection(db) {
            Ok(c) => c,
            Err(e) => {
                return Err(e);
            },
        };
        let cid = Self::collection();
        let recs = db.take_records(cid);
        let out = match find_first_match(&recs, filter) {
            Some(i) => Some(clone_record(&recs[i])),
            None => None,
        };
        db.put_records(cid, recs);
        release_connection(db, conn);
        Ok(out)
    }

    /// Every record satisfying the filter, in order, collected eagerly.
    fn find(db: &mut Database, filter: &Filter) -> (res: Result<Vec<Record>, Error>)
        requires
            old(db).wf(),
        ensures
            final(db).wf(),
            match lease_blocked(*old(db)) {
                Some(e) => res == Err::<Vec<Record>, Error>(e) && db_unchanged(
                    *old(db),
                    *final(db),
                ),
                None => db_unchanged(*old(db), *final(db)) && (res matches Ok(v)
                    && v.deep_view() == matching(
                    old(db).records_of(Self::spec_collection()),
                    filter@,
                )),
            },
    {
        let conn = match get_connection(db) {
            Ok(c) => c,
            Err(e) => {
                return Err(e);
            },
        };
        let cid = Self::collection();
        let recs = db.take_records(cid);
        let (matched, _rest) = partition_matching(&recs, filter);
        db.put_records(cid, recs);
        release_connection(db, conn);
        Ok(matched)
    }

    /// How many records satisfy the filter.
    fn count(db: &mut Database, filter: &Filter) -> (res: Result<u64, Error>)
        requires
            old(db).wf(),
        ensures
            final(db).wf(),
            match lease_blocked(*old(db)) {
                Some(e) => res == Err::<u64, Error>(e) && db_unchanged(*old(db), *final(db)),
                None => db_unchanged(*old(db), *final(db)) && (res matches Ok(c) && c as nat
                    == count_matching(old(db).records_of(Self::spec_collection()), filter@)),
            },
    {
        let conn = match get_connection(db) {
            Ok(c) => c,
            Err(e) => {
                return Err(e);
            },
        };
        let cid = Self::collection();
        let recs = db.take_records(cid);
        let (matched, _rest) = partition_matching(&recs, filter);
        db.put_records(cid, recs);
        release_connection(db, conn);
        Ok(matched.len() as u64)
    }

    /// Whether any record satisfies the filter: a shortcut for a positive
    /// count.
    fn exists_matching(db: &mut Database, filter: &Filter) -> (res: Result<bool, Error>)
        requires
            old(db).wf(),
        ensures
            final(db).wf(),
            match lease_blocked(*old(db)) {
                Some(e) => res == Err::<bool, Error>(e) && db_unchanged(*old(db), *final(db)),
                None => db_unchanged(*old(db), *final(db)) && (res matches Ok(b) && b == (
                count_matching(old(db).records_of(Self::spec_collection()), filter@) > 0)),
            },
    {
        let c = match Self::count(db, filter) {
            Ok(c) => c,
            Err(e) => {
                return Err(e);
            },
        };
        Ok(c > 0)
    }

    /// Removes every record satisfying the filter and reports how many.
    fn delete_many(db: &mut Database, filter: &Filter) -> (res: Result<DeleteResult, Error>)
        requires
            old(db).wf(),
        ensures
            final(db).wf(),
            match lease_blocked(*old(db)) {
                Some(e) => res == Err::<DeleteResult, Error>(e) && db_unchanged(
                    *old(db),
                    *final(db),
                ),
                None => {
                    let s = old(db).records_of(Self::spec_collection());
                    &&& db_changed_only(*old(db), *final(db), Self::spec_collection())
                    &&& final(db).records_of(Self::spec_collection()) == not_matching(s, filter@)
                    &&& (res matches Ok(d) && d.deleted_count as nat == count_matching(s, filter@))
                },
            },
    {
        let conn = match get_connection(db) {
            Ok(c) => c,
            Err(e) => {
                return Err(e);
            },
        };
        let cid = Self::collection();
        let recs = db.take_records(cid);
        let (matched, rest) = partition_matching(&recs, filter);
        proof {
            lemma_filter_distinct(
                recs.deep_view(),
                |x: RecordView| !filter_matches(filter@, x),
            );
        }
        db.put_records(cid, rest);
        release_connection(db, conn);
        Ok(DeleteResult { deleted_count: matched.len() as u64 })
    }

    /// Removes the first record satisfying the filter, if any, and reports
    /// whether one was removed.
    fn delete_one(db: &mut Database, filter: &Filter) -> (res: Result<DeleteResult, Error>)
        requires
            old(db).wf(),
        ensures
            final(db).wf(),
            match lease_blocked(*old(db)) {
                Some(e) => res == Err::<DeleteResult, Error>(e) && db_unchanged(
                    *old(db),
                    *final(db),
                ),
                None => {
                    let s = old(db).records_of(Self::spec_collection());
                    let idx = first_match_index(s, filter@);
                    if idx == -1 {
                        db_unchanged(*old(db), *final(db)) && res == Ok::<DeleteResult, Error>(
                            (DeleteResult { deleted_count: 0 }),
                        )
                    } else {
                        db_changed_only(*old(db), *final(db), Self::spec_collection())
                            && final(db).records_of(Self::spec_collection()) == s.remove(idx)
                            && res == Ok::<DeleteResult, Error>(
                            (DeleteResult { deleted_count: 1 }),
                        )
                    }
                },
            },
    {
        let conn = match get_connection(db) {
            Ok(c) => c,
            Err(e) => {
                return Err(e);
            },
        };
        let cid = Self::collection();
        let mut recs = db.take_records(cid);
        let out = match find_first_match(&recs, filter) {
            Some(i) => {
                proof {
                    lemma_remove_distinct(recs.deep_view(), i as int);
                }
                let ghost s = recs.deep_view();
                recs.remove(i);
                proof {
                    assert(recs.deep_view() =~= s.remove(i as int));
                }
                DeleteResult { deleted_count: 1 }
            },
            None => DeleteResult { deleted_count: 0 },
        };
        db.put_records(cid, recs);
        release_connection(db, conn);
        Ok(out)
    }

    /// Applies the update to the first matching record and returns the
    /// record as it stands after the update — an atomic read-modify-return.
    /// An empty optional when nothing matches.
    fn find_one_and_update(db: &mut Database, filter: &Filter, update: &Update) -> (res: Result<
        Option<Record>,
        Error,
    >)
        requires
            old(db).wf(),
        ensures
            final(db).wf(),
            match lease_blocked(*old(db)) {
                Some(e) => res == Err::<Option<Record>, Error>(e) && db_unchanged(
                    *old(db),
                    *final(db),
                ),
                None => {
                    let s = old(db).records_of(Self::spec_collection());
                    let idx = first_match_index(s, filter@);
                    if idx == -1 {
                        db_unchanged(*old(db), *final(db)) && (res matches Ok(o) && o is None)
                    } else {
                        db_changed_only(*old(db), *final(db), Self::spec_collection()) && (
                        res matches Ok(o) && o matches Some(r) && r@ == apply_update(
                            s[idx],
                            update@,
                        )) && final(db).records_of(Self::spec_collection()) == s.update(
                            idx,
                            apply_update(s[idx], update@),
                        )
                    }
                },
            },
    {
        let conn = match get_connection(db) {
            Ok(c) => c,
            Err(e) => {
                return Err(e);
            },
        };
        let cid = Self::collection();
        let mut recs = db.take_records(cid);
        let out = match update_first(&mut recs, filter, update) {
            Some(p) => Some(p.0),
            None => None,
        };
        db.put_records(cid, recs);
        release_connection(db, conn);
        Ok(out)
    }

    /// Applies the update to the first matching record, reporting match and
    /// modification counts.
    fn update_one(db: &mut Database, filter: &Filter, update: &Update) -> (res: Result<
        UpdateResult,
        Error,
    >)
        requires
            old(db).wf(),
        ensures
            final(db).wf(),
            match lease_blocked(*old(db)) {
                Some(e) => res == Err::<UpdateResult, Error>(e) && db_unchanged(
                    *old(db),
                    *final(db),
                ),
                None => {
                    let s = old(db).records_of(Self::spec_collection());
                    let idx = first_match_index(s, filter@);
                    if idx == -1 {
                        db_unchanged(*old(db), *final(db)) && res == Ok::<UpdateResult, Error>(
                            (UpdateResult { matched_count: 0, modified_count: 0 }),
                        )
                    } else {
                        db_changed_only(*old(db), *final(db), Self::spec_collection())
                            && final(db).records_of(Self::spec_collection()) == s.update(
                            idx,
                            apply_update(s[idx], update@),
                        ) && res == Ok::<UpdateResult, Error>(
                            (UpdateResult {
                                matched_count: 1,
                                modified_count: if apply_update(s[idx], update@) != s[idx] {
                                    1
                                } else {
                                    0
                                },
                            }),
                        )
                    }
                },
            },
    {
        let conn = match get_connection(db) {
            Ok(c) => c,
            Err(e) => {
                return Err(e);
            },
        };
        let cid = Self::collection();
        let mut recs = db.take_records(cid);
        let out = match update_first(&mut recs, filter, update) {
            Some(p) => UpdateResult {
                matched_count: 1,
                modified_count: if p.1 {
                    1
                } else {
                    0
                },
            },
            None => UpdateResult { matched_count: 0, modified_count: 0 },
        };
        db.put_records(cid, recs);
        release_connection(db, conn);
        Ok(out)
    }

    /// Applies the update to every matching record, reporting how many
    /// matched and how many the update actually changed.
    fn update_many(db: &mut Database, filter: &Filter, update: &Update) -> (res: Result<
        UpdateResult,
        Error,
    >)
        requires
            old(db).wf(),
        ensures
            final(db).wf(),
            match lease_blocked(*old(db)) {
                Some(e) => res == Err::<UpdateResult, Error>(e) && db_unchanged(
                    *old(db),
                    *final(db),
                ),
                None => {
                    let s = old(db).records_of(Self::spec_collection());
                    &&& db_changed_only(*old(db), *final(db), Self::spec_collection())
                    &&& final(db).records_of(Self::spec_collection()) == updated_all(
                        s,
                        filter@,
                        update@,
                    )
                    &&& res == Ok::<UpdateResult, Error>(
                        (UpdateResult {
                            matched_count: count_matching(s, filter@) as u64,
                            modified_count: changed_count(s, filter@, update@) as u64,
                        }),
                    )
                },
            },
    {
        let conn = match get_connection(db) {
            Ok(c) => c,
            Err(e) => {
                return Err(e);
            },
        };
        let cid = Self::collection();
        let recs = db.take_records(cid);
        let (outv, counts) = apply_all_matches(&recs, filter, update);
        db.put_records(cid, outv);
        release_connection(db, conn);
        Ok(counts)
    }

    /// A lazy cursor over the records satisfying the filter: a single-pass
    /// walk of a snapshot, streaming matches without materializing them.
    fn cursor(db: &mut Database, filter: Filter) -> (res: Result<ModelCursor, Error>)
        requires
            old(db).wf(),
        ensures
            final(db).wf(),
            match lease_blocked(*old(db)) {
                Some(e) => res == Err::<ModelCursor, Error>(e) && db_unchanged(
                    *old(db),
                    *final(db),
                ),
                None => db_unchanged(*old(db), *final(db)) && (res matches Ok(c) && c.wf()
                    && c.pending() == matching(
                    old(db).records_of(Self::spec_collection()),
                    filter@,
                )),
            },
    {
        let conn = match get_connection(db) {
            Ok(c) => c,
            Err(e) => {
                return Err(e);
            },
        };
        let cid = Self::collection();
        let recs = db.take_records(cid);
        let snap = clone_records(&recs);
        db.put_records(cid, recs);
        release_connection(db, conn);
        Ok(ModelCursor::from_snapshot(snap, filter))
    }

    /// Runs the pipeline's stages in order over the collection and decodes
    /// each store-native output row into the caller's target shape. A
    /// pipeline the store rejects is a `Store` error; a row that does not
    /// decode is a `Decode` error, distinct from any store failure.
    #[verifier::loop_isolation(false)]
    fn aggregate<A: DecodeRecord>(db: &mut Database, pipeline: &Pipeline) -> (res: Result<
        Vec<A>,
        Error,
    >)
        requires
            old(db).wf(),
        ensures
            final(db).wf(),
            match lease_blocked(*old(db)) {
                Some(e) => res == Err::<Vec<A>, Error>(e) && db_unchanged(*old(db), *final(db)),
                None => db_unchanged(*old(db), *final(db)) && match eval_pipeline(
                    old(db).records_of(Self::spec_collection()),
                    pipeline@,
                ) {
                    None => res == Err::<Vec<A>, Error>(Error::Store),
                    Some(rows) => match res {
                        Ok(v) => v.deep_view().len() == rows.len() && (forall|k: int|
                            0 <= k < rows.len() ==> A::spec_decode(#[trigger] rows[k]) == Some(
                                v.deep_view()[k],
                            )),
                        Err(e) => e == Error::Decode && (exists|k: int|
                            0 <= k < rows.len() && A::spec_decode(#[trigger] rows[k]) is None),
                    },
                },
            },
    {
        let conn = match get_connection(db) {
            Ok(c) => c,
            Err(e) => {
                return Err(e);
            },
        };
        let cid = Self::collection();
        let recs = db.take_records(cid);
        let snap = clone_records(&recs);
        db.put_records(cid, snap);
        release_connection(db, conn);

        let ghost s0 = recs.deep_view();
        let mut cur = recs;
        proof {
            assert(pipeline@.skip(0) =~= pipeline@);
        }
        let nst = pipeline.stages.len();
        let mut si: usize = 0;
        while si < nst
            invariant
                nst == pipeline.stages.len(),
                si <= nst,
                eval_pipeline(s0, pipeline@) == eval_pipeline(
                    cur.deep_view(),
                    pipeline@.skip(si as int),
                ),
            decreases nst - si,
        {
            proof {
                assert(pipeline@.skip(si as int)[0] == pipeline.stages@[si as int]@);
                assert(pipeline@.skip(si as int).drop_first() =~= pipeline@.skip(si + 1));
            }
            match &pipeline.stages[si] {
                Stage::Match(f) => {
                    let (m, _rest) = partition_matching(&cur, f);
                    cur = m;
                },
                Stage::GroupCount(name) => {
                    if si + 1 != nst {
                        return Err(Error::Store);
                    }
                    let g = group_exec(&cur, name);
                    cur = g;
                },
            }
            si = si + 1;
        }
        proof {
            assert(pipeline@.skip(nst as int) =~= Seq::<StageView>::empty());
        }

        let mut out: Vec<A> = Vec::new();
        let nr = cur.len();
        let mut ri: usize = 0;
        while ri < nr
            invariant
                nr == cur.len(),
                ri <= nr,
                out.len() == ri,
                eval_pipeline(s0, pipeline@) == Some(cur.deep_view()),
                forall|k: int|
                    0 <= k < ri ==> A::spec_decode(#[trigger] cur.deep_view()[k]) == Some(
                        out.deep_view()[k],
                    ),
            decreases nr - ri,
        {
            match A::decode(&cur[ri]) {
                Ok(a) => {
                    out.push(a);
                },
                Err(_e) => {
                    proof {
                        let evaluated = eval_pipeline(
                            old(db).records_of(Self::spec_collection()),
                            pipeline@,
                        );
                        assert(evaluated == Some(cur.deep_view()));
                        let rows = evaluated.unwrap();
                        assert(A::spec_decode(rows[ri as int]) is None);
                        assert(exists|k: int|
                            0 <= k < rows.len() && A::spec_decode(#[trigger] rows[k]) is None);
                    }
                    return Err(Error::Decode);
                },
            }
            ri = ri + 1;
        }
        Ok(out)
    }

    /// Reconciles the collection's synchronized indexes with the entity's
    /// declared set; idempotent, and a consistent state is left untouched.
    fn sync_indexes(db: &mut Database) -> (res: Result<(), Error>)
        requires
            old(db).wf(),
        ensures
            final(db).wf(),
            match lease_blocked(*old(db)) {
                Some(e) => res == Err::<(), Error>(e) && db_unchanged(*old(db), *final(db)),
                None => {
                    &&& res == Ok::<(), Error>(())
                    &&& ctrl_frame(*old(db), *final(db))
                    &&& final(db).indexes_of(Self::spec_collection()) == Self::spec_indexes()
                    &&& forall|c: u64|
                        c != Self::spec_collection() ==> final(db).indexes_of(c) == old(
                            db,
                        ).indexes_of(c)
                    &&& forall|c: u64| final(db).records_of(c) == old(db).records_of(c)
                },
            },
    {
        let conn = match get_connection(db) {
            Ok(c) => c,
            Err(e) => {
                return Err(e);
            },
        };
        let cid = Self::collection();
        db.set_indexes(cid, Self::indexes());
        release_connection(db, conn);
        Ok(())
    }
}

} // verus!
