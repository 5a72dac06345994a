use vstd::prelude::*;

use crate::errors::Error;
use crate::query::{find_field_index, lookup_field, matching, Filter, FilterView};
use crate::record::{clone_value, value_eq, Field, FieldView, Record, RecordView, Value, ValueView};

verus! {

/// One stage of an aggregation pipeline.
#[derive(Clone, Debug)]
pub enum Stage {
    /// Keep only the records satisfying the filter.
    Match(Filter),
    /// Group by the named field and count each group. Must be the final
    /// stage; each output row holds the group key under `_id` and the
    /// group's size under `count`, in first-appearance order of the keys.
    GroupCount(String),
}

/// Spec-level shape of a `Stage`.
#[verifier::ext_equal]
pub enum StageView {
    Match(FilterView),
    GroupCount(Seq<char>),
}

impl View for Stage {
    type V = StageView;

    open spec fn view(&self) -> StageView {
        match self {
            Stage::Match(f) => StageView::Match(f@),
            Stage::GroupCount(name) => StageView::GroupCount(name@),
        }
    }
}

impl DeepView for Stage {
    type V = StageView;

    open spec fn deep_view(&self) -> StageView {
        self@
    }
}

/// An ordered aggregation pipeline, executed stage by stage.
#[derive(Clone, Debug)]
pub struct Pipeline {
    pub stages: Vec<Stage>,
}

impl View for Pipeline {
    type V = Seq<StageView>;

    open spec fn view(&self) -> Seq<StageView> {
        self.stages.deep_view()
    }
}

/// The group key of a record: the named field's value, or null when the
/// field is absent.
pub open spec fn key_of(r: RecordView, name: Seq<char>) -> ValueView {
    match lookup_field(r.fields, name) {
        Some(v) => v,
        None => ValueView::Null,
    }
}

/// The position of a key among the group rows, or `-1`.
pub open spec fn index_of_key(rows: Seq<(ValueView, nat)>, k: ValueView) -> int
    decreases rows.len(),
{
    if rows.len() == 0 {
        -1
    } else if rows[0].0 == k {
        0
    } else {
        let r = index_of_key(rows.drop_first(), k);
        if r == -1 {
            -1
        } else {
            1 + r
        }
    }
}

/// The group rows after counting one more record with key `k`: the key's
/// count grows by one, or a fresh group of one opens at the end.
pub open spec fn bump_key(rows: Seq<(ValueView, nat)>, k: ValueView) -> Seq<(ValueView, nat)> {
    let i = index_of_key(rows, k);
    if i == -1 {
        rows.push((k, 1nat))
    } else {
        rows.update(i, (k, (rows[i].1 + 1) as nat))
    }
}

/// The groups of `s` by the named field: each distinct key once, in
/// first-appearance order, with how many records carry it.
pub open spec fn group_rows(s: Seq<RecordView>, name: Seq<char>) -> Seq<(ValueView, nat)>
    decreases s.len(),
{
    if s.len() == 0 {
        Seq::<(ValueView, nat)>::empty()
    } else {
        bump_key(group_rows(s.drop_last(), name), key_of(s.last(), name))
    }
}

/// A group size as a stored integer, saturating at the 64-bit signed bound.
pub open spec fn sat_nat_i64(n: nat) -> i64 {
    if n > i64::MAX {
        i64::MAX
    } else {
        n as i64
    }
}

/// One group row in record shape: the key under `_id`, the size under
/// `count`, the row's position as its identifier.
pub open spec fn row_record(row: (ValueView, nat), i: int) -> RecordView {
    RecordView {
        id: i as u64,
        fields: seq![
            FieldView { name: "_id"@, value: row.0 },
            FieldView { name: "count"@, value: ValueView::Int(sat_nat_i64(row.1)) },
        ],
    }
}

/// The grouped output of `s`, in record shape.
pub open spec fn group_records(s: Seq<RecordView>, name: Seq<char>) -> Seq<RecordView> {
    Seq::new(group_rows(s, name).len(), |i: int| row_record(group_rows(s, name)[i], i))
}

/// What a pipeline produces on a record sequence, or `None` for a shape
/// the store rejects: a grouping stage anywhere but last.
pub open spec fn eval_pipeline(s: Seq<RecordView>, stages: Seq<StageView>) -> Option<
    Seq<RecordView>,
>
    decreases stages.len(),
{
    if stages.len() == 0 {
        Some(s)
    } else {
        match stages[0] {
            StageView::Match(f) => eval_pipeline(matching(s, f), stages.drop_first()),
            StageView::GroupCount(name) => if stages.len() == 1 {
                Some(group_records(s, name))
            } else {
                None
            },
        }
    }
}

/// A key found at `j`, with no earlier occurrence, indexes there.
proof fn lemma_index_found(rows: Seq<(ValueView, nat)>, k: ValueView, j: int)
    requires
        0 <= j < rows.len(),
        rows[j].0 == k,
        forall|l: int| 0 <= l < j ==> (#[trigger] rows[l]).0 != k,
    ensures
        index_of_key(rows, k) == j,
    decreases j,
{
    if j > 0 {
        lemma_index_found(rows.drop_first(), k, j - 1);
    }
}

/// A key occurring nowhere has no index.
proof fn lemma_index_none(rows: Seq<(ValueView, nat)>, k: ValueView)
    requires
        forall|l: int| 0 <= l < rows.len() ==> (#[trigger] rows[l]).0 != k,
    ensures
        index_of_key(rows, k) == -1,
    decreases rows.len(),
{
    if rows.len() > 0 {
        lemma_index_none(rows.drop_first(), k);
    }
}

/// The index of a key is `-1` or a position among the rows.
proof fn lemma_index_range(rows: Seq<(ValueView, nat)>, k: ValueView)
    ensures
        -1 <= index_of_key(rows, k) < rows.len(),
    decreases rows.len(),
{
    if rows.len() > 0 && rows[0].0 != k {
        lemma_index_range(rows.drop_first(), k);
    }
}

/// No group is larger than the sequence it counts.
proof fn lemma_group_counts_bounded(s: Seq<RecordView>, name: Seq<char>)
    ensures
        forall|l: int|
            0 <= l < group_rows(s, name).len() ==> (#[trigger] group_rows(s, name)[l]).1 <= s.len(),
    decreases s.len(),
{
    if s.len() > 0 {
        let prev = group_rows(s.drop_last(), name);
        let k = key_of(s.last(), name);
        lemma_group_counts_bounded(s.drop_last(), name);
        lemma_index_range(prev, k);
        let i = index_of_key(prev, k);
        assert forall|l: int|
            0 <= l < group_rows(s, name).len() implies (#[trigger] group_rows(s, name)[l]).1
            <= s.len() by {
            if i == -1 {
                if l < prev.len() {
                    assert(group_rows(s, name)[l] == prev[l]);
                }
            } else {
                if l != i {
                    assert(group_rows(s, name)[l] == prev[l]);
                }
            }
        }
    }
}

/// Finds the first position holding this key, if any.
fn find_key_index(keys: &Vec<Value>, k: &Value) -> (r: Option<usize>)
    ensures
        match r {
            Some(j) => j < keys.len() && keys@[j as int]@ == k@ && (forall|l: int|
                0 <= l < j ==> keys@[l]@ != k@),
            None => forall|l: int| 0 <= l < keys.len() ==> keys@[l]@ != k@,
        },
{
    let n = keys.len();
    let mut i: usize = 0;
    while i < n
        invariant
            n == keys.len(),
            i <= n,
            forall|l: int| 0 <= l < i ==> keys@[l]@ != k@,
        decreases n - i,
    {
        if value_eq(&keys[i], k) {
            return Some(i);
        }
        i = i + 1;
    }
    None
}

/// Groups the records by the named field and encodes the rows as records.
pub fn group_exec(recs: &Vec<Record>, name: &String) -> (out: Vec<Record>)
    ensures
        out.deep_view() == group_records(recs.deep_view(), name@),
{
    let ghost s = recs.deep_view();
    let mut keys: Vec<Value> = Vec::new();
    let mut counts: Vec<u64> = Vec::new();
    let n = recs.len();
    let mut i: usize = 0;
    while i < n
        invariant
            n == recs.len(),
            i <= n,
            s == recs.deep_view(),
            keys.len() == counts.len(),
            keys.len() == group_rows(s.take(i as int), name@).len(),
            forall|l: int|
                0 <= l < keys.len() ==> keys@[l]@ == (#[trigger] group_rows(
                    s.take(i as int),
                    name@,
                )[l]).0,
            forall|l: int|
                0 <= l < counts.len() ==> counts@[l] as nat == (#[trigger] group_rows(
                    s.take(i as int),
                    name@,
                )[l]).1,
        decreases n - i,
    {
        let ghost rows = group_rows(s.take(i as int), name@);
        proof {
            assert(s.take(i + 1).drop_last() =~= s.take(i as int));
            assert(s.take(i + 1).last() == s[i as int]);
        }
        let keyv: Value = match find_field_index(&recs[i].fields, name) {
            Some(fi) => clone_value(&recs[i].fields[fi].value),
            None => Value::Null,
        };
        proof {
            assert(recs.deep_view()[i as int] == recs@[i as int]@);
            assert(keyv@ == key_of(s[i as int], name@));
        }
        match find_key_index(&keys, &keyv) {
            Some(j) => {
                proof {
                    assert forall|l: int| 0 <= l < j implies (#[trigger] rows[l]).0 != keyv@ by {
                        assert(keys@[l]@ == rows[l].0);
                    }
                    lemma_index_found(rows, keyv@, j as int);
                    lemma_group_counts_bounded(s.take(i as int), name@);
                    assert(rows[j as int].1 <= i);
                }
                let c = counts[j];
                counts.remove(j);
                counts.insert(j, c + 1);
                proof {
                    assert(bump_key(rows, keyv@) =~= rows.update(
                        j as int,
                        (keyv@, (rows[j as int].1 + 1) as nat),
                    ));
                }
            },
            None => {
                proof {
                    assert forall|l: int|
                        0 <= l < rows.len() implies (#[trigger] rows[l]).0 != keyv@ by {
                        assert(keys@[l]@ == rows[l].0);
                    }
                    lemma_index_none(rows, keyv@);
                }
                keys.push(keyv);
                counts.push(1);
            },
        }
        i = i + 1;
    }
    proof {
        assert(s.take(n as int) =~= s);
    }
    let ghost rows = group_rows(s, name@);
    let m = keys.len();
    let mut out: Vec<Record> = Vec::new();
    let mut k: usize = 0;
    while k < m
        invariant
            m == keys.len(),
            m == counts.len(),
            k <= m,
            out.len() == k,
            rows == group_rows(s, name@),
            m == rows.len(),
            forall|l: int| 0 <= l < m ==> keys@[l]@ == (#[trigger] rows[l]).0,
            forall|l: int| 0 <= l < m ==> counts@[l] as nat == (#[trigger] rows[l]).1,
            forall|l: int| 0 <= l < k ==> out@[l]@ == row_record(rows[l], l),
        decreases m - k,
    {
        let cnt = counts[k];
        let ci: i64 = if cnt > i64::MAX as u64 {
            i64::MAX
        } else {
            cnt as i64
        };
        let mut fields: Vec<Field> = Vec::new();
        fields.push(Field { name: "_id".to_owned(), value: clone_value(&keys[k]) });
        fields.push(Field { name: "count".to_owned(), value: Value::Int(ci) });
        let rec = Record { id: k as u64, fields };
        proof {
            assert(rec@.fields =~= row_record(rows[k as int], k as int).fields);
            assert(rec@ =~= row_record(rows[k as int], k as int));
        }
        out.push(rec);
        k = k + 1;
    }
    proof {
        assert(out.deep_view() =~= group_records(s, name@));
    }
    out
}

/// A caller-specified result shape for aggregation output: how one
/// store-native row decodes into the target type, and when it cannot.
pub trait DecodeRecord: DeepView + Sized {
    /// The decoded shape of a row, or `None` for a shape mismatch.
    spec fn spec_decode(r: RecordView) -> Option<Self::V>;

    /// Decodes one row; a shape mismatch is a `Decode` error, distinct
    /// from any store failure.
    fn decode(r: &Record) -> (res: Result<Self, Error>)
        ensures
            match res {
                Ok(a) => Self::spec_decode(r@) == Some(a.deep_view()),
                Err(e) => e == Error::Decode && Self::spec_decode(r@) is None,
            },
    ;
}

/// The result shape of a group-and-count pipeline: one group's key and size.
#[derive(Clone, Debug, PartialEq, Eq)]
pub struct GroupRow {
    pub key: Value,
    pub count: i64,
}

/// Spec-level shape of a `GroupRow`.
#[verifier::ext_equal]
pub struct GroupRowView {
    pub key: ValueView,
    pub count: i64,
}

impl View for GroupRow {
    type V = GroupRowView;

    open spec fn view(&self) -> GroupRowView {
        GroupRowView { key: self.key@, count: self.count }
    }
}

impl DeepView for GroupRow {
    type V = GroupRowView;

    open spec fn deep_view(&self) -> GroupRowView {
        self@
    }
}

impl DecodeRecord for GroupRow {
    open spec fn spec_decode(r: RecordView) -> Option<GroupRowView> {
        match lookup_field(r.fields, "_id"@) {
            Some(k) => match lookup_field(r.fields, "count"@) {
                Some(ValueView::Int(n)) => Some(GroupRowView { key: k, count: n }),
                _ => None,
            },
            None => None,
        }
    }

    fn decode(r: &Record) -> (res: Result<Self, Error>) {
        let id_name = "_id".to_owned();
        let count_name = "count".to_owned();
        let key = match find_field_index(&r.fields, &id_name) {
            Some(i) => clone_value(&r.fields[i].value),
            None => {
                return Err(Error::Decode);
            },
        };
        match find_field_index(&r.fields, &count_name) {
            Some(i) => match &r.fields[i].value {
                Value::Int(n) => Ok(GroupRow { key, count: *n }),
                _ => Err(Error::Decode),
            },
            None => Err(Error::Decode),
        }
    }
}

} // verus!
