use vstd::prelude::*;

use crate::record::{clone_value, value_eq, Field, FieldView, Record, RecordView, Value, ValueView};

verus! {

/// Which records an operation applies to. An immutable value object.
#[derive(Clone, Debug)]
pub enum Filter {
    /// Every record of the collection.
    All,
    /// The record whose identifier equals the given one.
    IdEq(u64),
    /// Records whose first field of the given name holds exactly the given value.
    FieldEq(String, Value),
}

/// Spec-level shape of a `Filter`.
#[verifier::ext_equal]
pub enum FilterView {
    All,
    IdEq(u64),
    FieldEq(Seq<char>, ValueView),
}

impl View for Filter {
    type V = FilterView;

    open spec fn view(&self) -> FilterView {
        match self {
            Filter::All => FilterView::All,
            Filter::IdEq(id) => FilterView::IdEq(*id),
            Filter::FieldEq(name, v) => FilterView::FieldEq(name@, v@),
        }
    }
}

/// One change to a record's fields.
#[derive(Clone, Debug)]
pub enum UpdateOp {
    /// Set the named field to the value: the first field of that name is
    /// replaced, or the field is appended when no field has the name.
    Assign(String, Value),
    /// Add the delta to the named integer field, saturating at the 64-bit
    /// signed bounds. A missing field is created holding the delta; a field
    /// of a non-integer shape is left unchanged.
    Inc(String, i64),
}

/// Spec-level shape of an `UpdateOp`.
#[verifier::ext_equal]
pub enum UpdateOpView {
    Assign(Seq<char>, ValueView),
    Inc(Seq<char>, i64),
}

impl View for UpdateOp {
    type V = UpdateOpView;

    open spec fn view(&self) -> UpdateOpView {
        match self {
            UpdateOp::Assign(name, v) => UpdateOpView::Assign(name@, v@),
            UpdateOp::Inc(name, d) => UpdateOpView::Inc(name@, *d),
        }
    }
}

impl DeepView for UpdateOp {
    type V = UpdateOpView;

    open spec fn deep_view(&self) -> UpdateOpView {
        self@
    }
}

/// What change to apply: the update ops run left to right.
#[derive(Clone, Debug)]
pub struct Update {
    pub ops: Vec<UpdateOp>,
}

impl View for Update {
    type V = Seq<UpdateOpView>;

    open spec fn view(&self) -> Seq<UpdateOpView> {
        self.ops.deep_view()
    }
}

/// The value of the first field with the given name, if any.
pub open spec fn lookup_field(fs: Seq<FieldView>, name: Seq<char>) -> Option<ValueView>
    decreases fs.len(),
{
    if fs.len() == 0 {
        None
    } else if fs[0].name == name {
        Some(fs[0].value)
    } else {
        lookup_field(fs.drop_first(), name)
    }
}

/// Whether a record satisfies a filter.
pub open spec fn filter_matches(f: FilterView, r: RecordView) -> bool {
    match f {
        FilterView::All => true,
        FilterView::IdEq(id) => r.id == id,
        FilterView::FieldEq(name, v) => lookup_field(r.fields, name) == Some(v),
    }
}

/// The records of `s` that satisfy `f`, in their original order.
pub open spec fn matching(s: Seq<RecordView>, f: FilterView) -> Seq<RecordView> {
    s.filter(|r: RecordView| filter_matches(f, r))
}

/// The records of `s` that do not satisfy `f`, in their original order.
pub open spec fn not_matching(s: Seq<RecordView>, f: FilterView) -> Seq<RecordView> {
    s.filter(|r: RecordView| !filter_matches(f, r))
}

/// How many records of `s` satisfy `f`.
pub open spec fn count_matching(s: Seq<RecordView>, f: FilterView) -> nat {
    matching(s, f).len()
}

/// The first record of `s` that satisfies `f`, if any.
pub open spec fn first_matching(s: Seq<RecordView>, f: FilterView) -> Option<RecordView>
    decreases s.len(),
{
    if s.len() == 0 {
        None
    } else if filter_matches(f, s[0]) {
        Some(s[0])
    } else {
        first_matching(s.drop_first(), f)
    }
}

/// A sum of two 64-bit signed integers, saturating at the type's bounds.
pub open spec fn sat_add_i64(a: i64, b: i64) -> i64 {
    if a + b > i64::MAX {
        i64::MAX
    } else if a + b < i64::MIN {
        i64::MIN
    } else {
        (a + b) as i64
    }
}

/// The fields after setting `name` to `v`: the first field of that name is
/// replaced, or a new field is appended.
pub open spec fn set_field(fs: Seq<FieldView>, name: Seq<char>, v: ValueView) -> Seq<FieldView>
    decreases fs.len(),
{
    if fs.len() == 0 {
        seq![FieldView { name, value: v }]
    } else if fs[0].name == name {
        seq![FieldView { name, value: v }].add(fs.drop_first())
    } else {
        seq![fs[0]].add(set_field(fs.drop_first(), name, v))
    }
}

/// A record after one update op.
pub open spec fn apply_op(r: RecordView, op: UpdateOpView) -> RecordView {
    match op {
        UpdateOpView::Assign(name, v) => RecordView { id: r.id, fields: set_field(r.fields, name, v) },
        UpdateOpView::Inc(name, d) => match lookup_field(r.fields, name) {
            Some(ValueView::Int(i)) => RecordView {
                id: r.id,
                fields: set_field(r.fields, name, ValueView::Int(sat_add_i64(i, d))),
            },
            Some(_) => r,
            None => RecordView { id: r.id, fields: set_field(r.fields, name, ValueView::Int(d)) },
        },
    }
}

/// A record after a whole update, its ops applied left to right.
pub open spec fn apply_update(r: RecordView, ops: Seq<UpdateOpView>) -> RecordView
    decreases ops.len(),
{
    if ops.len() == 0 {
        r
    } else {
        apply_op(apply_update(r, ops.drop_last()), ops.last())
    }
}

/// An update never changes a record's identifier.
pub proof fn lemma_apply_update_keeps_id(r: RecordView, ops: Seq<UpdateOpView>)
    ensures
        apply_update(r, ops).id == r.id,
    decreases ops.len(),
{
    if ops.len() > 0 {
        lemma_apply_update_keeps_id(r, ops.drop_last());
    }
}

/// Looking up a name absent from the first `i` fields is looking it up past them.
proof fn lemma_lookup_skip(fs: Seq<FieldView>, name: Seq<char>, i: int)
    requires
        0 <= i <= fs.len(),
        forall|j: int| 0 <= j < i ==> fs[j].name != name,
    ensures
        lookup_field(fs, name) == lookup_field(fs.skip(i), name),
    decreases i,
{
    if i == 0 {
        assert(fs.skip(0) =~= fs);
    } else {
        assert(fs.drop_first().skip(i - 1) =~= fs.skip(i));
        lemma_lookup_skip(fs.drop_first(), name, i - 1);
    }
}

/// Setting a name that first occurs at `i` replaces the field at `i`.
proof fn lemma_set_field_at(fs: Seq<FieldView>, name: Seq<char>, v: ValueView, i: int)
    requires
        0 <= i < fs.len(),
        fs[i].name == name,
        forall|j: int| 0 <= j < i ==> fs[j].name != name,
    ensures
        set_field(fs, name, v) =~= fs.update(i, FieldView { name, value: v }),
    decreases i,
{
    if i == 0 {
        assert(set_field(fs, name, v) =~= fs.update(0, FieldView { name, value: v }));
    } else {
        lemma_set_field_at(fs.drop_first(), name, v, i - 1);
        assert(seq![fs[0]].add(fs.drop_first().update(i - 1, FieldView { name, value: v }))
            =~= fs.update(i, FieldView { name, value: v }));
    }
}

/// Setting a name that occurs nowhere appends the field.
proof fn lemma_set_field_absent(fs: Seq<FieldView>, name: Seq<char>, v: ValueView)
    requires
        forall|j: int| 0 <= j < fs.len() ==> fs[j].name != name,
    ensures
        set_field(fs, name, v) =~= fs.push(FieldView { name, value: v }),
    decreases fs.len(),
{
    if fs.len() == 0 {
        assert(set_field(fs, name, v) =~= fs.push(FieldView { name, value: v }));
    } else {
        lemma_set_field_absent(fs.drop_first(), name, v);
        assert(seq![fs[0]].add(fs.drop_first().push(FieldView { name, value: v }))
            =~= fs.push(FieldView { name, value: v }));
    }
}

/// Finds the first field with the given name: its index, or `None`.
pub fn find_field_index(fields: &Vec<Field>, name: &String) -> (r: Option<usize>)
    ensures
        match r {
            Some(i) => i < fields.len() && fields@[i as int]@.name == name@
                && (forall|j: int| 0 <= j < i ==> fields@[j]@.name != name@)
                && lookup_field(fields.deep_view(), name@) == Some(fields@[i as int]@.value),
            None => lookup_field(fields.deep_view(), name@) is None
                && (forall|j: int| 0 <= j < fields.len() ==> fields@[j]@.name != name@),
        },
{
    let n = fields.len();
    let mut i: usize = 0;
    while i < n
        invariant
            n == fields.len(),
            i <= n,
            forall|j: int| 0 <= j < i ==> fields@[j]@.name != name@,
        decreases n - i,
    {
        if fields[i].name == *name {
            proof {
                lemma_lookup_skip(fields.deep_view(), name@, i as int);
                assert(fields.deep_view().skip(i as int)[0] == fields@[i as int]@);
            }
            return Some(i);
        }
        i = i + 1;
    }
    proof {
        lemma_lookup_skip(fields.deep_view(), name@, n as int);
    }
    None
}

/// Decides whether a record satisfies a filter.
pub fn eval_filter(f: &Filter, r: &Record) -> (b: bool)
    ensures
        b == filter_matches(f@, r@),
{
    match f {
        Filter::All => true,
        Filter::IdEq(id) => r.id == *id,
        Filter::FieldEq(name, v) => match find_field_index(&r.fields, name) {
            Some(i) => value_eq(&r.fields[i].value, v),
            None => false,
        },
    }
}

/// Sets the named field of `fields` to `value`, replacing the first field
/// of that name or appending a new one.
fn set_field_exec(fields: &mut Vec<Field>, name: &String, value: Value)
    ensures
        final(fields).deep_view() == set_field(old(fields).deep_view(), name@, value@),
{
    let ghost old_fs = fields.deep_view();
    match find_field_index(fields, name) {
        Some(i) => {
            fields.remove(i);
            fields.insert(i, Field { name: name.clone(), value });
            proof {
                lemma_set_field_at(old_fs, name@, value@, i as int);
                assert(fields.deep_view() =~= old_fs.update(
                    i as int,
                    FieldView { name: name@, value: value@ },
                ));
            }
        },
        None => {
            fields.push(Field { name: name.clone(), value });
            proof {
                lemma_set_field_absent(old_fs, name@, value@);
                assert(fields.deep_view() =~= old_fs.push(
                    FieldView { name: name@, value: value@ },
                ));
            }
        },
    }
}

/// Applies one update op to a record.
fn apply_op_exec(r: &mut Record, op: &UpdateOp)
    ensures
        final(r)@ == apply_op(old(r)@, op@),
{
    match op {
        UpdateOp::Assign(name, v) => {
            set_field_exec(&mut r.fields, name, clone_value(v));
        },
        UpdateOp::Inc(name, d) => {
            match find_field_index(&r.fields, name) {
                Some(i) => {
                    match &r.fields[i].value {
                        Value::Int(cur) => {
                            let bumped: i64 = match cur.checked_add(*d) {
                                Some(s) => s,
                                None => {
                                    if *d > 0 {
                                        i64::MAX
                                    } else {
                                        i64::MIN
                                    }
                                },
                            };
                            set_field_exec(&mut r.fields, name, Value::Int(bumped));
                        },
                        _ => {},
                    }
                },
                None => {
                    set_field_exec(&mut r.fields, name, Value::Int(*d));
                },
            }
        },
    }
}

/// Applies a whole update to a record, its ops left to right.
pub fn apply_update_exec(r: &Record, u: &Update) -> (res: Record)
    ensures
        res@ == apply_update(r@, u@),
{
    let mut cur = crate::record::clone_record(r);
    let n = u.ops.len();
    let mut i: usize = 0;
    while i < n
        invariant
            n == u.ops.len(),
            i <= n,
            cur@ == apply_update(r@, u@.take(i as int)),
        decreases n - i,
    {
        apply_op_exec(&mut cur, &u.ops[i]);
        proof {
            assert(u@.take(i + 1).drop_last() =~= u@.take(i as int));
            assert(u@.take(i + 1).last() == u.ops@[i as int]@);
        }
        i = i + 1;
    }
    proof {
        assert(u@.take(n as int) =~= u@);
    }
    cur
}

/// Splitting on a filter commutes with appending one record.
pub proof fn lemma_matching_push(s: Seq<RecordView>, f: FilterView, r: RecordView)
    ensures
        matching(s.push(r), f) == if filter_matches(f, r) {
            matching(s, f).push(r)
        } else {
            matching(s, f)
        },
        not_matching(s.push(r), f) == if !filter_matches(f, r) {
            not_matching(s, f).push(r)
        } else {
            not_matching(s, f)
        },
{
    s.lemma_filter_push(r, |x: RecordView| filter_matches(f, x));
    s.lemma_filter_push(r, |x: RecordView| !filter_matches(f, x));
}

/// Matching splits at the front: the first record goes first when it
/// matches, and the rest follow in order.
pub proof fn lemma_matching_first(s: Seq<RecordView>, f: FilterView)
    requires
        s.len() > 0,
    ensures
        matching(s, f) == if filter_matches(f, s[0]) {
            seq![s[0]].add(matching(s.drop_first(), f))
        } else {
            matching(s.drop_first(), f)
        },
    decreases s.len(),
{
    reveal(Seq::filter);
    if s.len() == 1 {
        let e = Seq::<RecordView>::empty();
        lemma_matching_push(e, f, s[0]);
        assert(e.push(s[0]) =~= s);
        assert(s.drop_first() =~= e);
        if filter_matches(f, s[0]) {
            assert(matching(s, f) =~= seq![s[0]].add(matching(s.drop_first(), f)));
        }
    } else {
        let dl = s.drop_last();
        lemma_matching_first(dl, f);
        lemma_matching_push(dl, f, s.last());
        lemma_matching_push(dl.drop_first(), f, s.last());
        assert(dl.push(s.last()) =~= s);
        assert(dl.drop_first().push(s.last()) =~= s.drop_first());
        assert(s[0] == dl[0]);
        if filter_matches(f, s[0]) {
            if filter_matches(f, s.last()) {
                assert(seq![s[0]].add(matching(dl.drop_first(), f)).push(s.last())
                    =~= seq![s[0]].add(matching(dl.drop_first(), f).push(s.last())));
            }
        }
    }
}

/// Matching skips a matchless prefix.
pub proof fn lemma_matching_skip(s: Seq<RecordView>, f: FilterView, i: int)
    requires
        0 <= i <= s.len(),
        forall|j: int| 0 <= j < i ==> !filter_matches(f, #[trigger] s[j]),
    ensures
        matching(s, f) == matching(s.skip(i), f),
    decreases i,
{
    if i == 0 {
        assert(s.skip(0) =~= s);
    } else {
        lemma_matching_first(s, f);
        assert(s.drop_first().skip(i - 1) =~= s.skip(i));
        lemma_matching_skip(s.drop_first(), f, i - 1);
    }
}

/// Nothing matches in an empty sequence.
pub proof fn lemma_matching_empty(f: FilterView)
    ensures
        matching(Seq::<RecordView>::empty(), f) == Seq::<RecordView>::empty(),
        not_matching(Seq::<RecordView>::empty(), f) == Seq::<RecordView>::empty(),
{
    reveal(Seq::filter);
}

/// Every matching record after the update, the rest untouched; order and
/// positions are kept.
pub open spec fn updated_all(
    s: Seq<RecordView>,
    f: FilterView,
    ops: Seq<UpdateOpView>,
) -> Seq<RecordView> {
    Seq::new(
        s.len(),
        |i: int|
            if filter_matches(f, s[i]) {
                apply_update(s[i], ops)
            } else {
                s[i]
            },
    )
}

/// How many matching records the update actually changes.
pub open spec fn changed_count(s: Seq<RecordView>, f: FilterView, ops: Seq<UpdateOpView>) -> nat {
    s.filter(|r: RecordView| filter_matches(f, r) && apply_update(r, ops) != r).len()
}

/// Whether any record of `s` satisfies `f`.
pub open spec fn has_match(s: Seq<RecordView>, f: FilterView) -> bool {
    exists|k: int| 0 <= k < s.len() && filter_matches(f, s[k])
}

/// The position of the first record satisfying `f`, or `-1`.
pub open spec fn first_match_index(s: Seq<RecordView>, f: FilterView) -> int
    decreases s.len(),
{
    if s.len() == 0 {
        -1
    } else if filter_matches(f, s[0]) {
        0
    } else {
        let r = first_match_index(s.drop_first(), f);
        if r == -1 {
            -1
        } else {
            1 + r
        }
    }
}

/// A match at `i`, with none before it, is the first match.
proof fn lemma_first_match_found(s: Seq<RecordView>, f: FilterView, i: int)
    requires
        0 <= i < s.len(),
        filter_matches(f, s[i]),
        forall|j: int| 0 <= j < i ==> !filter_matches(f, #[trigger] s[j]),
    ensures
        first_match_index(s, f) == i,
        first_matching(s, f) == Some(s[i]),
        has_match(s, f),
    decreases i,
{
    if i > 0 {
        lemma_first_match_found(s.drop_first(), f, i - 1);
    }
}

/// With no match anywhere there is no first match.
proof fn lemma_first_match_none(s: Seq<RecordView>, f: FilterView)
    requires
        forall|j: int| 0 <= j < s.len() ==> !filter_matches(f, #[trigger] s[j]),
    ensures
        first_match_index(s, f) == -1,
        first_matching(s, f) is None,
        !has_match(s, f),
    decreases s.len(),
{
    if s.len() > 0 {
        lemma_first_match_none(s.drop_first(), f);
    }
}

/// Finds the position of the first record satisfying the filter.
pub fn find_first_match(recs: &Vec<Record>, f: &Filter) -> (r: Option<usize>)
    ensures
        match r {
            Some(i) => i < recs.len() && first_match_index(recs.deep_view(), f@) == i
                && first_matching(recs.deep_view(), f@) == Some(recs@[i as int]@)
                && filter_matches(f@, recs@[i as int]@) && has_match(recs.deep_view(), f@),
            None => first_match_index(recs.deep_view(), f@) == -1
                && first_matching(recs.deep_view(), f@) is None
                && !has_match(recs.deep_view(), f@),
        },
{
    let n = recs.len();
    let mut i: usize = 0;
    while i < n
        invariant
            n == recs.len(),
            i <= n,
            forall|j: int| 0 <= j < i ==> !filter_matches(f@, #[trigger] recs.deep_view()[j]),
        decreases n - i,
    {
        if eval_filter(f, &recs[i]) {
            proof {
                lemma_first_match_found(recs.deep_view(), f@, i as int);
            }
            return Some(i);
        }
        i = i + 1;
    }
    proof {
        lemma_first_match_none(recs.deep_view(), f@);
    }
    None
}

} // verus!
