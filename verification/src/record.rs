use vstd::prelude::*;

verus! {

/// A primitive stored value. The store is record-oriented: every persisted
/// datum is one of these small shapes.
#[derive(Clone, Debug, PartialEq, Eq)]
pub enum Value {
    Int(i64),
    Bool(bool),
    Text(String),
    Null,
}

/// Spec-level shape of a `Value`: text is a sequence of characters.
#[verifier::ext_equal]
pub enum ValueView {
    Int(i64),
    Bool(bool),
    Text(Seq<char>),
    Null,
}

impl View for Value {
    type V = ValueView;

    open spec fn view(&self) -> ValueView {
        match self {
            Value::Int(i) => ValueView::Int(*i),
            Value::Bool(b) => ValueView::Bool(*b),
            Value::Text(s) => ValueView::Text(s@),
            Value::Null => ValueView::Null,
        }
    }
}

impl DeepView for Value {
    type V = ValueView;

    open spec fn deep_view(&self) -> ValueView {
        self@
    }
}

/// One named value inside a record.
#[derive(Clone, Debug, PartialEq, Eq)]
pub struct Field {
    pub name: String,
    pub value: Value,
}

/// Spec-level shape of a `Field`.
#[verifier::ext_equal]
pub struct FieldView {
    pub name: Seq<char>,
    pub value: ValueView,
}

impl View for Field {
    type V = FieldView;

    open spec fn view(&self) -> FieldView {
        FieldView { name: self.name@, value: self.value@ }
    }
}

impl DeepView for Field {
    type V = FieldView;

    open spec fn deep_view(&self) -> FieldView {
        self@
    }
}

/// A stored record: a unique identifier plus named fields. This is the
/// record shape every entity's collection holds.
#[derive(Clone, Debug, PartialEq, Eq)]
pub struct Record {
    pub id: u64,
    pub fields: Vec<Field>,
}

/// Spec-level shape of a `Record`.
#[verifier::ext_equal]
pub struct RecordView {
    pub id: u64,
    pub fields: Seq<FieldView>,
}

impl View for Record {
    type V = RecordView;

    open spec fn view(&self) -> RecordView {
        RecordView { id: self.id, fields: self.fields.deep_view() }
    }
}

impl DeepView for Record {
    type V = RecordView;

    open spec fn deep_view(&self) -> RecordView {
        self@
    }
}

/// Decides equality of two values, at the level of their views.
pub fn value_eq(a: &Value, b: &Value) -> (r: bool)
    ensures
        r == (a@ == b@),
{
    match (a, b) {
        (Value::Int(x), Value::Int(y)) => *x == *y,
        (Value::Bool(x), Value::Bool(y)) => *x == *y,
        (Value::Text(x), Value::Text(y)) => *x == *y,
        (Value::Null, Value::Null) => true,
        _ => false,
    }
}

/// Decides equality of two fields, at the level of their views.
pub fn field_eq(a: &Field, b: &Field) -> (r: bool)
    ensures
        r == (a@ == b@),
{
    a.name == b.name && value_eq(&a.value, &b.value)
}

/// Decides equality of two records, at the level of their views.
pub fn record_eq(a: &Record, b: &Record) -> (r: bool)
    ensures
        r == (a@ == b@),
{
    if a.id != b.id {
        return false;
    }
    if a.fields.len() != b.fields.len() {
        proof {
            assert(a@.fields.len() == a.fields@.len());
            assert(b@.fields.len() == b.fields@.len());
        }
        return false;
    }
    let n = a.fields.len();
    let mut i: usize = 0;
    while i < n
        invariant
            n == a.fields.len() == b.fields.len(),
            a.id == b.id,
            i <= n,
            forall|j: int| 0 <= j < i ==> a.fields@[j]@ == b.fields@[j]@,
        decreases n - i,
    {
        if !field_eq(&a.fields[i], &b.fields[i]) {
            assert(a@.fields[i as int] != b@.fields[i as int]);
            return false;
        }
        i = i + 1;
    }
    proof {
        assert(a@.fields =~= b@.fields);
        assert(a@ =~= b@);
    }
    true
}

/// Copies a value; the copy has the same view.
pub fn clone_value(v: &Value) -> (c: Value)
    ensures
        c@ == v@,
{
    match v {
        Value::Int(i) => Value::Int(*i),
        Value::Bool(b) => Value::Bool(*b),
        Value::Text(s) => Value::Text(s.clone()),
        Value::Null => Value::Null,
    }
}

/// Copies a field; the copy has the same view.
pub fn clone_field(f: &Field) -> (c: Field)
    ensures
        c@ == f@,
{
    Field { name: f.name.clone(), value: clone_value(&f.value) }
}

/// Copies a record; the copy has the same view.
pub fn clone_record(r: &Record) -> (c: Record)
    ensures
        c@ == r@,
{
    let n = r.fields.len();
    let mut fields: Vec<Field> = Vec::new();
    let mut i: usize = 0;
    while i < n
        invariant
            n == r.fields.len(),
            i <= n,
            fields.len() == i,
            forall|j: int| 0 <= j < i ==> fields@[j]@ == r.fields@[j]@,
        decreases n - i,
    {
        fields.push(clone_field(&r.fields[i]));
        i = i + 1;
    }
    let c = Record { id: r.id, fields };
    proof {
        assert(c@.fields =~= r@.fields);
        assert(c@ =~= r@);
    }
    c
}

} // verus!
