use vstd::prelude::*;

use crate::database::{IndexSpec, IndexSpecView};
use crate::models::ModelExt;
use crate::query::{find_field_index, lookup_field};
use crate::record::{Record, RecordView, Value, ValueView};

verus! {

/// An entity with a real constraint: a task record must carry a nonempty
/// `title` text field. Its collection declares one unique index on `title`.
pub struct Task;

impl ModelExt for Task {
    open spec fn spec_collection() -> u64 {
        1
    }

    open spec fn spec_valid(r: RecordView) -> bool {
        match lookup_field(r.fields, "title"@) {
            Some(ValueView::Text(t)) => t.len() > 0,
            _ => false,
        }
    }

    open spec fn spec_indexes() -> Seq<IndexSpecView> {
        seq![IndexSpecView { field: "title"@, unique: true }]
    }

    fn collection() -> u64 {
        1
    }

    fn validate(r: &Record) -> (b: bool) {
        let name = "title".to_owned();
        match find_field_index(&r.fields, &name) {
            Some(i) => match &r.fields[i].value {
                Value::Text(t) => !t.as_str().is_empty(),
                _ => false,
            },
            None => false,
        }
    }

    fn indexes() -> (v: Vec<IndexSpec>) {
        let mut v: Vec<IndexSpec> = Vec::new();
        v.push(IndexSpec { field: "title".to_owned(), unique: true });
        proof {
            assert(v.deep_view() =~= Task::spec_indexes());
        }
        v
    }
}

/// An unconstrained entity: any record shape is accepted, and no indexes
/// are declared.
pub struct Metric;

impl ModelExt for Metric {
    open spec fn spec_collection() -> u64 {
        2
    }

    open spec fn spec_valid(r: RecordView) -> bool {
        true
    }

    open spec fn spec_indexes() -> Seq<IndexSpecView> {
        Seq::<IndexSpecView>::empty()
    }

    fn collection() -> u64 {
        2
    }

    fn validate(r: &Record) -> (b: bool) {
        true
    }

    fn indexes() -> (v: Vec<IndexSpec>) {
        let v: Vec<IndexSpec> = Vec::new();
        proof {
            assert(v.deep_view() =~= Metric::spec_indexes());
        }
        v
    }
}

} // verus!
