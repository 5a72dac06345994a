use datastore::aggregate::{GroupRow, Pipeline, Stage};
use datastore::database::{setup, Config, Database, Migration};
use datastore::entities::{Metric, Task};
use datastore::errors::Error;
use datastore::models::ModelExt;
use datastore::query::{Filter, Update, UpdateOp};
use datastore::record::{Field, Record, Value};

fn ready_db() -> Database {
    let mut db = Database::new();
    let cfg = Config { url: "store://primary".to_string(), pool_size: 4, timeout_ms: 500 };
    setup(&mut db, &cfg, &vec![Migration { version: 1 }]).expect("setup");
    db
}

fn rec(id: u64, fields: Vec<(&str, Value)>) -> Record {
    Record {
        id,
        fields: fields
            .into_iter()
            .map(|(n, v)| Field { name: n.to_string(), value: v })
            .collect(),
    }
}

#[test]
fn create_then_find_by_id() {
    let mut db = ready_db();
    let r = rec(7, vec![("count", Value::Int(1))]);
    let stored = Metric::create(&mut db, r.clone()).expect("create");
    assert_eq!(stored, r);
    let found = Metric::find_by_id(&mut db, 7).expect("find_by_id");
    assert_eq!(found, Some(r));
}

#[test]
fn find_by_id_missing_is_none_not_error() {
    let mut db = ready_db();
    Metric::create(&mut db, rec(1, vec![("count", Value::Int(1))])).expect("create");
    let found = Metric::find_by_id(&mut db, 999).expect("absence is not an error");
    assert_eq!(found, None);
}

#[test]
fn create_rejects_invalid_record() {
    let mut db = ready_db();
    let no_title = rec(1, vec![("count", Value::Int(1))]);
    assert_eq!(Task::create(&mut db, no_title), Err(Error::Validation));
    let empty_title = rec(1, vec![("title", Value::Text(String::new()))]);
    assert_eq!(Task::create(&mut db, empty_title), Err(Error::Validation));
    let ok = rec(1, vec![("title", Value::Text("write tests".to_string()))]);
    assert!(Task::create(&mut db, ok).is_ok());
}

#[test]
fn create_rejects_duplicate_id() {
    let mut db = ready_db();
    Metric::create(&mut db, rec(5, vec![("count", Value::Int(1))])).expect("first");
    assert_eq!(
        Metric::create(&mut db, rec(5, vec![("count", Value::Int(2))])),
        Err(Error::Store)
    );
}

#[test]
fn find_one_and_update_returns_post_update_value() {
    let mut db = ready_db();
    Metric::create(&mut db, rec(1, vec![("count", Value::Int(1))])).expect("create");
    let upd = Update { ops: vec![UpdateOp::Inc("count".to_string(), 1)] };
    let after = Metric::find_one_and_update(&mut db, &Filter::IdEq(1), &upd)
        .expect("update")
        .expect("a match");
    assert_eq!(after, rec(1, vec![("count", Value::Int(2))]));
    // The stored record carries the post-update value too.
    assert_eq!(
        Metric::find_by_id(&mut db, 1).expect("find"),
        Some(rec(1, vec![("count", Value::Int(2))]))
    );
}

#[test]
fn find_one_and_update_no_match_is_none() {
    let mut db = ready_db();
    let upd = Update { ops: vec![UpdateOp::Inc("count".to_string(), 1)] };
    let out = Metric::find_one_and_update(&mut db, &Filter::IdEq(42), &upd).expect("no error");
    assert_eq!(out, None);
}

#[test]
fn update_one_touches_first_match_only() {
    let mut db = ready_db();
    Metric::create(&mut db, rec(1, vec![("kind", Value::Int(1)), ("count", Value::Int(0))]))
        .expect("create");
    Metric::create(&mut db, rec(2, vec![("kind", Value::Int(1)), ("count", Value::Int(0))]))
        .expect("create");
    let upd = Update { ops: vec![UpdateOp::Inc("count".to_string(), 3)] };
    let res = Metric::update_one(&mut db, &Filter::FieldEq("kind".to_string(), Value::Int(1)), &upd)
        .expect("update_one");
    assert_eq!(res.matched_count, 1);
    assert_eq!(res.modified_count, 1);
    let first = Metric::find_by_id(&mut db, 1).expect("find").expect("present");
    let second = Metric::find_by_id(&mut db, 2).expect("find").expect("present");
    assert_eq!(first, rec(1, vec![("kind", Value::Int(1)), ("count", Value::Int(3))]));
    assert_eq!(second, rec(2, vec![("kind", Value::Int(1)), ("count", Value::Int(0))]));
}

#[test]
fn update_many_counts_matches_and_changes() {
    let mut db = ready_db();
    Metric::create(&mut db, rec(1, vec![("state", Value::Int(0))])).expect("create");
    Metric::create(&mut db, rec(2, vec![("state", Value::Int(1))])).expect("create");
    Metric::create(&mut db, rec(3, vec![("state", Value::Int(0))])).expect("create");
    let upd = Update { ops: vec![UpdateOp::Assign("state".to_string(), Value::Int(1))] };
    let res = Metric::update_many(&mut db, &Filter::All, &upd).expect("update_many");
    // All three match, but the record already holding the value is unchanged.
    assert_eq!(res.matched_count, 3);
    assert_eq!(res.modified_count, 2);
}

#[test]
fn inc_creates_missing_field_and_leaves_text_alone() {
    let mut db = ready_db();
    Metric::create(&mut db, rec(1, vec![("label", Value::Text("a".to_string()))]))
        .expect("create");
    let upd = Update {
        ops: vec![
            UpdateOp::Inc("hits".to_string(), 2),
            UpdateOp::Inc("label".to_string(), 1),
        ],
    };
    let after = Metric::find_one_and_update(&mut db, &Filter::IdEq(1), &upd)
        .expect("update")
        .expect("match");
    assert_eq!(
        after,
        rec(1, vec![("label", Value::Text("a".to_string())), ("hits", Value::Int(2))])
    );
}

#[test]
fn inc_saturates_at_the_signed_bound() {
    let mut db = ready_db();
    Metric::create(&mut db, rec(1, vec![("count", Value::Int(i64::MAX - 1))])).expect("create");
    let upd = Update { ops: vec![UpdateOp::Inc("count".to_string(), 5)] };
    let after = Metric::find_one_and_update(&mut db, &Filter::IdEq(1), &upd)
        .expect("update")
        .expect("match");
    assert_eq!(after, rec(1, vec![("count", Value::Int(i64::MAX))]));
}

#[test]
fn delete_many_accounting() {
    let mut db = ready_db();
    Metric::create(&mut db, rec(1, vec![("kind", Value::Int(1))])).expect("create");
    Metric::create(&mut db, rec(2, vec![("kind", Value::Int(2))])).expect("create");
    Metric::create(&mut db, rec(3, vec![("kind", Value::Int(1))])).expect("create");
    let f = Filter::FieldEq("kind".to_string(), Value::Int(1));
    let before = Metric::count(&mut db, &Filter::All).expect("count");
    let deleted = Metric::delete_many(&mut db, &f).expect("delete_many").deleted_count;
    let after = Metric::count(&mut db, &Filter::All).expect("count");
    assert_eq!(deleted, 2);
    assert_eq!(before - after, deleted);
    assert_eq!(Metric::count(&mut db, &f).expect("count"), 0);
    assert_eq!(Metric::find_by_id(&mut db, 2).expect("find"), Some(rec(2, vec![("kind", Value::Int(2))])));
}

#[test]
fn delete_one_removes_first_match_only() {
    let mut db = ready_db();
    Metric::create(&mut db, rec(1, vec![("kind", Value::Int(1))])).expect("create");
    Metric::create(&mut db, rec(2, vec![("kind", Value::Int(1))])).expect("create");
    let f = Filter::FieldEq("kind".to_string(), Value::Int(1));
    let res = Metric::delete_one(&mut db, &f).expect("delete_one");
    assert_eq!(res.deleted_count, 1);
    assert_eq!(Metric::find_by_id(&mut db, 1).expect("find"), None);
    assert!(Metric::find_by_id(&mut db, 2).expect("find").is_some());
    let none = Metric::delete_one(&mut db, &Filter::IdEq(77)).expect("delete_one");
    assert_eq!(none.deleted_count, 0);
}

#[test]
fn count_and_exists() {
    let mut db = ready_db();
    assert_eq!(Metric::exists_matching(&mut db, &Filter::All).expect("exists"), false);
    Metric::create(&mut db, rec(1, vec![("kind", Value::Int(1))])).expect("create");
    Metric::create(&mut db, rec(2, vec![("kind", Value::Int(2))])).expect("create");
    assert_eq!(Metric::count(&mut db, &Filter::All).expect("count"), 2);
    let f = Filter::FieldEq("kind".to_string(), Value::Int(2));
    assert_eq!(Metric::count(&mut db, &f).expect("count"), 1);
    assert_eq!(Metric::exists_matching(&mut db, &f).expect("exists"), true);
    assert_eq!(
        Metric::exists_matching(&mut db, &Filter::IdEq(9)).expect("exists"),
        false
    );
}

#[test]
fn find_collects_what_the_cursor_streams() {
    let mut db = ready_db();
    Metric::create(&mut db, rec(1, vec![("kind", Value::Int(1))])).expect("create");
    Metric::create(&mut db, rec(2, vec![("kind", Value::Int(2))])).expect("create");
    Metric::create(&mut db, rec(3, vec![("kind", Value::Int(1))])).expect("create");
    let f = Filter::FieldEq("kind".to_string(), Value::Int(1));
    let eager = Metric::find(&mut db, &f).expect("find");
    let mut cur = Metric::cursor(&mut db, f.clone()).expect("cursor");
    let streamed = cur.collect_all();
    assert_eq!(eager, streamed);
    assert_eq!(eager.len(), 2);

    let mut cur2 = Metric::cursor(&mut db, f).expect("cursor");
    assert_eq!(cur2.next().map(|r| r.id), Some(1));
    assert_eq!(cur2.next().map(|r| r.id), Some(3));
    assert_eq!(cur2.next(), None);
}

#[test]
fn aggregate_groups_and_counts() {
    let mut db = ready_db();
    let a = Value::Text("A".to_string());
    let b = Value::Text("B".to_string());
    Metric::create(&mut db, rec(1, vec![("category", a.clone())])).expect("create");
    Metric::create(&mut db, rec(2, vec![("category", a.clone())])).expect("create");
    Metric::create(&mut db, rec(3, vec![("category", b.clone())])).expect("create");
    let p = Pipeline { stages: vec![Stage::GroupCount("category".to_string())] };
    let rows: Vec<GroupRow> = Metric::aggregate(&mut db, &p).expect("aggregate");
    assert_eq!(rows.len(), 2);
    assert_eq!(rows[0], GroupRow { key: a, count: 2 });
    assert_eq!(rows[1], GroupRow { key: b, count: 1 });
}

#[test]
fn aggregate_match_stage_narrows_groups() {
    let mut db = ready_db();
    Metric::create(&mut db, rec(1, vec![("category", Value::Int(1)), ("kept", Value::Bool(true))]))
        .expect("create");
    Metric::create(&mut db, rec(2, vec![("category", Value::Int(1)), ("kept", Value::Bool(false))]))
        .expect("create");
    Metric::create(&mut db, rec(3, vec![("category", Value::Int(2)), ("kept", Value::Bool(true))]))
        .expect("create");
    let p = Pipeline {
        stages: vec![
            Stage::Match(Filter::FieldEq("kept".to_string(), Value::Bool(true))),
            Stage::GroupCount("category".to_string()),
        ],
    };
    let rows: Vec<GroupRow> = Metric::aggregate(&mut db, &p).expect("aggregate");
    assert_eq!(rows.len(), 2);
    assert_eq!(rows[0], GroupRow { key: Value::Int(1), count: 1 });
    assert_eq!(rows[1], GroupRow { key: Value::Int(2), count: 1 });
}

#[test]
fn aggregate_rejects_group_stage_before_the_end() {
    let mut db = ready_db();
    Metric::create(&mut db, rec(1, vec![("category", Value::Int(1))])).expect("create");
    let p = Pipeline {
        stages: vec![
            Stage::GroupCount("category".to_string()),
            Stage::Match(Filter::All),
        ],
    };
    let out: Result<Vec<GroupRow>, Error> = Metric::aggregate(&mut db, &p);
    assert_eq!(out, Err(Error::Store));
}

#[test]
fn aggregate_decode_mismatch_is_a_decode_error() {
    let mut db = ready_db();
    Metric::create(&mut db, rec(1, vec![("kind", Value::Int(1))])).expect("create");
    // An empty pipeline hands the raw records through; they do not carry
    // the `_id`/`count` shape a GroupRow asks for.
    let p = Pipeline { stages: vec![] };
    let out: Result<Vec<GroupRow>, Error> = Metric::aggregate(&mut db, &p);
    assert_eq!(out, Err(Error::Decode));
}

#[test]
fn aggregate_absent_group_field_is_null_key() {
    let mut db = ready_db();
    Metric::create(&mut db, rec(1, vec![("other", Value::Int(1))])).expect("create");
    let p = Pipeline { stages: vec![Stage::GroupCount("category".to_string())] };
    let rows: Vec<GroupRow> = Metric::aggregate(&mut db, &p).expect("aggregate");
    assert_eq!(rows, vec![GroupRow { key: Value::Null, count: 1 }]);
}

#[test]
fn sync_indexes_is_idempotent() {
    let mut db = ready_db();
    assert_eq!(Task::sync_indexes(&mut db), Ok(()));
    assert_eq!(Task::sync_indexes(&mut db), Ok(()));
    assert_eq!(Metric::sync_indexes(&mut db), Ok(()));
}

#[test]
fn collections_are_separate() {
    let mut db = ready_db();
    Metric::create(&mut db, rec(1, vec![("count", Value::Int(1))])).expect("create");
    Task::create(&mut db, rec(1, vec![("title", Value::Text("t".to_string()))]))
        .expect("create");
    assert_eq!(Metric::count(&mut db, &Filter::All).expect("count"), 1);
    assert_eq!(Task::count(&mut db, &Filter::All).expect("count"), 1);
    Metric::delete_many(&mut db, &Filter::All).expect("delete");
    assert_eq!(Task::count(&mut db, &Filter::All).expect("count"), 1);
}
