use datastore::database::{get_connection, release_connection, setup, Config, Database, Migration};
use datastore::entities::Metric;
use datastore::errors::Error;
use datastore::models::ModelExt;
use datastore::query::Filter;

fn valid_config() -> Config {
    Config { url: "store://primary".to_string(), pool_size: 4, timeout_ms: 500 }
}

fn migrations() -> Vec<Migration> {
    vec![Migration { version: 1 }, Migration { version: 2 }, Migration { version: 5 }]
}

#[test]
fn setup_succeeds_exactly_once() {
    let mut db = Database::new();
    assert_eq!(setup(&mut db, &valid_config(), &migrations()), Ok(()));
    assert_eq!(setup(&mut db, &valid_config(), &migrations()), Err(Error::AlreadyInitialized));
    assert_eq!(setup(&mut db, &valid_config(), &migrations()), Err(Error::AlreadyInitialized));
}

#[test]
fn get_connection_before_setup_fails_every_time() {
    let mut db = Database::new();
    for _ in 0..3 {
        match get_connection(&mut db) {
            Err(e) => assert_eq!(e, Error::NotInitialized),
            Ok(_) => panic!("leased a connection before setup"),
        }
    }
}

#[test]
fn setup_rejects_empty_url() {
    let mut db = Database::new();
    let cfg = Config { url: String::new(), pool_size: 4, timeout_ms: 500 };
    assert_eq!(setup(&mut db, &cfg, &migrations()), Err(Error::Configuration));
    // The guard is claimed and the pool unpublished: startup must abort.
    match get_connection(&mut db) {
        Err(e) => assert_eq!(e, Error::NotInitialized),
        Ok(_) => panic!("leased a connection from an unpublished pool"),
    }
    assert_eq!(setup(&mut db, &valid_config(), &migrations()), Err(Error::AlreadyInitialized));
}

#[test]
fn setup_rejects_zero_pool() {
    let mut db = Database::new();
    let cfg = Config { url: "store://primary".to_string(), pool_size: 0, timeout_ms: 500 };
    assert_eq!(setup(&mut db, &cfg, &migrations()), Err(Error::Configuration));
}

#[test]
fn setup_rejects_unordered_migrations() {
    let mut db = Database::new();
    let bad = vec![Migration { version: 3 }, Migration { version: 2 }];
    assert_eq!(setup(&mut db, &valid_config(), &bad), Err(Error::Migration));
    match get_connection(&mut db) {
        Err(e) => assert_eq!(e, Error::NotInitialized),
        Ok(_) => panic!("leased a connection after a failed migration run"),
    }
}

#[test]
fn setup_rejects_duplicate_migration_versions() {
    let mut db = Database::new();
    let bad = vec![Migration { version: 2 }, Migration { version: 2 }];
    assert_eq!(setup(&mut db, &valid_config(), &bad), Err(Error::Migration));
}

#[test]
fn pool_exhaustion_and_release() {
    let mut db = Database::new();
    let cfg = Config { url: "store://primary".to_string(), pool_size: 1, timeout_ms: 500 };
    assert_eq!(setup(&mut db, &cfg, &migrations()), Ok(()));
    let conn = get_connection(&mut db).expect("one connection fits");
    match get_connection(&mut db) {
        Err(e) => assert_eq!(e, Error::Connection),
        Ok(_) => panic!("leased past the pool's size"),
    }
    release_connection(&mut db, conn);
    let conn2 = get_connection(&mut db).expect("released lease is available again");
    release_connection(&mut db, conn2);
}

#[test]
fn many_setup_attempts_one_winner() {
    // The one-shot race, run to a sequential schedule: however many
    // attempts arrive, exactly one wins, and the pool ends initialized,
    // observable through one successful lease.
    let mut db = Database::new();
    let mut successes = 0;
    for _ in 0..8 {
        if setup(&mut db, &valid_config(), &migrations()).is_ok() {
            successes += 1;
        }
    }
    assert_eq!(successes, 1);
    let conn = get_connection(&mut db).expect("the pool is initialized exactly once");
    release_connection(&mut db, conn);
}

#[test]
fn operations_before_setup_fail() {
    let mut db = Database::new();
    assert_eq!(Metric::count(&mut db, &Filter::All), Err(Error::NotInitialized));
}
