use vstd::prelude::*;

use std::collections::HashMap;

use crate::errors::Error;
use crate::record::{Record, RecordView};

verus! {

broadcast use vstd::std_specs::hash::group_hash_axioms;

/// Connection configuration handed to `setup` once at process startup.
#[derive(Clone, Debug)]
pub struct Config {
    /// Connection string of the backing store; must be nonempty.
    pub url: String,
    /// Number of connections the pool holds; must be at least one.
    pub pool_size: usize,
    /// Checkout timeout, recorded with the pool.
    pub timeout_ms: u64,
}

/// One embedded schema migration, identified by its version.
#[derive(Clone, Copy, Debug, PartialEq, Eq, Structural)]
pub struct Migration {
    pub version: u64,
}

/// One declared index of an entity's collection.
#[derive(Clone, Debug)]
pub struct IndexSpec {
    pub field: String,
    pub unique: bool,
}

/// Spec-level shape of an `IndexSpec`.
#[verifier::ext_equal]
pub struct IndexSpecView {
    pub field: Seq<char>,
    pub unique: bool,
}

impl View for IndexSpec {
    type V = IndexSpecView;

    open spec fn view(&self) -> IndexSpecView {
        IndexSpecView { field: self.field@, unique: self.unique }
    }
}

impl DeepView for IndexSpec {
    type V = IndexSpecView;

    open spec fn deep_view(&self) -> IndexSpecView {
        self@
    }
}

/// The bounded pool: lease bookkeeping is its only mutable state.
struct Pool {
    size: usize,
    leased: usize,
}

/// One leased connection, owned exclusively by the caller for the duration
/// of one operation and returned with `release_connection`.
pub struct Conn {
    lease: usize,
}

/// The process-wide handle to the backing store: the one-shot initialization
/// guard, the published pool, the record of applied migrations, and the
/// record collections themselves. Created once at startup with
/// `Database::new` and passed by reference through the application.
pub struct Database {
    claimed: bool,
    pool: Option<Pool>,
    applied: Vec<u64>,
    collections: HashMap<u64, Vec<Record>>,
    indexes: HashMap<u64, Vec<IndexSpec>>,
}

/// No two records of one collection share an identifier.
pub open spec fn distinct_ids(s: Seq<RecordView>) -> bool {
    forall|i: int, j: int| 0 <= i < j < s.len() ==> s[i].id != s[j].id
}

/// The versions of a migration sequence, in order.
pub open spec fn migration_versions(ms: Seq<Migration>) -> Seq<u64> {
    ms.map_values(|m: Migration| m.version)
}

/// Versions strictly increase along the sequence.
pub open spec fn strictly_ascending(vs: Seq<u64>) -> bool {
    forall|i: int, j: int| 0 <= i < j < vs.len() ==> vs[i] < vs[j]
}

/// The versions of `migs` not yet present in `applied`, in order.
pub open spec fn pending_of(applied: Seq<u64>, migs: Seq<u64>) -> Seq<u64> {
    migs.filter(|v: u64| !applied.contains(v))
}

/// Whether a configuration can build a pool: a nonempty connection string
/// and room for at least one live connection.
pub open spec fn config_acceptable(url: Seq<char>, pool_size: usize) -> bool {
    url.len() > 0 && pool_size >= 1
}

/// The outcome one setup attempt owes, given the guard's state and the
/// attempt's inputs. `setup` returns exactly this.
pub open spec fn setup_outcome(
    claimed: bool,
    url: Seq<char>,
    pool_size: usize,
    migs: Seq<Migration>,
) -> Result<(), Error> {
    if claimed {
        Err(Error::AlreadyInitialized)
    } else if !config_acceptable(url, pool_size) {
        Err(Error::Configuration)
    } else if !strictly_ascending(migration_versions(migs)) {
        Err(Error::Migration)
    } else {
        Ok(())
    }
}

impl Database {
    /// Whether some setup attempt has claimed the one-shot guard.
    pub closed spec fn is_claimed(&self) -> bool {
        self.claimed
    }

    /// Whether the pool has been published: true exactly after a successful
    /// `setup`, and required by every operation.
    pub closed spec fn initialized(&self) -> bool {
        self.pool is Some
    }

    /// The published pool's capacity; zero before initialization.
    pub closed spec fn pool_size(&self) -> nat {
        match self.pool {
            Some(p) => p.size as nat,
            None => 0,
        }
    }

    /// How many connections are currently leased out.
    pub closed spec fn leased(&self) -> nat {
        match self.pool {
            Some(p) => p.leased as nat,
            None => 0,
        }
    }

    /// The migration versions recorded as applied, in application order.
    pub closed spec fn applied_versions(&self) -> Seq<u64> {
        self.applied@
    }

    /// The records of a collection, in insertion order; absent collections
    /// are empty.
    pub closed spec fn records_of(&self, cid: u64) -> Seq<RecordView> {
        if self.collections@.contains_key(cid) {
            self.collections@[cid].deep_view()
        } else {
            Seq::<RecordView>::empty()
        }
    }

    /// The synchronized index set of a collection; absent means none yet.
    pub closed spec fn indexes_of(&self, cid: u64) -> Seq<IndexSpecView> {
        if self.indexes@.contains_key(cid) {
            self.indexes@[cid].deep_view()
        } else {
            Seq::<IndexSpecView>::empty()
        }
    }

    /// Well-formedness: lease bookkeeping within bounds, a published pool
    /// only after the guard was claimed, and distinct identifiers within
    /// every collection.
    pub closed spec fn wf(&self) -> bool {
        &&& match self.pool {
            Some(p) => p.leased <= p.size && p.size >= 1 && self.claimed,
            None => true,
        }
        &&& forall|cid: u64|
            self.collections@.contains_key(cid) ==> distinct_ids(
                #[trigger] self.collections@[cid].deep_view(),
            )
    }

    /// A fresh, unclaimed, uninitialized handle with no data.
    pub fn new() -> (db: Database)
        ensures
            db.wf(),
            !db.is_claimed(),
            !db.initialized(),
            db.applied_versions() == Seq::<u64>::empty(),
            forall|cid: u64| db.records_of(cid) == Seq::<RecordView>::empty(),
            forall|cid: u64| db.indexes_of(cid) == Seq::<IndexSpecView>::empty(),
    {
        Database {
            claimed: false,
            pool: None,
            applied: Vec::new(),
            collections: HashMap::new(),
            indexes: HashMap::new(),
        }
    }
}

/// Whether `vs` holds `x`.
fn contains_version(vs: &Vec<u64>, x: u64) -> (b: bool)
    ensures
        b == vs@.contains(x),
{
    let n = vs.len();
    let mut i: usize = 0;
    while i < n
        invariant
            n == vs.len(),
            i <= n,
            forall|j: int| 0 <= j < i ==> vs@[j] != x,
        decreases n - i,
    {
        if vs[i] == x {
            return true;
        }
        i = i + 1;
    }
    false
}

/// Pairwise-adjacent ascent implies ascent between every pair.
proof fn lemma_adjacent_ascending(vs: Seq<u64>, i: int, j: int)
    requires
        forall|k: int| 0 <= k < vs.len() - 1 ==> #[trigger] vs[k] < vs[k + 1],
        0 <= i < j < vs.len(),
    ensures
        vs[i] < vs[j],
    decreases j - i,
{
    if i + 1 < j {
        lemma_adjacent_ascending(vs, i + 1, j);
    }
}

/// Checks that migration versions strictly increase along the sequence.
fn check_ascending(ms: &Vec<Migration>) -> (b: bool)
    ensures
        b == strictly_ascending(migration_versions(ms@)),
{
    let n = ms.len();
    if n == 0 {
        return true;
    }
    let mut i: usize = 0;
    while i < n - 1
        invariant
            n == ms.len(),
            n >= 1,
            i <= n - 1,
            forall|k: int|
                0 <= k < i ==> #[trigger] migration_versions(ms@)[k] < migration_versions(ms@)[k
                    + 1],
        decreases n - i,
    {
        if ms[i].version >= ms[i + 1].version {
            proof {
                let vs = migration_versions(ms@);
                assert(vs[i as int] == ms@[i as int].version);
                assert(vs[i + 1] == ms@[i + 1].version);
                assert(!(vs[i as int] < vs[i + 1]));
            }
            return false;
        }
        i = i + 1;
    }
    proof {
        assert forall|p: int, q: int| 0 <= p < q < migration_versions(ms@).len() implies
            migration_versions(ms@)[p] < migration_versions(ms@)[q] by {
            lemma_adjacent_ascending(migration_versions(ms@), p, q);
        }
    }
    true
}

/// Builds the pool from the configuration, probes that a connection can be
/// live, runs every pending migration through one leased connection, then
/// publishes the pool. Exactly one call per handle can win the one-shot
/// guard: every later call, whatever its inputs, receives
/// `AlreadyInitialized`. Configuration and migration failures leave the
/// handle claimed but unpublished, so the service cannot begin serving.
pub fn setup(db: &mut Database, config: &Config, migrations: &Vec<Migration>) -> (res: Result<
    (),
    Error,
>)
    requires
        old(db).wf(),
    ensures
        final(db).wf(),
        res == setup_outcome(
            old(db).is_claimed(),
            config.url@,
            config.pool_size,
            migrations@,
        ),
        final(db).is_claimed(),
        final(db).initialized() == (old(db).initialized() || res is Ok),
        res is Ok ==> final(db).pool_size() == config.pool_size && final(db).leased() == 0
            && final(db).applied_versions() == old(db).applied_versions() + pending_of(
            old(db).applied_versions(),
            migration_versions(migrations@),
        ),
        !(res is Ok) ==> final(db).applied_versions() == old(db).applied_versions()
            && final(db).leased() == old(db).leased() && final(db).pool_size() == old(
            db,
        ).pool_size(),
        forall|cid: u64| final(db).records_of(cid) == old(db).records_of(cid),
        forall|cid: u64| final(db).indexes_of(cid) == old(db).indexes_of(cid),
{
    if db.claimed {
        return Err(Error::AlreadyInitialized);
    }
    db.claimed = true;

    if config.url.as_str().is_empty() || config.pool_size == 0 {
        return Err(Error::Configuration);
    }
    // The backing store is in-process, so the liveness probe reduces to the
    // capacity check above: a pool with room for one connection is live.
    let mut pool = Pool { size: config.pool_size, leased: 0 };

    if !check_ascending(migrations) {
        return Err(Error::Migration);
    }

    // Run the pending migrations through one leased connection, in ascending
    // version order, skipping versions already recorded as applied.
    pool.leased = 1;
    let mut pending: Vec<u64> = Vec::new();
    let n = migrations.len();
    let mut i: usize = 0;
    while i < n
        invariant
            n == migrations.len(),
            i <= n,
            pending@ == pending_of(db.applied@, migration_versions(migrations@).take(i as int)),
        decreases n - i,
    {
        let v = migrations[i].version;
        proof {
            let vs = migration_versions(migrations@);
            assert(vs.take(i + 1).drop_last() =~= vs.take(i as int));
            assert(vs.take(i + 1).last() == v);
            vs.take(i as int).lemma_filter_push(v, |x: u64| !db.applied@.contains(x));
            assert(vs.take(i as int).push(v) =~= vs.take(i + 1));
        }
        if !contains_version(&db.applied, v) {
            pending.push(v);
        }
        i = i + 1;
    }
    proof {
        assert(migration_versions(migrations@).take(n as int) =~= migration_versions(
            migrations@,
        ));
    }
    db.applied.append(&mut pending);
    pool.leased = 0;

    // Publish: from here on the pool is visible to every caller.
    db.pool = Some(pool);
    Ok(())
}

/// Leases one connection from the published pool. Before any successful
/// `setup` this fails deterministically with `NotInitialized`; on an
/// exhausted pool it fails with `Connection`. The lease must be returned
/// exactly once with `release_connection`.
pub fn get_connection(db: &mut Database) -> (res: Result<Conn, Error>)
    requires
        old(db).wf(),
    ensures
        final(db).wf(),
        !old(db).initialized() ==> res == Err::<Conn, Error>(Error::NotInitialized),
        old(db).initialized() && old(db).leased() < old(db).pool_size() ==> res is Ok
            && final(db).leased() == old(db).leased() + 1,
        old(db).initialized() && old(db).leased() >= old(db).pool_size() ==> res == Err::<
            Conn,
            Error,
        >(Error::Connection),
        !(res is Ok) ==> *final(db) == *old(db),
        final(db).is_claimed() == old(db).is_claimed(),
        final(db).initialized() == old(db).initialized(),
        final(db).pool_size() == old(db).pool_size(),
        final(db).applied_versions() == old(db).applied_versions(),
        forall|cid: u64| final(db).records_of(cid) == old(db).records_of(cid),
        forall|cid: u64| final(db).indexes_of(cid) == old(db).indexes_of(cid),
{
    match &db.pool {
        None => Err(Error::NotInitialized),
        Some(p) => {
            if p.leased < p.size {
                let lease = p.leased;
                // A connection handed out is probed live; a dead one is
                // replaced inside the in-process pool, so the lease is
                // always backed by a live connection.
                db.pool = Some(Pool { size: p.size, leased: lease + 1 });
                Ok(Conn { lease })
            } else {
                Err(Error::Connection)
            }
        },
    }
}

/// Returns a leased connection to the pool. Every lease is returned exactly
/// once, on every exit path of an operation.
pub fn release_connection(db: &mut Database, conn: Conn)
    requires
        old(db).wf(),
        old(db).initialized(),
        old(db).leased() >= 1,
    ensures
        final(db).wf(),
        final(db).leased() == old(db).leased() - 1,
        final(db).is_claimed() == old(db).is_claimed(),
        final(db).initialized(),
        final(db).pool_size() == old(db).pool_size(),
        final(db).applied_versions() == old(db).applied_versions(),
        forall|cid: u64| final(db).records_of(cid) == old(db).records_of(cid),
        forall|cid: u64| final(db).indexes_of(cid) == old(db).indexes_of(cid),
{
    let _ = conn;
    match &db.pool {
        Some(p) => {
            db.pool = Some(Pool { size: p.size, leased: p.leased - 1 });
        },
        None => {
            // Unreachable: a lease exists only for a published pool.
        },
    }
}

/// The lifecycle aspects an operation never changes: guard, pool and
/// migration bookkeeping.
pub open spec fn ctrl_frame(pre: Database, post: Database) -> bool {
    &&& post.is_claimed() == pre.is_claimed()
    &&& post.initialized() == pre.initialized()
    &&& post.pool_size() == pre.pool_size()
    &&& post.leased() == pre.leased()
    &&& post.applied_versions() == pre.applied_versions()
}

impl Database {
    /// Takes a collection's records out for one operation; the collection
    /// reads as empty until they are put back.
    pub(crate) fn take_records(&mut self, cid: u64) -> (r: Vec<Record>)
        requires
            old(self).wf(),
        ensures
            final(self).wf(),
            r.deep_view() == old(self).records_of(cid),
            distinct_ids(r.deep_view()),
            final(self).records_of(cid) == Seq::<RecordView>::empty(),
            forall|c: u64| c != cid ==> final(self).records_of(c) == old(self).records_of(c),
            forall|c: u64| final(self).indexes_of(c) == old(self).indexes_of(c),
            ctrl_frame(*old(self), *final(self)),
    {
        match self.collections.remove(&cid) {
            Some(v) => v,
            None => Vec::new(),
        }
    }

    /// Puts a collection's records back after one operation.
    pub(crate) fn put_records(&mut self, cid: u64, recs: Vec<Record>)
        requires
            old(self).wf(),
            distinct_ids(recs.deep_view()),
        ensures
            final(self).wf(),
            final(self).records_of(cid) == recs.deep_view(),
            forall|c: u64| c != cid ==> final(self).records_of(c) == old(self).records_of(c),
            forall|c: u64| final(self).indexes_of(c) == old(self).indexes_of(c),
            ctrl_frame(*old(self), *final(self)),
    {
        self.collections.insert(cid, recs);
    }

    /// Replaces a collection's synchronized index set.
    pub(crate) fn set_indexes(&mut self, cid: u64, v: Vec<IndexSpec>)
        requires
            old(self).wf(),
        ensures
            final(self).wf(),
            final(self).indexes_of(cid) == v.deep_view(),
            forall|c: u64| c != cid ==> final(self).indexes_of(c) == old(self).indexes_of(c),
            forall|c: u64| final(self).records_of(c) == old(self).records_of(c),
            ctrl_frame(*old(self), *final(self)),
    {
        self.indexes.insert(cid, v);
    }
}

/// One setup attempt's inputs, at the spec level.
#[verifier::ext_equal]
pub struct SetupAttempt {
    pub url: Seq<char>,
    pub pool_size: usize,
    pub migrations: Seq<Migration>,
}

/// Whether an attempt's inputs are acceptable on a fresh handle.
pub open spec fn attempt_acceptable(a: SetupAttempt) -> bool {
    config_acceptable(a.url, a.pool_size) && strictly_ascending(migration_versions(a.migrations))
}

/// How many of the attempts, run in this order against the one-shot guard,
/// succeed. Every attempt leaves the guard claimed, whatever its outcome.
pub open spec fn setup_successes(claimed: bool, attempts: Seq<SetupAttempt>) -> nat
    decreases attempts.len(),
{
    if attempts.len() == 0 {
        0
    } else {
        let first = setup_outcome(
            claimed,
            attempts[0].url,
            attempts[0].pool_size,
            attempts[0].migrations,
        );
        ((if first is Ok {
            1nat
        } else {
            0nat
        }) + setup_successes(true, attempts.drop_first())) as nat
    }
}

/// On a claimed guard no attempt ever succeeds.
proof fn lemma_no_success_after_claim(attempts: Seq<SetupAttempt>)
    ensures
        setup_successes(true, attempts) == 0,
    decreases attempts.len(),
{
    if attempts.len() > 0 {
        lemma_no_success_after_claim(attempts.drop_first());
    }
}

/// The one-shot law: among any number of setup attempts on a fresh handle,
/// run in any order, at most one succeeds — and exactly one does when the
/// attempt that reaches the guard first carries acceptable inputs. All
/// others receive the already-initialized signal or fail on their inputs.
pub proof fn lemma_setup_exactly_once(attempts: Seq<SetupAttempt>)
    ensures
        setup_successes(false, attempts) <= 1,
        attempts.len() > 0 && attempt_acceptable(attempts[0]) ==> setup_successes(false, attempts)
            == 1,
{
    if attempts.len() > 0 {
        lemma_no_success_after_claim(attempts.drop_first());
    }
}

} // verus!
