//! Opening the archive database: version checks before any change, then the tables and
//! the triggers that advance the workspace clock.
use vstd::prelude::*;
use rusqlite::{Connection, Transaction};
use crate::text::owned;
use crate::sync::{install_statements, strings_view, sync_statements};

verus! {

#[verifier::external_type_specification]
#[verifier::external_body]
pub struct ExConnection(Connection);

#[verifier::external_type_specification]
#[verifier::external_body]
pub struct ExTransaction<'conn>(Transaction<'conn>);

#[verifier::external_type_specification]
#[verifier::external_body]
pub struct ExSqlError(rusqlite::Error);

/// The schema version this archive writes.
pub const VERSION: i32 = 2;

/// The SQLite application id of the archive: `LRPL`.
pub const APPLICATION_ID: i32 = 0x4c52504c;

/// What the version pragmas say about a database file.
#[derive(Clone, Copy, PartialEq, Eq, Structural, Debug)]
pub enum SchemaState {
    /// Never initialized: both pragmas are zero.
    Fresh,
    /// Written by this schema version of the archive.
    Current,
    /// Anything else; it is left untouched.
    Unsupported,
}

pub open spec fn spec_classify(version: i32, application: i32) -> SchemaState {
    if version == 0 && application == 0 {
        SchemaState::Fresh
    } else if version == VERSION && application == APPLICATION_ID {
        SchemaState::Current
    } else {
        SchemaState::Unsupported
    }
}

/// Classifies a database by its `user_version` and `application_id` pragmas.
pub fn classify(version: i32, application: i32) -> (r: SchemaState)
    ensures
        r == spec_classify(version, application),
{
    if version == 0 && application == 0 {
        SchemaState::Fresh
    } else if version != VERSION || application != APPLICATION_ID {
        SchemaState::Unsupported
    } else {
        SchemaState::Current
    }
}

/// The outcome of the checks that run before anything is written: whether the database may
/// be opened, given its state and what the queries about its contents returned. A fresh file
/// must be empty; a current one must hold its singleton rows.
pub open spec fn spec_admission(state: SchemaState, populated: bool, initialized: bool) -> Result<(), Seq<char>> {
    match state {
        SchemaState::Fresh => if populated {
            Err("archive.unsupportedSchema"@)
        } else {
            Ok(())
        },
        SchemaState::Unsupported => Err("archive.unsupportedSchema"@),
        SchemaState::Current => if initialized {
            Ok(())
        } else {
            Err("archive.invalidSchema"@)
        },
    }
}

/// The error code of every storage failure.
pub fn sql(_error: rusqlite::Error) -> (r: String)
    ensures
        r@ == "library.storageError"@,
{
    owned("library.storageError")
}

/// `Connection::pragma_query_value` reading the integer value of a pragma.
#[verifier::external_body]
fn pragma_value(connection: &Connection, name: &str) -> Result<i32, rusqlite::Error> {
    connection.pragma_query_value(None, name, |row| row.get(0))
}

/// `Connection::query_row` reading the boolean in the first column of the only row.
#[verifier::external_body]
fn query_flag(connection: &Connection, sql: &str) -> Result<bool, rusqlite::Error> {
    connection.query_row(sql, [], |row| row.get(0))
}

/// `Connection::busy_timeout`, which panics beyond `i32::MAX` milliseconds.
#[verifier::external_body]
fn busy_timeout(connection: &Connection, seconds: u64) -> Result<(), rusqlite::Error>
    requires
        seconds * 1000 <= i32::MAX,
{
    connection.busy_timeout(std::time::Duration::from_secs(seconds))
}

/// `Connection::execute_batch`.
#[verifier::external_body]
fn execute_batch(connection: &Connection, sql: &str) -> Result<(), rusqlite::Error> {
    connection.execute_batch(sql)
}

/// `Connection::transaction`. A transaction that is dropped uncommitted rolls back.
#[verifier::external_body]
fn begin(connection: &mut Connection) -> Result<Transaction<'_>, rusqlite::Error> {
    connection.transaction()
}

/// `Connection::execute_batch` inside a transaction.
#[verifier::external_body]
fn tx_execute_batch(tx: &Transaction<'_>, sql: &str) -> Result<(), rusqlite::Error> {
    tx.execute_batch(sql)
}

/// `Connection::pragma_update` with an integer value, inside a transaction.
#[verifier::external_body]
fn tx_pragma_update(tx: &Transaction<'_>, name: &str, value: i32) -> Result<(), rusqlite::Error> {
    tx.pragma_update(None, name, value)
}

/// `Transaction::commit`.
#[verifier::external_body]
fn commit(tx: Transaction<'_>) -> Result<(), rusqlite::Error> {
    tx.commit()
}

/// The connection settings every admitted archive gets: write-ahead logging, full
/// synchronisation and enforced foreign keys.
pub open spec fn settings_batch() -> Seq<char> {
    "PRAGMA journal_mode=WAL; PRAGMA synchronous=FULL; PRAGMA foreign_keys=ON;"@
}

/// How long a connection waits for a lock held elsewhere, in seconds.
pub const BUSY_SECONDS: u64 = 3;

/// What opening does to a file once its checks have passed, in order: wait up to
/// `busy_seconds` for locks, apply `settings`, then create the schema when `create` is set.
pub struct OpenPlan {
    pub busy_seconds: u64,
    pub settings: String,
    pub create: bool,
}

/// The plan for opening a database in `state`, given what the content queries returned:
/// refused exactly as `admission` refuses, and otherwise the busy timeout, the settings, and
/// the schema for a fresh file only. Nothing is written to a refused file.
pub fn open_steps(state: SchemaState, populated: bool, initialized: bool) -> (r: Result<OpenPlan, String>)
    ensures
        match r {
            Ok(p) => spec_admission(state, populated, initialized) is Ok && p.busy_seconds == BUSY_SECONDS
                && p.settings@ == settings_batch() && p.create == (state == SchemaState::Fresh),
            Err(e) => spec_admission(state, populated, initialized) == Err::<(), Seq<char>>(e@),
        },
{
    admission(state, populated, initialized)?;
    Ok(OpenPlan {
        busy_seconds: BUSY_SECONDS,
        settings: owned("PRAGMA journal_mode=WAL; PRAGMA synchronous=FULL; PRAGMA foreign_keys=ON;"),
        create: state == SchemaState::Fresh,
    })
}

/// The statements that create a schema from `ddl`, in order: the tables, then the workspace
/// clock and its triggers.
pub fn create_steps(ddl: &str) -> (r: Vec<String>)
    ensures
        strings_view(r@) == seq![ddl@] + sync_statements(),
{
    let mut r: Vec<String> = Vec::new();
    r.push(owned(ddl));
    let rest = install_statements();
    let mut i: usize = 0;
    while i < rest.len()
        invariant
            i <= rest@.len(),
            r@.len() == i + 1,
            strings_view(r@) == seq![ddl@] + strings_view(rest@).take(i as int),
        decreases rest.len() - i,
    {
        let ghost prev = r@;
        let x = owned(rest[i].as_str());
        r.push(x);
        i = i + 1;
        assert forall|k: int| 0 <= k < r@.len() implies #[trigger] strings_view(r@)[k] == (seq![ddl@] + strings_view(rest@).take(i as int))[k] by {
            if k < prev.len() {
                assert(r@[k] == prev[k]);
                assert(strings_view(prev)[k] == (seq![ddl@] + strings_view(rest@).take(i - 1))[k]);
            } else {
                assert(r@[k] == x);
                assert(strings_view(rest@)[i - 1] == rest@[i - 1]@);
            }
        }
        assert(strings_view(r@) =~= seq![ddl@] + strings_view(rest@).take(i as int));
    }
    assert(strings_view(rest@).take(rest@.len() as int) =~= strings_view(rest@));
    r
}

/// The version stamps a created schema gets, in order: the application id, then the schema
/// version.
pub fn version_pragmas() -> (r: Vec<(&'static str, i32)>)
    ensures
        r@.len() == 2,
        r@[0].0@ == "application_id"@ && r@[0].1 == APPLICATION_ID,
        r@[1].0@ == "user_version"@ && r@[1].1 == VERSION,
{
    let mut r: Vec<(&'static str, i32)> = Vec::new();
    r.push(("application_id", APPLICATION_ID));
    r.push(("user_version", VERSION));
    r
}

/// Opens the archive database. It reads the `user_version` and `application_id` pragmas and,
/// by the state they give (`classify`), what the file holds; a file that `open_steps` refuses
/// is left as it was; otherwise it carries out the plan: busy timeout, settings, and for a
/// fresh file `create` with `SCHEMA`.
pub fn open(connection: &mut Connection) -> (r: Result<(), String>)
    ensures
        r matches Err(e) ==> (e@ == "library.storageError"@ || e@ == "archive.unsupportedSchema"@ || e@
            == "archive.invalidSchema"@),
{
    let version = match pragma_value(connection, "user_version") {
        Ok(v) => v,
        Err(e) => return Err(sql(e)),
    };
    let application = match pragma_value(connection, "application_id") {
        Ok(v) => v,
        Err(e) => return Err(sql(e)),
    };
    let state = classify(version, application);
    let (populated, initialized) = match state {
        SchemaState::Fresh => {
            match query_flag(
                connection,
                "SELECT EXISTS(SELECT 1 FROM sqlite_schema WHERE name NOT LIKE 'sqlite_%')",
            ) {
                Ok(v) => (v, false),
                Err(e) => return Err(sql(e)),
            }
        },
        SchemaState::Current => {
            match query_flag(
                connection,
                "SELECT EXISTS(SELECT 1 FROM user_state WHERE id=1) AND EXISTS(SELECT 1 FROM workspace_clock WHERE id=1)",
            ) {
                Ok(v) => (false, v),
                Err(_) => return Err(owned("archive.invalidSchema")),
            }
        },
        SchemaState::Unsupported => (false, false),
    };
    let plan = open_steps(state, populated, initialized)?;
    if let Err(e) = busy_timeout(connection, plan.busy_seconds) {
        return Err(sql(e));
    }
    if let Err(e) = execute_batch(connection, plan.settings.as_str()) {
        return Err(sql(e));
    }
    if plan.create {
        create(connection, SCHEMA)?;
    }
    Ok(())
}

/// Whether a database in `state` may be opened, given what the content queries returned.
pub fn admission(state: SchemaState, populated: bool, initialized: bool) -> (r: Result<(), String>)
    ensures
        match r {
            Ok(()) => spec_admission(state, populated, initialized) is Ok,
            Err(e) => spec_admission(state, populated, initialized) == Err::<(), Seq<char>>(e@),
        },
{
    match state {
        SchemaState::Fresh => if populated {
            Err(owned("archive.unsupportedSchema"))
        } else {
            Ok(())
        },
        SchemaState::Unsupported => Err(owned("archive.unsupportedSchema")),
        SchemaState::Current => if initialized {
            Ok(())
        } else {
            Err(owned("archive.invalidSchema"))
        },
    }
}

/// Creates the schema in one transaction: it runs `create_steps(ddl)` in order, stamps
/// `version_pragmas()`, and commits; any failure rolls everything back.
pub fn create(connection: &mut Connection, ddl: &str) -> (r: Result<(), String>)
    ensures
        r matches Err(e) ==> e@ == "library.storageError"@,
{
    let tx = match begin(connection) {
        Ok(tx) => tx,
        Err(e) => return Err(sql(e)),
    };
    let statements = create_steps(ddl);
    let mut i: usize = 0;
    while i < statements.len()
        decreases statements.len() - i,
    {
        if let Err(e) = tx_execute_batch(&tx, statements[i].as_str()) {
            return Err(sql(e));
        }
        i = i + 1;
    }
    let pragmas = version_pragmas();
    let mut k: usize = 0;
    while k < pragmas.len()
        decreases pragmas.len() - k,
    {
        let (name, value) = pragmas[k];
        if let Err(e) = tx_pragma_update(&tx, name, value) {
            return Err(sql(e));
        }
        k = k + 1;
    }
    match commit(tx) {
        Ok(()) => Ok(()),
        Err(e) => Err(sql(e)),
    }
}

/// The archive's tables, created when a fresh file is opened.
pub const SCHEMA: &'static str = "CREATE TABLE accounts(id TEXT PRIMARY KEY,platform TEXT NOT NULL,puuid TEXT NOT NULL,summoner_id TEXT NOT NULL,riot_id TEXT NOT NULL);
CREATE TABLE games(id TEXT PRIMARY KEY,platform TEXT NOT NULL,game_number TEXT NOT NULL,detail TEXT,timeline TEXT,data_error TEXT,retry_at INTEGER NOT NULL DEFAULT 0);
CREATE TABLE sessions(id TEXT PRIMARY KEY,title TEXT NOT NULL,started_at INTEGER NOT NULL,last_activity INTEGER NOT NULL,ended_at INTEGER,end_reason TEXT);
CREATE TABLE segments(id TEXT PRIMARY KEY,session_id TEXT NOT NULL REFERENCES sessions(id),account_id TEXT NOT NULL REFERENCES accounts(id));
CREATE TABLE participations(id TEXT PRIMARY KEY,game_id TEXT NOT NULL REFERENCES games(id),account_id TEXT NOT NULL REFERENCES accounts(id),segment_id TEXT NOT NULL REFERENCES segments(id),first_seen INTEGER NOT NULL,last_seen INTEGER NOT NULL,champion_id INTEGER NOT NULL,queue_name TEXT NOT NULL,state TEXT NOT NULL,automatic INTEGER NOT NULL,manual INTEGER NOT NULL,UNIQUE(game_id,account_id));
CREATE TABLE user_state(id INTEGER PRIMARY KEY CHECK(id=1),data TEXT NOT NULL,revision INTEGER NOT NULL);
INSERT INTO user_state(id,data,revision) VALUES(1,'{}',0);
CREATE TABLE replay_files(game_id TEXT PRIMARY KEY REFERENCES games(id),bytes INTEGER NOT NULL,version TEXT NOT NULL,downloaded_at INTEGER NOT NULL);
CREATE TABLE review_games(game_id TEXT PRIMARY KEY REFERENCES games(id),account_id TEXT NOT NULL REFERENCES accounts(id),server TEXT NOT NULL,source TEXT NOT NULL,timeline_error TEXT,viewed_at INTEGER NOT NULL,bookmarked INTEGER NOT NULL DEFAULT 0);
CREATE TABLE subscriptions(id TEXT PRIMARY KEY,account_id TEXT NOT NULL REFERENCES accounts(id),server TEXT NOT NULL,label TEXT NOT NULL DEFAULT '',paused INTEGER NOT NULL DEFAULT 0,generation INTEGER NOT NULL DEFAULT 0,next_sync INTEGER,last_synced INTEGER,last_error TEXT,limited INTEGER NOT NULL DEFAULT 0);
CREATE TABLE subscription_history(subscription_id TEXT PRIMARY KEY REFERENCES subscriptions(id) ON DELETE CASCADE,next_start INTEGER NOT NULL,anchor TEXT,done INTEGER NOT NULL);
CREATE TABLE followed_games(subscription_id TEXT NOT NULL REFERENCES subscriptions(id) ON DELETE CASCADE,game_id TEXT NOT NULL REFERENCES games(id),PRIMARY KEY(subscription_id,game_id));";

} // verus!
