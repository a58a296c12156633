use league_replay::schema::{admission, classify, create, create_steps, open, open_steps, version_pragmas, SchemaState, APPLICATION_ID, SCHEMA, VERSION};
use league_replay::sync::install_statements;
use rusqlite::Connection;

#[test]
fn fresh_schema_is_versioned_and_reopening_does_not_recreate_deleted_data() {
    let mut db = Connection::open_in_memory().unwrap();
    open(&mut db).unwrap();
    assert_eq!(
        db.pragma_query_value(None, "user_version", |r| r.get::<_, i32>(0)).unwrap(),
        VERSION
    );
    assert_eq!(
        db.pragma_query_value(None, "application_id", |r| r.get::<_, i32>(0)).unwrap(),
        APPLICATION_ID
    );
    db.execute("UPDATE user_state SET revision=7 WHERE id=1", []).unwrap();
    open(&mut db).unwrap();
    assert_eq!(
        db.query_row("SELECT revision FROM user_state", [], |r| r.get::<_, u32>(0)).unwrap(),
        7
    );
    // Opening an existing version must not silently manufacture missing records.
    db.execute("DELETE FROM user_state", []).unwrap();
    assert_eq!(open(&mut db).unwrap_err(), "archive.invalidSchema");
    assert_eq!(
        db.query_row("SELECT count(*) FROM user_state", [], |r| r.get::<_, u32>(0)).unwrap(),
        0
    );
}

#[test]
fn unsupported_versions_and_unversioned_nonempty_files_are_untouched() {
    for (application, version) in [(APPLICATION_ID, 1), (APPLICATION_ID, VERSION + 1), (42, VERSION), (0, 0)] {
        let mut db = Connection::open_in_memory().unwrap();
        db.execute_batch("CREATE TABLE sentinel(value TEXT); INSERT INTO sentinel VALUES ('keep');")
            .unwrap();
        db.pragma_update(None, "application_id", application).unwrap();
        db.pragma_update(None, "user_version", version).unwrap();
        assert_eq!(open(&mut db).unwrap_err(), "archive.unsupportedSchema");
        assert_eq!(
            db.query_row("SELECT value FROM sentinel", [], |r| r.get::<_, String>(0)).unwrap(),
            "keep"
        );
        assert_eq!(
            db.pragma_query_value(None, "user_version", |r| r.get::<_, i32>(0)).unwrap(),
            version
        );
        assert_eq!(
            db.pragma_query_value(None, "application_id", |r| r.get::<_, i32>(0)).unwrap(),
            application
        );
        assert_eq!(
            db.query_row("SELECT count(*) FROM sqlite_schema WHERE type='table'", [], |r| r.get::<_, u32>(0))
                .unwrap(),
            1
        );
    }
}

#[test]
fn failed_initialization_rolls_back_schema_and_version() {
    let mut db = Connection::open_in_memory().unwrap();
    let broken = format!("{}\nINVALID STATEMENT;", SCHEMA);
    assert!(create(&mut db, &broken).is_err());
    assert_eq!(
        db.query_row("SELECT count(*) FROM sqlite_schema", [], |r| r.get::<_, u32>(0)).unwrap(),
        0
    );
    assert_eq!(
        db.pragma_query_value(None, "user_version", |r| r.get::<_, i32>(0)).unwrap(),
        0
    );
    open(&mut db).unwrap();
}

#[test]
fn version_pragmas_classify_files() {
    assert_eq!(classify(0, 0), SchemaState::Fresh);
    assert_eq!(classify(VERSION, APPLICATION_ID), SchemaState::Current);
    assert_eq!(classify(VERSION, 0), SchemaState::Unsupported);
    assert_eq!(classify(0, APPLICATION_ID), SchemaState::Unsupported);
    assert_eq!(admission(SchemaState::Fresh, true, false), Err("archive.unsupportedSchema".into()));
    assert_eq!(admission(SchemaState::Fresh, false, false), Ok(()));
    assert_eq!(admission(SchemaState::Current, false, false), Err("archive.invalidSchema".into()));
    assert_eq!(admission(SchemaState::Current, false, true), Ok(()));
    assert_eq!(admission(SchemaState::Unsupported, false, true), Err("archive.unsupportedSchema".into()));
}

#[test]
fn workspace_clock_counts_fact_and_metadata_changes() {
    let mut db = Connection::open_in_memory().unwrap();
    open(&mut db).unwrap();
    let clock = |db: &Connection| db.query_row("SELECT value FROM workspace_clock WHERE id=1", [], |r| r.get::<_, i64>(0)).unwrap();
    let start = clock(&db);
    db.execute("INSERT INTO accounts(id,platform,puuid,summoner_id,riot_id) VALUES('HN1:a','HN1','a','1','A#TEST')", []).unwrap();
    assert_eq!(clock(&db), start + 1);
    db.execute("UPDATE accounts SET riot_id=riot_id", []).unwrap();
    assert_eq!(clock(&db), start + 1);
    db.execute("UPDATE accounts SET riot_id='B#TEST'", []).unwrap();
    assert_eq!(clock(&db), start + 2);
    db.execute("INSERT INTO games(id,platform,game_number) VALUES('HN1_1','HN1','1')", []).unwrap();
    assert_eq!(clock(&db), start + 3);
    assert_eq!(
        db.query_row("SELECT revision,deleted FROM workspace_changes WHERE kind='game' AND id='HN1_1'", [], |r| Ok((r.get::<_, i64>(0)?, r.get::<_, i64>(1)?))).unwrap(),
        (start + 3, 0)
    );
}

#[test]
fn opening_plans_settings_and_creates_only_fresh_files() {
    let fresh = open_steps(SchemaState::Fresh, false, false).unwrap();
    assert_eq!(fresh.busy_seconds, 3);
    assert_eq!(fresh.settings, "PRAGMA journal_mode=WAL; PRAGMA synchronous=FULL; PRAGMA foreign_keys=ON;");
    assert!(fresh.create);
    let current = open_steps(SchemaState::Current, false, true).unwrap();
    assert!(!current.create);
    assert_eq!(open_steps(SchemaState::Fresh, true, false).err().unwrap(), "archive.unsupportedSchema");
    assert_eq!(open_steps(SchemaState::Unsupported, false, true).err().unwrap(), "archive.unsupportedSchema");
    assert_eq!(open_steps(SchemaState::Current, false, false).err().unwrap(), "archive.invalidSchema");
}

#[test]
fn creating_runs_the_tables_then_the_clock_then_stamps_the_version() {
    let steps = create_steps("CREATE TABLE t(x);");
    let mut expected = vec!["CREATE TABLE t(x);".to_string()];
    expected.extend(install_statements());
    assert_eq!(steps, expected);
    assert_eq!(version_pragmas(), vec![("application_id", APPLICATION_ID), ("user_version", VERSION)]);
}
