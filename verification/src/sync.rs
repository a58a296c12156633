//! The workspace clock: triggers that count every change to the archive so that the
//! interface can ask for what changed since a cursor.
use vstd::prelude::*;
use crate::text::owned;

verus! {

/// The clock and change-log tables.
pub open spec fn clock_tables() -> Seq<char> {
    "CREATE TABLE workspace_clock(id INTEGER PRIMARY KEY CHECK(id=1),value INTEGER NOT NULL); INSERT INTO workspace_clock VALUES(1,0); CREATE TABLE workspace_changes(kind TEXT NOT NULL,id TEXT NOT NULL,revision INTEGER NOT NULL,deleted INTEGER NOT NULL,PRIMARY KEY(kind,id)); CREATE INDEX workspace_revision ON workspace_changes(revision); CREATE INDEX participation_segment ON participations(segment_id);"@
}

/// A trigger that advances the clock and records which fact row changed.
pub open spec fn fact_trigger_text(
    table: Seq<char>,
    kind: Seq<char>,
    event: Seq<char>,
    row: Seq<char>,
    deleted: Seq<char>,
) -> Seq<char> {
    "CREATE TRIGGER sync_"@ + table + "_"@ + event + " AFTER "@ + event + " ON "@ + table
        + " BEGIN UPDATE workspace_clock SET value=value+1 WHERE id=1; INSERT INTO workspace_changes(kind,id,revision,deleted) VALUES('"@
        + kind + "',"@ + row
        + ".id,(SELECT value FROM workspace_clock WHERE id=1),"@ + deleted
        + ") ON CONFLICT(kind,id) DO UPDATE SET revision=excluded.revision,deleted=excluded.deleted; END;"@
}

/// `OLD.c IS NOT NEW.c` for every column, joined by ` OR `.
pub open spec fn changed_columns(columns: Seq<Seq<char>>) -> Seq<char>
    decreases columns.len(),
{
    if columns.len() == 0 {
        Seq::empty()
    } else if columns.len() == 1 {
        "OLD."@ + columns[0] + " IS NOT NEW."@ + columns[0]
    } else {
        changed_columns(columns.drop_last()) + " OR "@ + "OLD."@ + columns.last() + " IS NOT NEW."@
            + columns.last()
    }
}

/// A trigger that advances the clock when metadata changes; an update counts only when one
/// of the listed columns really changes.
pub open spec fn metadata_trigger_text(table: Seq<char>, columns: Seq<Seq<char>>, event: Seq<char>) -> Seq<char> {
    let condition = if event == "UPDATE"@ {
        "WHEN "@ + changed_columns(columns)
    } else {
        Seq::empty()
    };
    "CREATE TRIGGER sync_"@ + table + "_"@ + event + " AFTER "@ + event + " ON "@ + table + " "@
        + condition + " BEGIN UPDATE workspace_clock SET value=value+1 WHERE id=1; END;"@
}

pub open spec fn strs_view(s: Seq<&str>) -> Seq<Seq<char>> {
    Seq::new(s.len(), |i: int| s[i]@)
}

pub fn fact_trigger(table: &str, kind: &str, event: &str, row: &str, deleted: &str) -> (r: String)
    ensures
        r@ == fact_trigger_text(table@, kind@, event@, row@, deleted@),
{
    let mut s = owned("CREATE TRIGGER sync_");
    s.append(table);
    s.append("_");
    s.append(event);
    s.append(" AFTER ");
    s.append(event);
    s.append(" ON ");
    s.append(table);
    s.append(
        " BEGIN UPDATE workspace_clock SET value=value+1 WHERE id=1; INSERT INTO workspace_changes(kind,id,revision,deleted) VALUES('",
    );
    s.append(kind);
    s.append("',");
    s.append(row);
    s.append(".id,(SELECT value FROM workspace_clock WHERE id=1),");
    s.append(deleted);
    s.append(
        ") ON CONFLICT(kind,id) DO UPDATE SET revision=excluded.revision,deleted=excluded.deleted; END;",
    );
    s
}

fn changed(columns: &Vec<&str>) -> (r: String)
    ensures
        r@ == changed_columns(strs_view(columns@)),
{
    let mut s = String::new();
    let mut i: usize = 0;
    while i < columns.len()
        invariant
            i <= columns@.len(),
            s@ == changed_columns(strs_view(columns@.subrange(0, i as int))),
        decreases columns.len() - i,
    {
        let ghost before = strs_view(columns@.subrange(0, i as int));
        if i > 0 {
            s.append(" OR ");
        }
        s.append("OLD.");
        s.append(columns[i]);
        s.append(" IS NOT NEW.");
        s.append(columns[i]);
        proof {
            let after = strs_view(columns@.subrange(0, i + 1));
            assert(after.drop_last() =~= before);
            assert(after.last() == columns@[i as int]@);
            if i == 0 {
                assert(after.len() == 1);
                assert(after[0] == columns@[0]@);
            }
        }
        i = i + 1;
    }
    assert(columns@.subrange(0, columns@.len() as int) =~= columns@);
    s
}

pub fn metadata_trigger(table: &str, columns: &Vec<&str>, event: &str) -> (r: String)
    ensures
        r@ == metadata_trigger_text(table@, strs_view(columns@), event@),
{
    let mut s = owned("CREATE TRIGGER sync_");
    s.append(table);
    s.append("_");
    s.append(event);
    s.append(" AFTER ");
    s.append(event);
    s.append(" ON ");
    s.append(table);
    s.append(" ");
    if crate::text::str_eq(event, "UPDATE") {
        s.append("WHEN ");
        let c = changed(columns);
        s.append(c.as_str());
    }
    s.append(" BEGIN UPDATE workspace_clock SET value=value+1 WHERE id=1; END;");
    s
}

/// The statements that install the workspace clock, in order: its tables; for participations
/// and games, triggers on insert, update and delete that record the changed row; for
/// accounts, sessions, segments and user state, triggers that only advance the clock.
pub open spec fn sync_statements() -> Seq<Seq<char>> {
    seq![
        clock_tables(),
        fact_trigger_text("participations"@, "participation"@, "INSERT"@, "NEW"@, "0"@),
        fact_trigger_text("participations"@, "participation"@, "UPDATE"@, "NEW"@, "0"@),
        fact_trigger_text("participations"@, "participation"@, "DELETE"@, "OLD"@, "1"@),
        fact_trigger_text("games"@, "game"@, "INSERT"@, "NEW"@, "0"@),
        fact_trigger_text("games"@, "game"@, "UPDATE"@, "NEW"@, "0"@),
        fact_trigger_text("games"@, "game"@, "DELETE"@, "OLD"@, "1"@),
        metadata_trigger_text("accounts"@, account_columns(), "INSERT"@),
        metadata_trigger_text("accounts"@, account_columns(), "UPDATE"@),
        metadata_trigger_text("accounts"@, account_columns(), "DELETE"@),
        metadata_trigger_text("sessions"@, session_columns(), "INSERT"@),
        metadata_trigger_text("sessions"@, session_columns(), "UPDATE"@),
        metadata_trigger_text("sessions"@, session_columns(), "DELETE"@),
        metadata_trigger_text("segments"@, segment_columns(), "INSERT"@),
        metadata_trigger_text("segments"@, segment_columns(), "UPDATE"@),
        metadata_trigger_text("segments"@, segment_columns(), "DELETE"@),
        metadata_trigger_text("user_state"@, user_state_columns(), "INSERT"@),
        metadata_trigger_text("user_state"@, user_state_columns(), "UPDATE"@),
        metadata_trigger_text("user_state"@, user_state_columns(), "DELETE"@),
    ]
}

pub open spec fn account_columns() -> Seq<Seq<char>> {
    seq!["id"@, "platform"@, "puuid"@, "summoner_id"@, "riot_id"@]
}

pub open spec fn session_columns() -> Seq<Seq<char>> {
    seq!["id"@, "title"@, "started_at"@, "ended_at"@, "end_reason"@]
}

pub open spec fn segment_columns() -> Seq<Seq<char>> {
    seq!["id"@, "session_id"@, "account_id"@]
}

pub open spec fn user_state_columns() -> Seq<Seq<char>> {
    seq!["data"@, "revision"@]
}

pub open spec fn strings_view(s: Seq<String>) -> Seq<Seq<char>> {
    Seq::new(s.len(), |i: int| s[i]@)
}

/// The statements that install the workspace clock.
pub fn install_statements() -> (r: Vec<String>)
    ensures
        strings_view(r@) == sync_statements(),
{
    let mut out: Vec<String> = Vec::new();
    out.push(owned(
        "CREATE TABLE workspace_clock(id INTEGER PRIMARY KEY CHECK(id=1),value INTEGER NOT NULL); INSERT INTO workspace_clock VALUES(1,0); CREATE TABLE workspace_changes(kind TEXT NOT NULL,id TEXT NOT NULL,revision INTEGER NOT NULL,deleted INTEGER NOT NULL,PRIMARY KEY(kind,id)); CREATE INDEX workspace_revision ON workspace_changes(revision); CREATE INDEX participation_segment ON participations(segment_id);",
    ));
    out.push(fact_trigger("participations", "participation", "INSERT", "NEW", "0"));
    out.push(fact_trigger("participations", "participation", "UPDATE", "NEW", "0"));
    out.push(fact_trigger("participations", "participation", "DELETE", "OLD", "1"));
    out.push(fact_trigger("games", "game", "INSERT", "NEW", "0"));
    out.push(fact_trigger("games", "game", "UPDATE", "NEW", "0"));
    out.push(fact_trigger("games", "game", "DELETE", "OLD", "1"));
    let accounts = vec!["id", "platform", "puuid", "summoner_id", "riot_id"];
    let sessions = vec!["id", "title", "started_at", "ended_at", "end_reason"];
    let segments = vec!["id", "session_id", "account_id"];
    let user_state = vec!["data", "revision"];
    assert(strs_view(accounts@) =~= account_columns());
    assert(strs_view(sessions@) =~= session_columns());
    assert(strs_view(segments@) =~= segment_columns());
    assert(strs_view(user_state@) =~= user_state_columns());
    out.push(metadata_trigger("accounts", &accounts, "INSERT"));
    out.push(metadata_trigger("accounts", &accounts, "UPDATE"));
    out.push(metadata_trigger("accounts", &accounts, "DELETE"));
    out.push(metadata_trigger("sessions", &sessions, "INSERT"));
    out.push(metadata_trigger("sessions", &sessions, "UPDATE"));
    out.push(metadata_trigger("sessions", &sessions, "DELETE"));
    out.push(metadata_trigger("segments", &segments, "INSERT"));
    out.push(metadata_trigger("segments", &segments, "UPDATE"));
    out.push(metadata_trigger("segments", &segments, "DELETE"));
    out.push(metadata_trigger("user_state", &user_state, "INSERT"));
    out.push(metadata_trigger("user_state", &user_state, "UPDATE"));
    out.push(metadata_trigger("user_state", &user_state, "DELETE"));
    assert(strings_view(out@) =~= sync_statements());
    out
}

} // verus!
