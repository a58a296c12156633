//! Reading a backup archive: one JSON record per line, a header, the rows of every table in
//! schema order, and an end record that counts them.
use vstd::prelude::*;
use crate::json::{Json, member, member_of};
use crate::observe::json_i64;
use crate::package::STREAM_LIMIT;
use crate::text::{owned, str_eq};

verus! {

/// The longest record line, without its newline.
pub const ROW_LIMIT: u64 = 67108864;

/// The most rows an archive may hold.
pub const ROW_COUNT_LIMIT: u64 = 1000000;

/// The tables of an archive, in the order their rows are written.
pub open spec fn table_names() -> Seq<Seq<char>> {
    seq![
        "accounts"@,
        "games"@,
        "sessions"@,
        "segments"@,
        "participations"@,
        "user_state"@,
        "review_games"@,
        "replay_files"@,
        "subscriptions"@,
        "followed_games"@,
    ]
}

/// The tables of an archive, in the order their rows are written.
pub fn tables() -> (r: Vec<&'static str>)
    ensures
        r@.map_values(|t: &'static str| t@) == table_names(),
{
    let r = vec![
        "accounts",
        "games",
        "sessions",
        "segments",
        "participations",
        "user_state",
        "review_games",
        "replay_files",
        "subscriptions",
        "followed_games",
    ];
    assert(r@.map_values(|t: &'static str| t@) =~= table_names());
    r
}

/// Counts a line read from the archive: the bytes read so far grow by the line's length,
/// which must not pass the archive's limit, and the line without its newline must not pass
/// the record limit.
pub fn count_line(total: u64, length: u64, newline: bool) -> (r: Result<u64, String>)
    requires
        total <= STREAM_LIMIT,
        length <= ROW_LIMIT + 2,
        newline ==> length > 0,
    ensures
        match r {
            Ok(t) => t == total + length && t <= STREAM_LIMIT && length - (if newline {
                1int
            } else {
                0int
            }) <= ROW_LIMIT,
            Err(e) => (total + length > STREAM_LIMIT || length - (if newline {
                1int
            } else {
                0int
            }) > ROW_LIMIT) && e@ == "backup.tooLarge"@,
        },
{
    let next = total + length;
    let content = if newline {
        length - 1
    } else {
        length
    };
    if next > STREAM_LIMIT || content > ROW_LIMIT {
        return Err(owned("backup.tooLarge"));
    }
    Ok(next)
}

/// Checks an archive's header: its format and version, then its list of tables.
#[verifier::loop_isolation(false)]
pub fn check_header(format: &str, version: u32, listed: &Vec<String>) -> (r: Result<(), String>)
    ensures
        match r {
            Ok(()) => format@ == "LeagueReplay archive"@ && version == 1 && listed@.map_values(|t: String| t@)
                == table_names(),
            Err(e) => if !(format@ == "LeagueReplay archive"@ && version == 1) {
                e@ == "backup.version"@
            } else {
                listed@.map_values(|t: String| t@) != table_names() && e@ == "backup.invalid"@
            },
        },
{
    if !str_eq(format, "LeagueReplay archive") || version != 1 {
        return Err(owned("backup.version"));
    }
    let names = tables();
    if listed.len() != names.len() {
        assert(listed@.map_values(|t: String| t@).len() != table_names().len());
        return Err(owned("backup.invalid"));
    }
    let mut i: usize = 0;
    while i < listed.len()
        invariant
            i <= listed@.len(),
            listed@.len() == names@.len(),
            names@.map_values(|t: &'static str| t@) == table_names(),
            forall|j: int| 0 <= j < i ==> listed@[j]@ == table_names()[j],
        decreases listed.len() - i,
    {
        if !str_eq(listed[i].as_str(), names[i]) {
            assert(listed@.map_values(|t: String| t@)[i as int] != table_names()[i as int]);
            return Err(owned("backup.invalid"));
        }
        i = i + 1;
    }
    assert(listed@.map_values(|t: String| t@) =~= table_names());
    Ok(())
}

/// A column of a table: its name, its declared type, and whether it needs a value.
pub struct Column {
    pub name: String,
    pub kind: String,
    pub required: bool,
}

/// A value as the archive stores it.
#[derive(Clone, Debug, PartialEq, Eq)]
pub enum SqlValue {
    Null,
    Integer(i64),
    Text(String),
}

/// The stored value of a column, from the value a row record gives it: null for a column
/// that may be empty, text for a text column, an integer that fits `i64` for an integer
/// column; anything else, or no value, is refused.
pub open spec fn column_value(column: Column, v: Option<Json>) -> Option<SqlValue> {
    match v {
        None => None,
        Some(Json::Null) => if !column.required {
            Some(SqlValue::Null)
        } else {
            None
        },
        Some(Json::Text(s)) => if column.kind@ == "TEXT"@ {
            Some(SqlValue::Text(s))
        } else {
            None
        },
        Some(x) => match json_i64(x) {
            Some(n) => if column.kind@ == "INTEGER"@ {
                Some(SqlValue::Integer(n))
            } else {
                None
            },
            None => None,
        },
    }
}

/// The stored values of a row record's columns, in schema order, when each has one.
pub open spec fn row_values(schema: Seq<Column>, values: Json) -> Option<Seq<SqlValue>>
    decreases schema.len(),
{
    if schema.len() == 0 {
        Some(Seq::empty())
    } else {
        match (row_values(schema.drop_last(), values), column_value(schema.last(), member_of(values, schema.last().name@))) {
            (Some(r), Some(v)) => Some(r.push(v)),
            _ => None,
        }
    }
}

/// The number of members of an object.
pub open spec fn member_count(values: Json) -> Option<nat> {
    match values {
        Json::Object(m) => Some(m@.len()),
        _ => None,
    }
}

fn column_value_of(column: &Column, v: Option<&Json>) -> (r: Option<SqlValue>)
    ensures
        r == column_value(
            *column,
            match v {
                Some(x) => Some(*x),
                None => None,
            },
        ),
{
    match v {
        None => None,
        Some(Json::Null) => if !column.required {
            Some(SqlValue::Null)
        } else {
            None
        },
        Some(Json::Text(s)) => if str_eq(column.kind.as_str(), "TEXT") {
            Some(SqlValue::Text(s.clone()))
        } else {
            None
        },
        Some(x) => match crate::observe::as_i64(Some(x)) {
            Some(n) => if str_eq(column.kind.as_str(), "INTEGER") {
                Some(SqlValue::Integer(n))
            } else {
                None
            },
            None => None,
        },
    }
}

/// Where reading the rows of an archive stands: the table of the last row and the number
/// of rows so far.
pub struct RowReader {
    pub last_table: usize,
    pub count: u64,
}

impl RowReader {
    /// Before the first row.
    pub fn new() -> (r: Self)
        ensures
            r.last_table == 0 && r.count == 0,
    {
        RowReader { last_table: 0, count: 0 }
    }

    /// Takes one row record: its table must be one of the archive's, not earlier than the
    /// last row's; it must give exactly the table's columns; the rows must not pass their
    /// limit; and each value must suit its column. Gives the table's position and the
    /// stored values.
    #[verifier::loop_isolation(false)]
    pub fn accept_row(&mut self, table: &str, values: &Json, schemas: &Vec<Vec<Column>>) -> (r: Result<
        (usize, Vec<SqlValue>),
        String,
    >)
        requires
            schemas@.len() == table_names().len(),
        ensures
            match r {
                Ok((index, row)) => {
                    &&& index < table_names().len() && table_names()[index as int] == table@
                    &&& index >= old(self).last_table
                    &&& member_count(*values) == Some(schemas@[index as int]@.len())
                    &&& old(self).count < ROW_COUNT_LIMIT
                    &&& final(self).last_table == index && final(self).count == old(self).count + 1
                    &&& row_values(schemas@[index as int]@, *values) == Some(row@)
                },
                Err(e) => e@ == "backup.invalid"@ || e@ == "backup.tooLarge"@,
            },
    {
        let names = tables();
        let mut index: usize = 0;
        let mut found = false;
        while index < names.len() && !found
            invariant
                index <= names@.len(),
                names@.map_values(|t: &'static str| t@) == table_names(),
                found ==> index < names@.len() && table_names()[index as int] == table@,
            decreases names.len() - index, if found { 0int } else { 1int },
        {
            if str_eq(names[index], table) {
                assert(names@.map_values(|t: &'static str| t@)[index as int] == names@[index as int]@);
                found = true;
            } else {
                index = index + 1;
            }
        }
        if !found {
            return Err(owned("backup.invalid"));
        }
        let schema = &schemas[index];
        let count = match values {
            Json::Object(m) => m.len(),
            _ => return Err(owned("backup.invalid")),
        };
        if index < self.last_table || count != schema.len() {
            return Err(owned("backup.invalid"));
        }
        self.last_table = index;
        if self.count >= ROW_COUNT_LIMIT {
            return Err(owned("backup.tooLarge"));
        }
        self.count = self.count + 1;
        let mut row: Vec<SqlValue> = Vec::new();
        let mut k: usize = 0;
        while k < schema.len()
            invariant
                k <= schema@.len(),
                row_values(schema@.take(k as int), *values) == Some(row@),
            decreases schema.len() - k,
        {
            assert(schema@.take(k + 1).drop_last() =~= schema@.take(k as int));
            let column = &schema[k];
            match column_value_of(column, member(values, column.name.as_str())) {
                Some(v) => {
                    row.push(v);
                },
                None => return Err(owned("backup.invalid")),
            }
            k = k + 1;
        }
        assert(schema@.take(k as int) =~= schema@);
        Ok((index, row))
    }

    /// Takes the end record: it must count the rows read, and nothing may follow it.
    pub fn finish(&self, rows: u64, rest_empty: bool) -> (r: Result<(), String>)
        ensures
            r is Ok <==> (rows == self.count && rest_empty),
            r matches Err(e) ==> e@ == "backup.invalid"@,
    {
        if rows != self.count || !rest_empty {
            Err(owned("backup.invalid"))
        } else {
            Ok(())
        }
    }
}

/// The stored form of a value copied between archives: null, text, or an integer that fits
/// `i64`; anything else is refused.
pub open spec fn stored_value(v: Json) -> Option<SqlValue> {
    match v {
        Json::Null => Some(SqlValue::Null),
        Json::Text(s) => Some(SqlValue::Text(s)),
        x => match json_i64(x) {
            Some(n) => Some(SqlValue::Integer(n)),
            None => None,
        },
    }
}

/// The stored form of a row copied between archives; fails with `backup.invalid` when a
/// value has none.
pub fn stored_values(row: &Vec<Json>) -> (r: Result<Vec<SqlValue>, String>)
    ensures
        match r {
            Ok(values) => values@.len() == row@.len() && forall|i: int|
                0 <= i < row@.len() ==> stored_value(#[trigger] row@[i]) == Some(values@[i]),
            Err(e) => e@ == "backup.invalid"@ && exists|i: int| 0 <= i < row@.len() && stored_value(#[trigger] row@[i]) is None,
        },
{
    let mut out: Vec<SqlValue> = Vec::new();
    let mut i: usize = 0;
    while i < row.len()
        invariant
            i <= row@.len(),
            out@.len() == i,
            forall|j: int| 0 <= j < i ==> stored_value(#[trigger] row@[j]) == Some(out@[j]),
        decreases row.len() - i,
    {
        let v = match &row[i] {
            Json::Null => SqlValue::Null,
            Json::Text(s) => SqlValue::Text(s.clone()),
            x => match crate::observe::as_i64(Some(x)) {
                Some(n) => SqlValue::Integer(n),
                None => {
                    assert(stored_value(row@[i as int]) is None);
                    return Err(owned("backup.invalid"));
                },
            },
        };
        out.push(v);
        i = i + 1;
    }
    Ok(out)
}

/// An imported session row (`id, title, started_at, last_activity, ended_at, end_reason`):
/// a session still open is closed at its last activity, as restored.
pub fn restore_session(row: &mut Vec<SqlValue>)
    requires
        old(row)@.len() >= 6,
    ensures
        if old(row)@[4] == SqlValue::Null {
            &&& final(row)@.len() == old(row)@.len()
            &&& final(row)@[4] == old(row)@[3]
            &&& (final(row)@[5] matches SqlValue::Text(t) && t@ == "restored"@)
            &&& forall|i: int| 0 <= i < old(row)@.len() && i != 4 && i != 5 ==> final(row)@[i] == old(row)@[i]
        } else {
            final(row)@ == old(row)@
        },
{
    let ended = match &row[4] {
        SqlValue::Null => false,
        _ => true,
    };
    if !ended {
        let last = match &row[3] {
            SqlValue::Null => SqlValue::Null,
            SqlValue::Integer(n) => SqlValue::Integer(*n),
            SqlValue::Text(t) => SqlValue::Text(t.clone()),
        };
        row.set(4, last);
        row.set(5, SqlValue::Text(owned("restored")));
    }
}

/// An imported participation row, whose ninth column is its state: a game that was being
/// played is pending once imported.
pub fn settle_participation(row: &mut Vec<SqlValue>)
    requires
        old(row)@.len() >= 9,
    ensures
        if old(row)@[8] matches SqlValue::Text(t) && t@ == "playing"@ {
            &&& final(row)@ == old(row)@.update(8, final(row)@[8])
            &&& (final(row)@[8] matches SqlValue::Text(p) && p@ == "pending"@)
        } else {
            final(row)@ == old(row)@
        },
{
    let playing = match &row[8] {
        SqlValue::Text(t) => str_eq(t.as_str(), "playing"),
        _ => false,
    };
    if playing {
        row.set(8, SqlValue::Text(owned("pending")));
    }
}

/// The least number of columns a row of `table` has, where the merge of archives reads or
/// changes one of them.
pub open spec fn merge_width(table: Seq<char>) -> int {
    if table == "sessions"@ {
        6
    } else if table == "participations"@ {
        9
    } else if table == "subscriptions"@ {
        8
    } else if table == "followed_games"@ {
        1
    } else {
        0
    }
}

/// The least number of columns a row of `table` needs to be merged; see `merge_width`.
pub fn merge_columns(table: &str) -> (r: usize)
    ensures
        r == merge_width(table@),
{
    if str_eq(table, "sessions") {
        6
    } else if str_eq(table, "participations") {
        9
    } else if str_eq(table, "subscriptions") {
        8
    } else if str_eq(table, "followed_games") {
        1
    } else {
        0
    }
}

/// The subscription that an imported subscription id stands for after a merge: the last
/// pair that `remap` holds for it.
pub open spec fn remapped(remap: Seq<(String, String)>, id: Seq<char>) -> Option<Seq<char>>
    decreases remap.len(),
{
    if remap.len() == 0 {
        None
    } else if remap.last().0@ == id {
        Some(remap.last().1@)
    } else {
        remapped(remap.drop_last(), id)
    }
}

fn find_remap(remap: &Vec<(String, String)>, id: &str) -> (r: Option<usize>)
    ensures
        match r {
            Some(k) => k < remap@.len() && remapped(remap@, id@) == Some(remap@[k as int].1@),
            None => remapped(remap@, id@) is None,
        },
{
    let mut k: usize = remap.len();
    assert(remap@.take(k as int) =~= remap@);
    while k > 0
        invariant
            k <= remap@.len(),
            remapped(remap@, id@) == remapped(remap@.take(k as int), id@),
        decreases k,
    {
        assert(remap@.take(k as int).last() == remap@[k - 1]);
        if str_eq(remap[k - 1].0.as_str(), id) {
            return Some(k - 1);
        }
        assert(remap@.take(k as int).drop_last() =~= remap@.take(k - 1));
        k = k - 1;
    }
    None
}

/// How one row of an imported archive enters the merged one, by its table:
/// - `user_state` rows are not copied (`Ok(false)`): the settings are merged on their own;
/// - a session still open is closed as restored (see `restore_session`), and a game being
///   played is pending (see `settle_participation`);
/// - a subscription needs a text id and account, else `backup.invalid`. When the account is
///   followed already (`existing`), the row is not copied and its id stands for the existing
///   subscription from then on (a pair pushed onto `remap`); otherwise it is copied with the
///   fresh generation `fresh` and no last sync (0);
/// - a followed game of a subscription that `remap` replaces moves to the replacement;
/// - every other row is copied as it is.
pub fn merge_row(
    table: &str,
    row: &mut Vec<SqlValue>,
    existing: Option<&str>,
    fresh: &str,
    remap: &mut Vec<(String, String)>,
) -> (r: Result<bool, String>)
    requires
        old(row)@.len() >= merge_width(table@),
    ensures
        final(row)@.len() == old(row)@.len(),
        table@ == "user_state"@ ==> r == Ok::<bool, String>(false) && final(row)@ == old(row)@ && final(remap)@ == old(remap)@,
        table@ == "sessions"@ ==> r == Ok::<bool, String>(true) && final(remap)@ == old(remap)@ && if old(row)@[4] == SqlValue::Null {
            &&& final(row)@[4] == old(row)@[3]
            &&& (final(row)@[5] matches SqlValue::Text(t) && t@ == "restored"@)
            &&& forall|i: int| 0 <= i < old(row)@.len() && i != 4 && i != 5 ==> final(row)@[i] == old(row)@[i]
        } else {
            final(row)@ == old(row)@
        },
        table@ == "participations"@ ==> r == Ok::<bool, String>(true) && final(remap)@ == old(remap)@
            && if old(row)@[8] matches SqlValue::Text(t) && t@ == "playing"@ {
            &&& final(row)@ == old(row)@.update(8, final(row)@[8])
            &&& (final(row)@[8] matches SqlValue::Text(p) && p@ == "pending"@)
        } else {
            final(row)@ == old(row)@
        },
        table@ == "subscriptions"@ ==> match (old(row)@[0], old(row)@[1]) {
            (SqlValue::Text(id), SqlValue::Text(_)) => match existing {
                Some(e) => r == Ok::<bool, String>(false) && final(row)@ == old(row)@
                    && final(remap)@.len() == old(remap)@.len() + 1
                    && final(remap)@.drop_last() == old(remap)@
                    && final(remap)@.last().0@ == id@ && final(remap)@.last().1@ == e@,
                None => r == Ok::<bool, String>(true) && final(remap)@ == old(remap)@
                    && (final(row)@[5] matches SqlValue::Text(g) && g@ == fresh@)
                    && final(row)@[7] == SqlValue::Integer(0)
                    && forall|i: int| 0 <= i < old(row)@.len() && i != 5 && i != 7 ==> final(row)@[i] == old(row)@[i],
            },
            _ => (r matches Err(e) && e@ == "backup.invalid"@) && final(row)@ == old(row)@ && final(remap)@ == old(remap)@,
        },
        table@ == "followed_games"@ ==> r == Ok::<bool, String>(true) && final(remap)@ == old(remap)@
            && match old(row)@[0] {
            SqlValue::Text(id) => match remapped(old(remap)@, id@) {
                Some(to) => (final(row)@[0] matches SqlValue::Text(t) && t@ == to)
                    && forall|i: int| 1 <= i < old(row)@.len() ==> final(row)@[i] == old(row)@[i],
                None => final(row)@ == old(row)@,
            },
            _ => final(row)@ == old(row)@,
        },
        table@ != "user_state"@ && table@ != "sessions"@ && table@ != "participations"@ && table@ != "subscriptions"@
            && table@ != "followed_games"@ ==> r == Ok::<bool, String>(true) && final(row)@ == old(row)@
            && final(remap)@ == old(remap)@,
{
    proof {
        reveal_strlit("user_state");
        reveal_strlit("sessions");
        reveal_strlit("participations");
        reveal_strlit("subscriptions");
        reveal_strlit("followed_games");
        assert("user_state"@[0] == 'u' && "sessions"@[0] == 's' && "participations"@[0] == 'p');
        assert("subscriptions"@[0] == 's' && "followed_games"@[0] == 'f');
        assert("subscriptions"@[1] != "sessions"@[1]);
    }
    if str_eq(table, "user_state") {
        return Ok(false);
    }
    if str_eq(table, "sessions") {
        restore_session(row);
        return Ok(true);
    }
    if str_eq(table, "participations") {
        settle_participation(row);
        return Ok(true);
    }
    if str_eq(table, "subscriptions") {
        let id = match &row[0] {
            SqlValue::Text(t) => owned(t.as_str()),
            _ => return Err(owned("backup.invalid")),
        };
        match &row[1] {
            SqlValue::Text(_) => {},
            _ => return Err(owned("backup.invalid")),
        }
        match existing {
            Some(e) => {
                let ghost before = remap@;
                remap.push((id, owned(e)));
                assert(remap@.drop_last() =~= before);
                return Ok(false);
            },
            None => {
                row.set(5, SqlValue::Text(owned(fresh)));
                row.set(7, SqlValue::Integer(0));
                return Ok(true);
            },
        }
    }
    if str_eq(table, "followed_games") {
        let to = match &row[0] {
            SqlValue::Text(t) => match find_remap(remap, t.as_str()) {
                Some(k) => Some(owned(remap[k].1.as_str())),
                None => None,
            },
            _ => None,
        };
        if let Some(to) = to {
            row.set(0, SqlValue::Text(to));
        }
        return Ok(true);
    }
    Ok(true)
}

fn copy_value(v: &SqlValue) -> (r: SqlValue)
    ensures
        r == *v,
{
    match v {
        SqlValue::Null => SqlValue::Null,
        SqlValue::Integer(n) => SqlValue::Integer(*n),
        SqlValue::Text(t) => SqlValue::Text(t.clone()),
    }
}

/// A stored value, or the other one where it is empty (`COALESCE`).
pub open spec fn coalesce(current: SqlValue, other: SqlValue) -> SqlValue {
    if current == SqlValue::Null {
        other
    } else {
        current
    }
}

/// The games row that a merge leaves: an imported game is added as it is; a game the
/// archive holds already keeps its row, and takes the imported detail (column 3) and
/// timeline (column 4) only where its own are empty.
pub open spec fn spec_merged_game(current: Option<Seq<SqlValue>>, imported: Seq<SqlValue>) -> Seq<SqlValue> {
    match current {
        None => imported,
        Some(c) => c.update(3, coalesce(c[3], imported[3])).update(4, coalesce(c[4], imported[4])),
    }
}

/// Importing the same game again changes nothing: the row a merge left is kept as it is.
pub proof fn lemma_merged_game_twice(current: Option<Seq<SqlValue>>, imported: Seq<SqlValue>)
    requires
        imported.len() >= 5,
        current matches Some(c) ==> c.len() >= 5,
    ensures
        spec_merged_game(Some(spec_merged_game(current, imported)), imported) == spec_merged_game(current, imported),
{
    let once = spec_merged_game(current, imported);
    assert(spec_merged_game(Some(once), imported) =~= once);
}

/// The games row that a merge leaves; see `spec_merged_game`.
pub fn merged_game(current: Option<&Vec<SqlValue>>, imported: &Vec<SqlValue>) -> (r: Vec<SqlValue>)
    requires
        imported@.len() >= 5,
        current matches Some(c) ==> c@.len() >= 5,
    ensures
        r@ == spec_merged_game(
            match current {
                Some(c) => Some(c@),
                None => None,
            },
            imported@,
        ),
{
    let base = match current {
        Some(c) => c,
        None => imported,
    };
    let mut out: Vec<SqlValue> = Vec::new();
    let mut i: usize = 0;
    while i < base.len()
        invariant
            i <= base@.len(),
            out@ =~= base@.take(i as int),
        decreases base.len() - i,
    {
        out.push(copy_value(&base[i]));
        i = i + 1;
    }
    assert(base@.take(base@.len() as int) =~= base@);
    if let Some(c) = current {
        let detail = match &c[3] {
            SqlValue::Null => copy_value(&imported[3]),
            v => copy_value(v),
        };
        let timeline = match &c[4] {
            SqlValue::Null => copy_value(&imported[4]),
            v => copy_value(v),
        };
        out.set(3, detail);
        out.set(4, timeline);
    }
    out
}

} // verus!
