//! Rules for backup and share packages: which entries a package may hold before anything is
//! extracted from it.
use vstd::prelude::*;
use crate::files::{max_replay_bytes, spec_valid_match_id, valid_match_id};
use crate::text::{append_chars, chars_of, decimal, decimal_chars, has_prefix, has_suffix, owned, slice_chars, starts_with, string_of};
use crate::play::join;

verus! {

/// The largest archive stream a package may hold, in bytes.
pub const STREAM_LIMIT: u64 = 21474836480;

/// The largest total of replay bytes a package may hold.
pub const REPLAY_TOTAL_LIMIT: u64 = 21474836480;

/// The most entries a package may hold.
pub const ENTRY_LIMIT: usize = 10001;

/// One entry of a package as its directory describes it.
pub struct PackageEntry {
    pub name: String,
    pub size: u64,
    pub symlink: bool,
}

pub open spec fn archive_name() -> Seq<char> {
    "archive.jsonl"@
}

pub open spec fn replays_dir() -> Seq<char> {
    seq!['r', 'e', 'p', 'l', 'a', 'y', 's', '/']
}

pub open spec fn rofl_ext() -> Seq<char> {
    seq!['.', 'r', 'o', 'f', 'l']
}

/// The match identifier a replay entry name `replays/ID.rofl` carries.
pub open spec fn replay_entry_id(name: Seq<char>) -> Option<Seq<char>> {
    if has_prefix(name, replays_dir()) && has_suffix(name.subrange(8, name.len() as int), rofl_ext()) {
        Some(name.subrange(8, name.len() - 5))
    } else {
        None
    }
}

/// The outcome of reading entries in order: `(replay bytes, archive entries)` so far, or the
/// first refusal. An unreadable entry is `None`.
pub open spec fn scan(entries: Seq<Option<PackageEntry>>) -> Result<(int, int), Seq<char>>
    decreases entries.len(),
{
    if entries.len() == 0 {
        Ok((0, 0))
    } else {
        match scan(entries.drop_last()) {
            Err(e) => Err(e),
            Ok((total, archives)) => step(entries.drop_last(), entries.last(), total, archives),
        }
    }
}

/// The entry is readable and has the given name.
pub open spec fn named(entry: Option<PackageEntry>, name: Seq<char>) -> bool {
    entry matches Some(o) && o.name@ == name
}

/// One entry read after `before`.
pub open spec fn step(before: Seq<Option<PackageEntry>>, entry: Option<PackageEntry>, total: int, archives: int) -> Result<
    (int, int),
    Seq<char>,
> {
    match entry {
        None => Err("backup.invalid"@),
        Some(e) => if e.symlink || exists|j: int| 0 <= j < before.len() && named(#[trigger] before[j], e.name@) {
            Err("backup.invalid"@)
        } else if e.name@ == archive_name() {
            if e.size > STREAM_LIMIT {
                Err("backup.tooLarge"@)
            } else {
                Ok((total, archives + 1))
            }
        } else {
            match replay_entry_id(e.name@) {
                None => Err("backup.invalid"@),
                Some(id) => if !spec_valid_match_id(id) {
                    Err("game.invalidId"@)
                } else if e.size > max_replay_bytes() {
                    Err("replay.tooLarge"@)
                } else if total + e.size > REPLAY_TOTAL_LIMIT {
                    Err("backup.tooLarge"@)
                } else {
                    Ok((total + e.size, archives))
                }
            }
        }
    }
}

/// Whether a package may be read: at most `ENTRY_LIMIT` entries, each readable, named once and
/// not a link; exactly one archive stream within its limit; otherwise only replays named
/// `replays/ID.rofl` for valid match identifiers, each within the replay limit and together
/// within the total limit.
pub open spec fn spec_validate_entries(entries: Seq<Option<PackageEntry>>) -> Result<(), Seq<char>> {
    if entries.len() > ENTRY_LIMIT {
        Err("backup.tooLarge"@)
    } else {
        match scan(entries) {
            Err(e) => Err(e),
            Ok((_, archives)) => if archives != 1 {
                Err("backup.invalid"@)
            } else {
                Ok(())
            },
        }
    }
}

fn entry_id(name: &[char]) -> (r: Option<Vec<char>>)
    ensures
        match r {
            Some(id) => replay_entry_id(name@) == Some(id@),
            None => replay_entry_id(name@) is None,
        },
{
    let dir = vec!['r', 'e', 'p', 'l', 'a', 'y', 's', '/'];
    assert(dir@ =~= replays_dir());
    if !starts_with(name, dir.as_slice()) {
        return None;
    }
    let n = name.len();
    if n < 13 {
        assert(!has_suffix(name@.subrange(8, n as int), rofl_ext()));
        return None;
    }
    let ext = slice_chars(name, n - 5, n);
    let want = vec!['.', 'r', 'o', 'f', 'l'];
    assert(want@ =~= rofl_ext());
    assert(name@.subrange(8, n as int).subrange(n - 13, n - 8) =~= name@.subrange(n - 5, n as int));
    if !crate::text::chars_eq(ext.as_slice(), want.as_slice()) {
        return None;
    }
    Some(slice_chars(name, 8, n - 5))
}

proof fn lemma_scan_err(s: Seq<Option<PackageEntry>>, k: int)
    requires
        0 <= k <= s.len(),
        scan(s.subrange(0, k)) is Err,
    ensures
        scan(s) == scan(s.subrange(0, k)),
    decreases s.len() - k,
{
    if k == s.len() {
        assert(s.subrange(0, k) =~= s);
    } else {
        assert(s.subrange(0, k + 1).drop_last() =~= s.subrange(0, k));
        lemma_scan_err(s, k + 1);
    }
}

fn seen_before(entries: &[Option<PackageEntry>], i: usize, name: &String) -> (r: bool)
    requires
        i <= entries@.len(),
    ensures
        r == exists|j: int| 0 <= j < i && named(#[trigger] entries@[j], name@),
{
    let mut j: usize = 0;
    while j < i
        invariant
            j <= i <= entries@.len(),
            forall|k: int| 0 <= k < j ==> !named(#[trigger] entries@[k], name@),
        decreases i - j,
    {
        if let Some(other) = &entries[j] {
            if other.name == *name {
                assert(named(entries@[j as int], name@));
                return true;
            }
        }
        j = j + 1;
    }
    false
}

fn check_entry(entries: &[Option<PackageEntry>], i: usize, total: u64, archives: u64) -> (r: Result<
    (u64, u64),
    String,
>)
    requires
        i < entries@.len() <= ENTRY_LIMIT,
        archives <= i,
        total <= REPLAY_TOTAL_LIMIT,
    ensures
        match r {
            Ok((t, a)) => step(entries@.subrange(0, i as int), entries@[i as int], total as int, archives as int)
                == Ok::<(int, int), Seq<char>>((t as int, a as int)) && t <= REPLAY_TOTAL_LIMIT,
            Err(e) => step(entries@.subrange(0, i as int), entries@[i as int], total as int, archives as int)
                == Err::<(int, int), Seq<char>>(e@),
        },
{
    let ghost before = entries@.subrange(0, i as int);
    let entry = match &entries[i] {
        Some(e) => e,
        None => return Err(owned("backup.invalid")),
    };
    let dup = seen_before(entries, i, &entry.name);
    assert(dup == exists|j: int| 0 <= j < before.len() && named(#[trigger] before[j], entry.name@)) by {
        if dup {
            let j = choose|j: int| 0 <= j < i && named(#[trigger] entries@[j], entry.name@);
            assert(before[j] == entries@[j]);
        }
        if exists|j: int| 0 <= j < before.len() && named(#[trigger] before[j], entry.name@) {
            let j = choose|j: int| 0 <= j < before.len() && named(#[trigger] before[j], entry.name@);
            assert(before[j] == entries@[j]);
        }
    }
    if entry.symlink || dup {
        return Err(owned("backup.invalid"));
    }
    let name = chars_of(entry.name.as_str());
    let archive = vec!['a', 'r', 'c', 'h', 'i', 'v', 'e', '.', 'j', 's', 'o', 'n', 'l'];
    proof {
        reveal_strlit("archive.jsonl");
    }
    assert(archive@ =~= archive_name());
    if crate::text::chars_eq(name.as_slice(), archive.as_slice()) {
        if entry.size > STREAM_LIMIT {
            return Err(owned("backup.tooLarge"));
        }
        return Ok((total, archives + 1));
    }
    let id = match entry_id(name.as_slice()) {
        Some(id) => id,
        None => return Err(owned("backup.invalid")),
    };
    if !valid_match_id(id.as_slice()) {
        return Err(owned("game.invalidId"));
    }
    if entry.size > 536870912 {
        return Err(owned("replay.tooLarge"));
    }
    if total + entry.size > REPLAY_TOTAL_LIMIT {
        return Err(owned("backup.tooLarge"));
    }
    Ok((total + entry.size, archives))
}

/// Checks a package's directory before anything is extracted.
pub fn validate_entries(entries: &[Option<PackageEntry>]) -> (r: Result<(), String>)
    ensures
        match r {
            Ok(()) => spec_validate_entries(entries@) is Ok,
            Err(e) => spec_validate_entries(entries@) == Err::<(), Seq<char>>(e@),
        },
{
    if entries.len() > ENTRY_LIMIT {
        return Err(owned("backup.tooLarge"));
    }
    let mut total: u64 = 0;
    let mut archives: u64 = 0;
    let mut i: usize = 0;
    while i < entries.len()
        invariant
            i <= entries@.len() <= ENTRY_LIMIT,
            archives <= i,
            total <= REPLAY_TOTAL_LIMIT,
            scan(entries@.subrange(0, i as int)) == Ok::<(int, int), Seq<char>>((total as int, archives as int)),
        decreases entries.len() - i,
    {
        proof {
            let next = entries@.subrange(0, i + 1);
            assert(next.drop_last() =~= entries@.subrange(0, i as int));
            assert(next.last() == entries@[i as int]);
            assert(scan(next) == step(entries@.subrange(0, i as int), entries@[i as int], total as int, archives as int));
        }
        match check_entry(entries, i, total, archives) {
            Ok((t, a)) => {
                total = t;
                archives = a;
            },
            Err(e) => {
                proof {
                    lemma_scan_err(entries@, i + 1);
                }
                return Err(e);
            },
        }
        i = i + 1;
    }
    assert(entries@.subrange(0, entries@.len() as int) =~= entries@);
    if archives != 1 {
        return Err(owned("backup.invalid"));
    }
    Ok(())
}


/// A note of a shared match as the package's text shows it: its time into the match in whole
/// seconds, if it has one, its text and its tags.
#[derive(Debug)]
pub struct ShareNote {
    pub at_seconds: Option<u64>,
    pub body: String,
    pub tags: Vec<String>,
}

/// A number written with at least two digits.
pub open spec fn two_digits(n: nat) -> Seq<char> {
    if n < 10 {
        "0"@ + decimal(n)
    } else {
        decimal(n)
    }
}

/// The heading of a note: `MM:SS` into the match, or `Match` for a note on the whole match.
pub open spec fn note_stamp(at: Option<u64>) -> Seq<char> {
    match at {
        Some(t) => two_digits((t / 60) as nat) + ":"@ + two_digits((t % 60) as nat),
        None => "Match"@,
    }
}

/// The section of one note: its heading, its text and its tags.
pub open spec fn note_section(n: ShareNote) -> Seq<char> {
    "## "@ + note_stamp(n.at_seconds) + "\n\n"@ + n.body@ + "\n\n"@ + join(
        n.tags@.map_values(|t: String| t@),
        ", "@,
    )
}

/// The readable notes of a shared match: the match, the account and server it was played on,
/// then each note's section.
pub open spec fn spec_notes_markdown(id: Seq<char>, riot_id: Seq<char>, server: Seq<char>, notes: Seq<ShareNote>) -> Seq<char> {
    "# "@ + id + "\n\n"@ + riot_id + " \u{b7} "@ + server + "\n\n"@ + join(
        notes.map_values(|n: ShareNote| note_section(n)),
        "\n\n"@,
    )
}

fn two_digits_chars(n: u64) -> (r: Vec<char>)
    ensures
        r@ == two_digits(n as nat),
{
    let d = decimal_chars(n);
    if n < 10 {
        let mut r = chars_of("0");
        append_chars(&mut r, d.as_slice());
        r
    } else {
        d
    }
}

fn stamp_chars(at: Option<u64>) -> (r: Vec<char>)
    ensures
        r@ == note_stamp(at),
{
    match at {
        Some(t) => {
            let mut r = two_digits_chars(t / 60);
            append_chars(&mut r, chars_of(":").as_slice());
            append_chars(&mut r, two_digits_chars(t % 60).as_slice());
            r
        },
        None => chars_of("Match"),
    }
}

/// `parts` joined with `sep` between each two.
fn join_parts(parts: &Vec<Vec<char>>, sep: &[char]) -> (r: Vec<char>)
    ensures
        r@ == join(parts@.map_values(|p: Vec<char>| p@), sep@),
{
    let ghost views = parts@.map_values(|p: Vec<char>| p@);
    let mut out: Vec<char> = Vec::new();
    let mut i: usize = 0;
    assert(views.take(0) =~= Seq::<Seq<char>>::empty());
    while i < parts.len()
        invariant
            i <= parts@.len(),
            views == parts@.map_values(|p: Vec<char>| p@),
            out@ == join(views.take(i as int), sep@),
        decreases parts.len() - i,
    {
        proof {
            assert(views.take(i + 1).drop_last() =~= views.take(i as int));
            assert(views.take(i + 1).last() == parts@[i as int]@);
        }
        if i > 0 {
            append_chars(&mut out, sep);
        } else {
            assert(out@ =~= Seq::<char>::empty());
        }
        append_chars(&mut out, parts[i].as_slice());
        i = i + 1;
        assert(out@ =~= join(views.take(i as int), sep@));
    }
    assert(views.take(parts@.len() as int) =~= views);
    out
}

fn section_chars(n: &ShareNote) -> (r: Vec<char>)
    ensures
        r@ == note_section(*n),
{
    let mut tags: Vec<Vec<char>> = Vec::new();
    let mut i: usize = 0;
    while i < n.tags.len()
        invariant
            i <= n.tags@.len(),
            tags@.map_values(|p: Vec<char>| p@) =~= n.tags@.take(i as int).map_values(|t: String| t@),
        decreases n.tags.len() - i,
    {
        let ghost prev = tags@;
        let c = chars_of(n.tags[i].as_str());
        tags.push(c);
        i = i + 1;
        proof {
            let mapped = tags@.map_values(|p: Vec<char>| p@);
            let want = n.tags@.take(i as int).map_values(|t: String| t@);
            let was = prev.map_values(|p: Vec<char>| p@);
            let wanted = n.tags@.take(i - 1).map_values(|t: String| t@);
            assert(was == wanted);
            assert forall|k: int| 0 <= k < i implies #[trigger] mapped[k] == want[k] by {
                if k < i - 1 {
                    assert(tags@[k] == prev[k]);
                    assert(was[k] == wanted[k]);
                } else {
                    assert(tags@[k]@ == c@);
                }
            }
            assert(mapped =~= want);
        }
    }
    assert(n.tags@.take(n.tags@.len() as int) =~= n.tags@);
    let mut r = chars_of("## ");
    append_chars(&mut r, stamp_chars(n.at_seconds).as_slice());
    append_chars(&mut r, chars_of("\n\n").as_slice());
    append_chars(&mut r, chars_of(n.body.as_str()).as_slice());
    append_chars(&mut r, chars_of("\n\n").as_slice());
    append_chars(&mut r, join_parts(&tags, chars_of(", ").as_slice()).as_slice());
    r
}

/// The `notes.md` of a share package: see `spec_notes_markdown`.
pub fn notes_markdown(id: &str, riot_id: &str, server: &str, notes: &Vec<ShareNote>) -> (r: String)
    ensures
        r@ == spec_notes_markdown(id@, riot_id@, server@, notes@),
{
    let mut sections: Vec<Vec<char>> = Vec::new();
    let mut i: usize = 0;
    while i < notes.len()
        invariant
            i <= notes@.len(),
            sections@.map_values(|p: Vec<char>| p@) =~= notes@.take(i as int).map_values(|n: ShareNote| note_section(n)),
        decreases notes.len() - i,
    {
        let ghost prev = sections@;
        let c = section_chars(&notes[i]);
        sections.push(c);
        i = i + 1;
        proof {
            let mapped = sections@.map_values(|p: Vec<char>| p@);
            let want = notes@.take(i as int).map_values(|n: ShareNote| note_section(n));
            let was = prev.map_values(|p: Vec<char>| p@);
            let wanted = notes@.take(i - 1).map_values(|n: ShareNote| note_section(n));
            assert(was == wanted);
            assert forall|k: int| 0 <= k < i implies #[trigger] mapped[k] == want[k] by {
                if k < i - 1 {
                    assert(sections@[k] == prev[k]);
                    assert(was[k] == wanted[k]);
                } else {
                    assert(sections@[k]@ == c@);
                }
            }
            assert(mapped =~= want);
        }
    }
    assert(notes@.take(notes@.len() as int) =~= notes@);
    let mut r = chars_of("# ");
    append_chars(&mut r, chars_of(id).as_slice());
    append_chars(&mut r, chars_of("\n\n").as_slice());
    append_chars(&mut r, chars_of(riot_id).as_slice());
    append_chars(&mut r, chars_of(" \u{b7} ").as_slice());
    append_chars(&mut r, chars_of(server).as_slice());
    append_chars(&mut r, chars_of("\n\n").as_slice());
    append_chars(&mut r, join_parts(&sections, chars_of("\n\n").as_slice()).as_slice());
    string_of(r.as_slice())
}

/// The most replays a full backup package takes.
pub const EXPORT_REPLAY_LIMIT: usize = 10000;

/// The sum of the sizes.
pub open spec fn total_size(sizes: Seq<u64>) -> int
    decreases sizes.len(),
{
    if sizes.len() == 0 {
        0
    } else {
        total_size(sizes.drop_last()) + sizes.last()
    }
}

/// Whether the replay files found for a full backup fit in one package: at most
/// `EXPORT_REPLAY_LIMIT` files of at most `REPLAY_TOTAL_LIMIT` bytes in all; else
/// `backup.tooLarge`.
pub fn check_export_sizes(sizes: &Vec<u64>) -> (r: Result<(), String>)
    ensures
        match r {
            Ok(()) => sizes@.len() <= EXPORT_REPLAY_LIMIT && total_size(sizes@) <= REPLAY_TOTAL_LIMIT,
            Err(e) => !(sizes@.len() <= EXPORT_REPLAY_LIMIT && total_size(sizes@) <= REPLAY_TOTAL_LIMIT)
                && e@ == "backup.tooLarge"@,
        },
{
    let mut total: u64 = 0;
    let mut i: usize = 0;
    assert(sizes@.take(0) =~= Seq::<u64>::empty());
    while i < sizes.len()
        invariant
            i <= sizes@.len(),
            i <= EXPORT_REPLAY_LIMIT,
            total == total_size(sizes@.take(i as int)),
            total <= REPLAY_TOTAL_LIMIT,
        decreases sizes.len() - i,
    {
        proof {
            assert(sizes@.take(i + 1).drop_last() =~= sizes@.take(i as int));
        }
        if i + 1 > EXPORT_REPLAY_LIMIT || sizes[i] > REPLAY_TOTAL_LIMIT - total {
            proof {
                lemma_total_grows(sizes@, i + 1);
            }
            return Err(owned("backup.tooLarge"));
        }
        total = total + sizes[i];
        i = i + 1;
    }
    assert(sizes@.take(sizes@.len() as int) =~= sizes@);
    Ok(())
}

/// The total of a prefix is no more than the total of the whole.
proof fn lemma_total_grows(sizes: Seq<u64>, k: int)
    requires
        0 <= k <= sizes.len(),
    ensures
        total_size(sizes.take(k)) <= total_size(sizes),
    decreases sizes.len() - k,
{
    if k < sizes.len() {
        lemma_total_grows(sizes, k + 1);
        assert(sizes.take(k + 1).drop_last() =~= sizes.take(k));
    } else {
        assert(sizes.take(k) =~= sizes);
    }
}

} // verus!
