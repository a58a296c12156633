//! Identity and size rules for replay files in managed storage.
use vstd::prelude::*;
use std::path::{Path, PathBuf};
use crate::domain::{spec_valid_game_id, valid_game_id_chars};
use crate::rofl::ReplayInspection;
use crate::domain::StoredReview;
use crate::json::{Json, as_text, as_u64, field, field_text, field_u64, json_text, json_u64, member, member_of};
use crate::regions::{ServerConfig, find_server, path_alias, servers_of};
use crate::text::{has_suffix, string_of, eq_ignore_ascii_case, same_ignoring_ascii_case, chars_of, find_char, is_ascii_alphanumeric, owned, parse_decimal, position_of, slice_chars, spec_parse_decimal, tail};

verus! {

#[verifier::external_type_specification]
#[verifier::external_body]
pub struct ExPath(Path);

#[verifier::external_type_specification]
#[verifier::external_body]
pub struct ExPathBuf(PathBuf);

/// The largest replay container accepted, in bytes.
pub open spec fn max_replay_bytes() -> int {
    536870912int
}

/// The position of the last `_` in `s`, if any.
pub open spec fn last_underscore(s: Seq<char>) -> Option<int> {
    if exists|i: int| 0 <= i < s.len() && s[i] == '_' {
        Some(choose|i: int| 0 <= i < s.len() && s[i] == '_' && forall|j: int| i < j < s.len() ==> s[j] != '_')
    } else {
        None
    }
}

/// `id` split at position `i` gives a valid platform part and game part.
pub open spec fn match_id_parts(id: Seq<char>, i: int) -> bool {
    let platform = id.subrange(0, i);
    let game = id.subrange(i + 1, id.len() as int);
    &&& spec_valid_game_id(game)
    &&& 0 < platform.len() <= 32
    &&& forall|k: int| 0 <= k < platform.len() ==> is_ascii_alphanumeric(#[trigger] platform[k]) || platform[k] == '_'
}

/// `i` is the position of the last `_` in `id`.
pub open spec fn last_underscore_at_pos(id: Seq<char>, i: int) -> bool {
    &&& 0 <= i < id.len()
    &&& id[i] == '_'
    &&& forall|j: int| i < j < id.len() ==> id[j] != '_'
}

/// A match identifier `PLATFORM_GAME`: the game part (after the last `_`) is a canonical
/// positive game number and the platform part is 1 to 32 characters of ASCII letters, digits
/// and `_`.
pub open spec fn spec_valid_match_id(id: Seq<char>) -> bool {
    exists|i: int| last_underscore_at_pos(id, i) && #[trigger] match_id_parts(id, i)
}

fn last_underscore_at(s: &[char]) -> (r: Option<usize>)
    ensures
        match r {
            Some(i) => i < s.len() && s@[i as int] == '_' && forall|j: int| i < j < s@.len() ==> s@[j] != '_',
            None => forall|j: int| 0 <= j < s@.len() ==> s@[j] != '_',
        },
{
    let mut i = s.len();
    while i > 0
        invariant
            i <= s@.len(),
            forall|j: int| i <= j < s@.len() ==> s@[j] != '_',
        decreases i,
    {
        if s[i - 1] == '_' {
            return Some(i - 1);
        }
        i = i - 1;
    }
    None
}

/// Whether `id` is a match identifier that can name a file in managed storage.
pub fn valid_match_id(id: &[char]) -> (r: bool)
    ensures
        r == spec_valid_match_id(id@),
{
    let i = match last_underscore_at(id) {
        Some(i) => i,
        None => {
            assert(!spec_valid_match_id(id@));
            return false;
        },
    };
    let platform = slice_chars(id, 0, i);
    let game = tail(id, i + 1);
    let ok_game = valid_game_id_chars(game.as_slice());
    let mut ok_chars = true;
    let mut k: usize = 0;
    while k < platform.len()
        invariant
            k <= platform@.len(),
            ok_chars == forall|m: int| 0 <= m < k ==> is_ascii_alphanumeric(#[trigger] platform@[m])
                || platform@[m] == '_',
        decreases platform.len() - k,
    {
        let c = platform[k];
        if !(('0' <= c && c <= '9') || ('A' <= c && c <= 'Z') || ('a' <= c && c <= 'z') || c == '_') {
            ok_chars = false;
        }
        k = k + 1;
    }
    let result = ok_game && platform.len() > 0 && platform.len() <= 32 && ok_chars;
    proof {
        assert(result == match_id_parts(id@, i as int));
        if spec_valid_match_id(id@) {
            let w = choose|w: int| last_underscore_at_pos(id@, w) && #[trigger] match_id_parts(id@, w);
            if w < i {
                assert(id@[i as int] != '_');
            }
            if w > i {
                assert(id@[w] != '_');
            }
        }
        if result {
            assert(last_underscore_at_pos(id@, i as int));
        }
    }
    result
}

/// The file holding match `id` inside `root`: `root/ID.rofl`. Identifiers that could leave
/// the managed directory are refused.
pub fn path(root: &Path, id: &str) -> (r: Result<PathBuf, String>)
    ensures
        r is Ok <==> spec_valid_match_id(id@),
        r matches Ok(p) ==> p == joined(root, id@ + ".rofl"@),
        r matches Err(e) ==> e@ == "game.invalidId"@,
{
    let chars = chars_of(id);
    if !valid_match_id(chars.as_slice()) {
        return Err(owned("game.invalidId"));
    }
    let mut name = owned(id);
    name.append(".rofl");
    Ok(join(root, name.as_str()))
}

/// What `Path::join` of the standard library gives for a directory and a relative name.
pub uninterp spec fn joined(root: &Path, name: Seq<char>) -> PathBuf;

/// `Path::join` of the standard library: the path named `name` inside `root`. Its result is
/// a function of its two arguments alone, named `joined`.
#[verifier::external_body]
fn join(root: &Path, name: &str) -> (r: PathBuf)
    ensures
        r == joined(root, name@),
{
    root.join(name)
}

/// Refuses replay containers larger than the managed limit.
pub fn check_size(size: u64) -> (r: Result<(), String>)
    ensures
        r is Ok <==> size <= max_replay_bytes(),
        r matches Err(e) ==> e@ == "replay.tooLarge"@,
{
    if size > 512 * 1024 * 1024 {
        Err(owned("replay.tooLarge"))
    } else {
        Ok(())
    }
}

/// The text of `s` up to the first `.`, or all of it.
pub open spec fn before_dot(s: Seq<char>) -> Seq<char> {
    match position_of(s, '.') {
        Some(p) => s.subrange(0, p),
        None => s,
    }
}

/// The major and minor numbers of a game version `MAJOR.MINOR[.…]`.
pub open spec fn spec_patch(version: Seq<char>) -> Option<(u32, u32)> {
    match position_of(version, '.') {
        None => None,
        Some(p) => {
            let major = spec_parse_decimal(version.subrange(0, p), 4294967295u64);
            let minor = spec_parse_decimal(before_dot(version.subrange(p + 1, version.len() as int)), 4294967295u64);
            if major is Some && minor is Some {
                Some((major->0 as u32, minor->0 as u32))
            } else {
                None
            }
        },
    }
}

pub fn patch_chars(version: &[char]) -> (r: Option<(u32, u32)>)
    ensures
        r == spec_patch(version@),
{
    let p = match find_char(version, '.') {
        Some(p) => p,
        None => return None,
    };
    let first = slice_chars(version, 0, p);
    let rest = tail(version, p + 1);
    let second = match find_char(rest.as_slice(), '.') {
        Some(q) => slice_chars(rest.as_slice(), 0, q),
        None => tail(rest.as_slice(), 0),
    };
    assert(second@ == before_dot(version@.subrange(p + 1, version@.len() as int)));
    let a = parse_decimal(first.as_slice(), 4294967295u64);
    let b = parse_decimal(second.as_slice(), 4294967295u64);
    match (a, b) {
        (Some(a), Some(b)) => Some((a as u32, b as u32)),
        _ => None,
    }
}

/// The major and minor numbers of a game version, which decide replay compatibility.
pub fn patch(version: &str) -> (r: Option<(u32, u32)>)
    ensures
        r == spec_patch(version@),
{
    patch_chars(chars_of(version).as_slice())
}

/// The game number that a metadata value names: an unsigned integer, or decimal text.
pub open spec fn metadata_number(v: Json) -> Option<u64> {
    match json_u64(v) {
        Some(n) => Some(n),
        None => match json_text(v) {
            Some(t) => spec_parse_decimal(t, u64::MAX),
            None => None,
        },
    }
}

/// The platform that the metadata names: `platformId`, or else `platform`.
pub open spec fn metadata_platform(raw: Json) -> Option<Json> {
    match member_of(raw, "platformId"@) {
        Some(v) => Some(v),
        None => member_of(raw, "platform"@),
    }
}

/// Whether an inspected replay container is the stored game: its legacy payload and its
/// metadata name the game's number, its metadata names a platform of the game's server (the
/// account's platform, the server's path alias, or the server itself, ignoring ASCII case),
/// and its version has the patch of the stored match.
pub open spec fn spec_check_identity(
    servers: Seq<crate::regions::ServerEntry>,
    game: StoredReview,
    legacy_game_id: Option<u64>,
    game_version: Seq<char>,
    raw: Json,
) -> Result<(), Seq<char>> {
    match json_u64(field(game.detail, "gameId"@)) {
        None => Err("game.invalidId"@),
        Some(expected) => if legacy_game_id matches Some(g) && g != expected {
            Err("game.identityMismatch"@)
        } else if member_of(raw, "gameId"@) matches Some(v) && metadata_number(v) != Some(expected) {
            Err("game.identityMismatch"@)
        } else if metadata_platform(raw) matches Some(v) && json_text(v) is None {
            Err("game.identityMismatch"@)
        } else if metadata_platform(raw) is Some && !(find_server(servers, game.server@) matches Some(e)
            && e.match_history is Some) {
            Err("region.unsupported"@)
        } else if metadata_platform(raw) matches Some(v) && !(eq_ignore_ascii_case(game.account.platform@, json_text(v)->0)
            || eq_ignore_ascii_case(path_alias(servers, game.server@), json_text(v)->0) || eq_ignore_ascii_case(
            game.server@,
            json_text(v)->0,
        )) {
            Err("game.identityMismatch"@)
        } else if spec_patch(game_version) is None || spec_patch(game_version) != match json_text(
            field(game.detail, "gameVersion"@),
        ) {
            Some(d) => spec_patch(d),
            None => None,
        } {
            Err("replay.versionMismatch"@)
        } else {
            Ok(())
        }
    }
}

fn metadata_number_of(v: &Json) -> (r: Option<u64>)
    ensures
        r == metadata_number(*v),
{
    match as_u64(v) {
        Some(n) => Some(n),
        None => match as_text(v) {
            Some(t) => parse_decimal(chars_of(t).as_slice(), u64::MAX),
            None => None,
        },
    }
}

/// Checks that an inspected replay container, whose metadata document is `raw`, is the
/// stored game; see `spec_check_identity`.
pub fn check_identity(config: &ServerConfig, game: &StoredReview, inspection: &ReplayInspection, raw: &Json) -> (r:
    Result<(), String>)
    ensures
        match r {
            Ok(()) => spec_check_identity(
                servers_of(*config),
                *game,
                match inspection.legacy_payload {
                    Some(p) => Some(p.game_id),
                    None => None,
                },
                inspection.game_version@,
                *raw,
            ) is Ok,
            Err(e) => spec_check_identity(
                servers_of(*config),
                *game,
                match inspection.legacy_payload {
                    Some(p) => Some(p.game_id),
                    None => None,
                },
                inspection.game_version@,
                *raw,
            ) == Err::<(), Seq<char>>(e@),
        },
{
    let expected = match field_u64(&game.detail, "gameId") {
        Some(e) => e,
        None => return Err(owned("game.invalidId")),
    };
    if let Some(p) = inspection.legacy_payload {
        if p.game_id != expected {
            return Err(owned("game.identityMismatch"));
        }
    }
    if let Some(v) = member(raw, "gameId") {
        match metadata_number_of(v) {
            Some(n) => if n != expected {
                return Err(owned("game.identityMismatch"));
            },
            None => return Err(owned("game.identityMismatch")),
        }
    }
    let platform_value = match member(raw, "platformId") {
        Some(v) => Some(v),
        None => member(raw, "platform"),
    };
    if let Some(v) = platform_value {
        let platform = match as_text(v) {
            Some(t) => t,
            None => return Err(owned("game.identityMismatch")),
        };
        let sub = match config.endpoint(game.server.as_str(), true) {
            Ok((_, sub)) => sub,
            Err(e) => return Err(e),
        };
        if !(same_ignoring_ascii_case(game.account.platform.as_str(), platform) || same_ignoring_ascii_case(
            sub.as_str(),
            platform,
        ) || same_ignoring_ascii_case(game.server.as_str(), platform)) {
            return Err(owned("game.identityMismatch"));
        }
    }
    let have = patch(inspection.game_version.as_str());
    let want = match field_text(&game.detail, "gameVersion") {
        Some(d) => patch(d),
        None => None,
    };
    let same = match (have, want) {
        (Some(a), Some(b)) => a.0 == b.0 && a.1 == b.1,
        _ => false,
    };
    if !same {
        return Err(owned("replay.versionMismatch"));
    }
    Ok(())
}

/// The match a file of managed storage belongs to: a replay `ID.rofl`, a partial download
/// `ID.part` or its resume record `ID.resume.json`, with a valid match id. Other files are
/// not the library's.
pub open spec fn spec_managed_file(name: Seq<char>) -> Option<Seq<char>> {
    let id = if has_suffix(name, ".rofl"@) {
        Some(name.subrange(0, name.len() - 5))
    } else if has_suffix(name, ".part"@) {
        Some(name.subrange(0, name.len() - 5))
    } else if has_suffix(name, ".resume.json"@) {
        Some(name.subrange(0, name.len() - 12))
    } else {
        None
    };
    match id {
        Some(i) => if spec_valid_match_id(i) {
            Some(i)
        } else {
            None
        },
        None => None,
    }
}

fn ends_with(s: &[char], suffix: &str) -> (r: bool)
    ensures
        r == has_suffix(s@, suffix@),
{
    let x = chars_of(suffix);
    if x.len() > s.len() {
        return false;
    }
    let t = tail(s, s.len() - x.len());
    crate::text::chars_eq(t.as_slice(), x.as_slice())
}

/// The match id of a managed file's name, if it is one.
pub fn managed_file(name: &str) -> (r: Option<String>)
    ensures
        match r {
            Some(id) => spec_managed_file(name@) == Some(id@),
            None => spec_managed_file(name@) is None,
        },
{
    let v = chars_of(name);
    proof {
        reveal_strlit(".rofl");
        reveal_strlit(".part");
        reveal_strlit(".resume.json");
    }
    let id = if ends_with(v.as_slice(), ".rofl") {
        slice_chars(v.as_slice(), 0, v.len() - 5)
    } else if ends_with(v.as_slice(), ".part") {
        slice_chars(v.as_slice(), 0, v.len() - 5)
    } else if ends_with(v.as_slice(), ".resume.json") {
        slice_chars(v.as_slice(), 0, v.len() - 12)
    } else {
        return None;
    };
    if valid_match_id(id.as_slice()) {
        Some(string_of(id.as_slice()))
    } else {
        None
    }
}

/// A valid match id is made of ASCII letters, digits and `_` only, so the file it names in
/// managed storage has no separator or dot of its own and cannot lie outside the directory.
pub proof fn lemma_match_id_is_plain(id: Seq<char>)
    requires
        spec_valid_match_id(id),
    ensures
        forall|k: int| 0 <= k < id.len() ==> is_ascii_alphanumeric(#[trigger] id[k]) || id[k] == '_',
{
    let i = choose|i: int| last_underscore_at_pos(id, i) && #[trigger] match_id_parts(id, i);
    assert forall|k: int| 0 <= k < id.len() implies is_ascii_alphanumeric(#[trigger] id[k]) || id[k] == '_' by {
        if k < i {
            assert(id.subrange(0, i)[k] == id[k]);
        } else if k > i {
            let game = id.subrange(i + 1, id.len() as int);
            assert(game[k - i - 1] == id[k]);
            assert(crate::text::is_ascii_digit(game[k - i - 1]));
        }
    }
}


/// One entry of the current storage directory, as a move of the storage root sees it: its
/// name, whether it is a plain file, whether the destination already holds that name, and
/// whether the two files are identical.
#[derive(Debug)]
pub struct RootEntry {
    pub name: String,
    pub is_file: bool,
    pub target_exists: bool,
    pub identical: bool,
}

/// A managed file of the library: its name is one of the library's, and it is a plain file.
pub open spec fn entry_managed(e: RootEntry) -> bool {
    spec_managed_file(e.name@) is Some && e.is_file
}

/// A managed file whose name is taken in the destination by a different file.
pub open spec fn entry_conflicts(e: RootEntry) -> bool {
    entry_managed(e) && e.target_exists && !e.identical
}

/// The names a move of the storage root copies, in directory order: the managed files that
/// the destination does not hold yet.
pub open spec fn root_copies(entries: Seq<RootEntry>) -> Seq<Seq<char>>
    decreases entries.len(),
{
    if entries.len() == 0 {
        Seq::empty()
    } else {
        let rest = root_copies(entries.drop_last());
        let e = entries.last();
        if entry_managed(e) && !e.target_exists {
            rest.push(e.name@)
        } else {
            rest
        }
    }
}

/// What a move of the storage root copies: `replay.destinationExists` when the destination
/// holds a different file under the name of a managed file, else the names of the managed
/// files to copy (see `root_copies`). Identical files already there, and files that are not
/// the library's, are left alone.
pub fn plan_root_copy(entries: &Vec<RootEntry>) -> (r: Result<Vec<String>, String>)
    ensures
        match r {
            Ok(names) => (forall|i: int| 0 <= i < entries@.len() ==> !entry_conflicts(#[trigger] entries@[i]))
                && names@.map_values(|n: String| n@) == root_copies(entries@),
            Err(e) => (exists|i: int| 0 <= i < entries@.len() && entry_conflicts(#[trigger] entries@[i]))
                && e@ == "replay.destinationExists"@,
        },
{
    let mut names: Vec<String> = Vec::new();
    let mut i: usize = 0;
    assert(entries@.take(0) =~= Seq::<RootEntry>::empty());
    assert(names@.map_values(|n: String| n@) =~= Seq::<Seq<char>>::empty());
    while i < entries.len()
        invariant
            i <= entries@.len(),
            forall|j: int| 0 <= j < i ==> !entry_conflicts(#[trigger] entries@[j]),
            names@.map_values(|n: String| n@) == root_copies(entries@.take(i as int)),
        decreases entries.len() - i,
    {
        let e = &entries[i];
        proof {
            assert(entries@.take(i + 1).drop_last() =~= entries@.take(i as int));
            assert(entries@.take(i + 1).last() == entries@[i as int]);
        }
        let managed = match managed_file(e.name.as_str()) {
            Some(_) => e.is_file,
            None => false,
        };
        if managed {
            if e.target_exists {
                if !e.identical {
                    return Err(owned("replay.destinationExists"));
                }
            } else {
                let ghost before = names@.map_values(|n: String| n@);
                names.push(owned(e.name.as_str()));
                assert(names@.map_values(|n: String| n@) =~= before.push(e.name@));
            }
        }
        i = i + 1;
    }
    assert(entries@.take(entries@.len() as int) =~= entries@);
    Ok(names)
}

/// Law: a match id built from a platform (1 to 32 ASCII letters, digits and `_`) and a
/// canonical game number, joined by `_`, is one that managed storage accepts, and it splits
/// back into that platform and that game number.
pub proof fn lemma_match_id_compose(platform: Seq<char>, game: Seq<char>)
    requires
        0 < platform.len() <= 32,
        forall|k: int| 0 <= k < platform.len() ==> is_ascii_alphanumeric(#[trigger] platform[k]) || platform[k] == '_',
        spec_valid_game_id(game),
    ensures
        spec_valid_match_id(platform + "_"@ + game),
        ({
            let id = platform + "_"@ + game;
            forall|i: int| last_underscore_at_pos(id, i) ==> id.subrange(0, i) == platform && id.subrange(i + 1, id.len() as int) == game
        }),
{
    reveal_strlit("_");
    let id = platform + "_"@ + game;
    let i = platform.len() as int;
    assert(id[i] == '_');
    assert forall|j: int| i < j < id.len() implies id[j] != '_' by {
        assert(id[j] == game[j - i - 1]);
        assert(crate::text::is_ascii_digit(game[j - i - 1]));
    }
    assert(id.subrange(0, i) =~= platform);
    assert(id.subrange(i + 1, id.len() as int) =~= game);
    assert(last_underscore_at_pos(id, i));
    assert(match_id_parts(id, i));
    assert forall|k: int| last_underscore_at_pos(id, k) implies id.subrange(0, k) == platform && id.subrange(k + 1, id.len() as int) == game by {
        if k < i {
            assert(id[i] == '_');
        }
        if k > i {
            assert(id[k] == game[k - i - 1]);
            assert(crate::text::is_ascii_digit(game[k - i - 1]));
        }
    }
}

} // verus!
