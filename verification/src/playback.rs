//! Preconditions and arguments for playing a replay in the local game client.
use vstd::prelude::*;
use crate::json::{Json, JsonNumber, as_text, field, field_bool, field_text, field_u64, json_bool, json_text, json_u64, same};
use crate::files::{patch, spec_patch};
use crate::matches::copy_field;
use crate::text::{chars_of, has_prefix, owned, push_char, starts_with, string_of, tail};

verus! {

/// Phases in which a replay may be started.
pub open spec fn idle_phase(phase: Seq<char>) -> bool {
    phase == "None"@ || phase == "Lobby"@ || phase == "EndOfGame"@
}

/// The replay configuration sets `key` to `true`.
pub open spec fn flag(config: Json, key: Seq<char>) -> bool {
    json_bool(field(config, key)) == Some(true)
}

/// Whether the client is idle enough to start a replay, given its game flow phase and its
/// replay configuration, each `None` when the client did not provide it.
pub open spec fn spec_check_idle(phase: Option<Json>, config: Option<Json>) -> Result<(), Seq<char>> {
    if (phase matches Some(p) && !(json_text(p) matches Some(t) && idle_phase(t))) || (config matches Some(c) && (
    flag(c, "isPatching"@) || flag(c, "isPlayingGame"@) || flag(c, "isPlayingReplay"@))) {
        Err("replay.clientBusy"@)
    } else if phase is None && (config matches Some(c) && flag(c, "isLoggedIn"@)) {
        Err("replay.clientNotReady"@)
    } else {
        Ok(())
    }
}

pub open spec fn opt_json(v: Option<&Json>) -> Option<Json> {
    match v {
        Some(x) => Some(*x),
        None => None,
    }
}

fn flag_of(config: &Json, key: &str) -> (r: bool)
    ensures
        r == flag(*config, key@),
{
    match field_bool(config, key) {
        Some(b) => b,
        None => false,
    }
}

/// Refuses to start a replay while the client queues, plays, patches or is signed in without
/// reporting its phase.
pub fn check_idle(phase: Option<&Json>, config: Option<&Json>) -> (r: Result<(), String>)
    ensures
        match r {
            Ok(()) => spec_check_idle(opt_json(phase), opt_json(config)) is Ok,
            Err(e) => spec_check_idle(opt_json(phase), opt_json(config)) == Err::<(), Seq<char>>(e@),
        },
{
    let busy_phase = match phase {
        Some(p) => match as_text(p) {
            Some(t) => !(crate::text::str_eq(t, "None") || crate::text::str_eq(t, "Lobby")
                || crate::text::str_eq(t, "EndOfGame")),
            None => true,
        },
        None => false,
    };
    let busy_config = match config {
        Some(c) => flag_of(c, "isPatching") || flag_of(c, "isPlayingGame") || flag_of(c, "isPlayingReplay"),
        None => false,
    };
    if busy_phase || busy_config {
        return Err(owned("replay.clientBusy"));
    }
    let signed_in = match config {
        Some(c) => flag_of(c, "isLoggedIn"),
        None => false,
    };
    if phase.is_none() && signed_in {
        return Err(owned("replay.clientNotReady"));
    }
    Ok(())
}

/// The `-Region=` value the game expects for a platform.
pub open spec fn launch_region(platform: Seq<char>) -> Option<Seq<char>> {
    if platform == "BR1"@ {
        Some("BR"@)
    } else if platform == "EUW1"@ {
        Some("EUW"@)
    } else if platform == "JP1"@ {
        Some("JP"@)
    } else if platform == "KR"@ {
        Some("KR"@)
    } else if platform == "LA1"@ || platform == "LA2"@ {
        Some("LA"@)
    } else if platform == "NA1"@ {
        Some("NA"@)
    } else if platform == "OC1"@ {
        Some("OC"@)
    } else if platform == "TR1"@ {
        Some("TR"@)
    } else if platform == "RU"@ {
        Some("RU"@)
    } else if platform == "SG2"@ {
        Some("SG"@)
    } else if platform == "TW2"@ {
        Some("TW"@)
    } else if platform == "VN2"@ {
        Some("VN"@)
    } else if platform == "PH2"@ {
        Some("PH"@)
    } else if platform == "TH2"@ {
        Some("TH"@)
    } else if platform == "PBE1"@ {
        Some("PBE"@)
    } else {
        None
    }
}

fn launch_region_of(platform: &str) -> (r: Option<String>)
    ensures
        match r {
            Some(s) => launch_region(platform@) == Some(s@),
            None => launch_region(platform@) is None,
        },
{
    let eq = |lit: &str| -> (b: bool)
        ensures
            b == (platform@ == lit@),
        { crate::text::str_eq(platform, lit) };
    if eq("BR1") {
        Some(owned("BR"))
    } else if eq("EUW1") {
        Some(owned("EUW"))
    } else if eq("JP1") {
        Some(owned("JP"))
    } else if eq("KR") {
        Some(owned("KR"))
    } else if eq("LA1") || eq("LA2") {
        Some(owned("LA"))
    } else if eq("NA1") {
        Some(owned("NA"))
    } else if eq("OC1") {
        Some(owned("OC"))
    } else if eq("TR1") {
        Some(owned("TR"))
    } else if eq("RU") {
        Some(owned("RU"))
    } else if eq("SG2") {
        Some(owned("SG"))
    } else if eq("TW2") {
        Some(owned("TW"))
    } else if eq("VN2") {
        Some(owned("VN"))
    } else if eq("PH2") {
        Some(owned("PH"))
    } else if eq("TH2") {
        Some(owned("TH"))
    } else if eq("PBE1") {
        Some(owned("PBE"))
    } else {
        None
    }
}

/// Every `\` replaced by `/`.
pub open spec fn forward_slashes(s: Seq<char>) -> Seq<char> {
    Seq::new(s.len(), |i: int| if s[i] == '\\' { '/' } else { s[i] })
}

pub open spec fn unc_prefix() -> Seq<char> {
    seq!['\\', '\\', '?', '\\', 'U', 'N', 'C', '\\']
}

pub open spec fn verbatim_prefix() -> Seq<char> {
    seq!['\\', '\\', '?', '\\']
}

/// A game base directory as the game accepts it: verbatim prefixes removed (a verbatim UNC
/// path becomes `//server/share`) and forward slashes throughout.
pub open spec fn game_base(dir: Seq<char>) -> Seq<char> {
    if has_prefix(dir, unc_prefix()) {
        seq!['/', '/'] + forward_slashes(dir.subrange(8, dir.len() as int))
    } else if has_prefix(dir, verbatim_prefix()) {
        forward_slashes(dir.subrange(4, dir.len() as int))
    } else {
        forward_slashes(dir)
    }
}

fn forward(s: &[char], into: &mut String)
    ensures
        final(into)@ == old(into)@ + forward_slashes(s@),
{
    let ghost start = into@;
    let mut i: usize = 0;
    while i < s.len()
        invariant
            i <= s.len(),
            into@ == start + forward_slashes(s@.subrange(0, i as int)),
        decreases s.len() - i,
    {
        push_char(into, if s[i] == '\\' { '/' } else { s[i] });
        assert(forward_slashes(s@.subrange(0, i + 1)) =~= forward_slashes(s@.subrange(0, i as int)).push(
            if s@[i as int] == '\\' { '/' } else { s@[i as int] },
        ));
        i = i + 1;
    }
    assert(s@.subrange(0, s@.len() as int) =~= s@);
}

/// The game base directory written the way the game expects it.
pub fn base_directory(dir: &str) -> (r: String)
    ensures
        r@ == game_base(dir@),
{
    let chars = chars_of(dir);
    let unc = vec!['\\', '\\', '?', '\\', 'U', 'N', 'C', '\\'];
    assert(unc@ =~= unc_prefix());
    let verbatim = vec!['\\', '\\', '?', '\\'];
    assert(verbatim@ =~= verbatim_prefix());
    let mut out = String::new();
    if starts_with(chars.as_slice(), unc.as_slice()) {
        push_char(&mut out, '/');
        push_char(&mut out, '/');
        forward(tail(chars.as_slice(), 8).as_slice(), &mut out);
        assert(out@ =~= seq!['/', '/'] + forward_slashes(dir@.subrange(8, dir@.len() as int)));
    } else if starts_with(chars.as_slice(), verbatim.as_slice()) {
        forward(tail(chars.as_slice(), 4).as_slice(), &mut out);
        assert(out@ =~= forward_slashes(dir@.subrange(4, dir@.len() as int)));
    } else {
        forward(chars.as_slice(), &mut out);
        assert(out@ =~= forward_slashes(dir@));
    }
    out
}

/// The arguments after the replay path that start the game on a replay: base directory,
/// region, platform (without its `TENCENT_` namespace), locale, and `-SkipBuild`.
pub open spec fn spec_launch_arguments(base: Seq<char>, server: Seq<char>, locale: Seq<char>) -> Option<
    Seq<Seq<char>>,
> {
    match crate::regions::spec_platform(server) {
        None => None,
        Some(p) => {
            let platform = crate::lcu::trim_tencent(p);
            let region = if has_prefix(server, crate::regions::tencent_prefix()) {
                Some("TENCENT"@)
            } else {
                launch_region(platform)
            };
            match region {
                None => None,
                Some(region) => Some(
                    seq![
                        "-GameBaseDir="@ + game_base(base),
                        "-Region="@ + region,
                        "-PlatformID="@ + platform,
                        "-Locale="@ + locale,
                        "-SkipBuild"@,
                    ],
                ),
            }
        },
    }
}

pub open spec fn strings_view(s: Seq<String>) -> Seq<Seq<char>> {
    Seq::new(s.len(), |i: int| s[i]@)
}

/// Builds the game's replay arguments for an installation whose parent directory is `base`.
pub fn launch_arguments(base: &str, server: &str, locale: &str) -> (r: Result<Vec<String>, String>)
    ensures
        match r {
            Ok(args) => spec_launch_arguments(base@, server@, locale@) == Some(strings_view(args@)),
            Err(e) => spec_launch_arguments(base@, server@, locale@) is None && e@ == "region.unsupported"@,
        },
{
    let p = crate::regions::platform(server)?;
    let trimmed = string_of(crate::lcu::trim_tencent_chars(chars_of(p.as_str()).as_slice()).as_slice());
    let t = crate::regions::tencent_chars();
    let region = if starts_with(chars_of(server).as_slice(), t.as_slice()) {
        owned("TENCENT")
    } else {
        match launch_region_of(trimmed.as_str()) {
            Some(r) => r,
            None => return Err(owned("region.unsupported")),
        }
    };
    let mut a = owned("-GameBaseDir=");
    let b = base_directory(base);
    a.append(b.as_str());
    let mut r = owned("-Region=");
    r.append(region.as_str());
    let mut pl = owned("-PlatformID=");
    pl.append(trimmed.as_str());
    let mut l = owned("-Locale=");
    l.append(locale);
    let mut out: Vec<String> = Vec::new();
    out.push(a);
    out.push(r);
    out.push(pl);
    out.push(l);
    out.push(owned("-SkipBuild"));
    assert(strings_view(out@) =~= spec_launch_arguments(base@, server@, locale@)->0);
    Ok(out)
}

/// The client's own replay route applies when the client is signed in to the game's server,
/// logged in and has replays enabled.
pub fn uses_official_route(current: &str, server: &str, config: Option<&Json>) -> (r: bool)
    ensures
        r == (current@ == server@ && (config matches Some(c) && flag(*c, "isLoggedIn"@) && flag(*c, "isReplaysEnabled"@))),
{
    match config {
        Some(c) => crate::text::str_eq(current, server) && flag_of(c, "isLoggedIn") && flag_of(c, "isReplaysEnabled"),
        None => false,
    }
}

/// The patch of the client's game version, as its replay configuration states it.
pub open spec fn client_patch(config: Json) -> Option<(u32, u32)> {
    match json_text(field(config, "gameVersion"@)) {
        Some(v) => spec_patch(v),
        None => None,
    }
}

fn client_patch_of(config: &Json) -> (r: Option<(u32, u32)>)
    ensures
        r == client_patch(*config),
{
    match field_text(config, "gameVersion") {
        Some(v) => patch(v),
        None => None,
    }
}

/// Outside Tencent, the client plays only replays of its own patch.
pub fn check_client_version(server: &str, version: &str, config: &Json) -> (r: Result<(), String>)
    ensures
        r is Ok <==> (has_prefix(server@, crate::regions::tencent_prefix()) || spec_patch(version@) == client_patch(*config)),
        r matches Err(e) ==> e@ == "replay.versionMismatch"@,
{
    let t = crate::regions::tencent_chars();
    if starts_with(chars_of(server).as_slice(), t.as_slice()) {
        return Ok(());
    }
    if patch(version) != client_patch_of(config) {
        Err(owned("replay.versionMismatch"))
    } else {
        Ok(())
    }
}

/// What the client's own route does once the replay's metadata is known.
#[derive(Clone, Copy, Debug, PartialEq, Eq, Structural)]
pub enum OfficialStep {
    /// The client can watch the replay now.
    Watch,
    /// The client is asked to create the metadata and download the replay; the player retries.
    Prepare,
    /// The game is started directly on the replay file.
    Direct,
}

/// The step of the client's own route: watch when the client reports the replay watchable at
/// its own patch, else prepare outside Tencent, else play directly.
pub open spec fn spec_official_step(server: Seq<char>, version: Seq<char>, config: Json, metadata: Option<Json>) -> OfficialStep {
    if (metadata matches Some(m) && json_text(field(m, "state"@)) == Some("watch"@)) && spec_patch(version)
        == client_patch(config) {
        OfficialStep::Watch
    } else if !has_prefix(server, crate::regions::tencent_prefix()) {
        OfficialStep::Prepare
    } else {
        OfficialStep::Direct
    }
}

pub fn official_step(server: &str, version: &str, config: &Json, metadata: Option<&Json>) -> (r: OfficialStep)
    ensures
        r == spec_official_step(server@, version@, *config, opt_json(metadata)),
{
    let watchable = match metadata {
        Some(m) => match field_text(m, "state") {
            Some(s) => crate::text::str_eq(s, "watch"),
            None => false,
        },
        None => false,
    };
    if watchable && patch(version) == client_patch_of(config) {
        return OfficialStep::Watch;
    }
    let t = crate::regions::tencent_chars();
    if !starts_with(chars_of(server).as_slice(), t.as_slice()) {
        OfficialStep::Prepare
    } else {
        OfficialStep::Direct
    }
}

/// A number that is not an unsigned integer counts as 0.
pub open spec fn u64_or_zero(v: Json) -> u64 {
    match json_u64(v) {
        Some(n) => n,
        None => 0,
    }
}

/// When a game ended, in milliseconds: its creation time plus its duration in seconds.
pub open spec fn game_end(detail: Json) -> int {
    u64_or_zero(field(detail, "gameCreation"@)) + u64_or_zero(field(detail, "gameDuration"@)) * 1000
}

/// The request that asks the client to create a replay's metadata: the game's end time, type,
/// version and queue, in the order of their keys.
pub fn metadata_request(detail: &Json) -> (r: Json)
    requires
        game_end(*detail) <= u64::MAX,
    ensures
        r matches Json::Object(m) && m@.len() == 4
            && m@[0].0@ == "gameEnd"@ && m@[0].1 == Json::Number(JsonNumber::Unsigned(game_end(*detail) as u64))
            && m@[1].0@ == "gameType"@ && same(m@[1].1, field(*detail, "gameType"@))
            && m@[2].0@ == "gameVersion"@ && same(m@[2].1, field(*detail, "gameVersion"@))
            && m@[3].0@ == "queueId"@ && same(m@[3].1, field(*detail, "queueId"@)),
{
    let created = match field_u64(detail, "gameCreation") {
        Some(n) => n,
        None => 0,
    };
    let seconds = match field_u64(detail, "gameDuration") {
        Some(n) => n,
        None => 0,
    };
    assert(seconds * 1000 <= u64::MAX - created);
    let end = created + seconds * 1000;
    let mut m: Vec<(String, Json)> = Vec::new();
    m.push((owned("gameEnd"), Json::Number(JsonNumber::Unsigned(end))));
    m.push((owned("gameType"), copy_field(detail, "gameType")));
    m.push((owned("gameVersion"), copy_field(detail, "gameVersion")));
    m.push((owned("queueId"), copy_field(detail, "queueId")));
    Json::Object(m)
}

/// The process that the replay API of a running game names, if its `processID` is a process
/// number; else the API is not usable (`replay.apiUnavailable`).
pub fn replay_process_id(state: &Json) -> (r: Result<u32, String>)
    ensures
        match r {
            Ok(pid) => json_u64(field(*state, "processID"@)) == Some(pid as u64),
            Err(e) => !(json_u64(field(*state, "processID"@)) matches Some(n) && n <= u32::MAX)
                && e@ == "replay.apiUnavailable"@,
        },
{
    match field_u64(state, "processID") {
        Some(n) => {
            if n <= 4294967295u64 {
                Ok(n as u32)
            } else {
                Err(owned("replay.apiUnavailable"))
            }
        },
        None => Err(owned("replay.apiUnavailable")),
    }
}

} // verus!
