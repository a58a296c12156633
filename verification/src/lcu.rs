//! Connection rules for the local League client: its command line, its errors and the
//! server it is signed in to.
use vstd::prelude::*;
use vstd::utf8::encode_utf8;
use crate::json::{Json, field, json_text, member_of};
use crate::text::{ascii_upper_all, chars_of, has_prefix, is_ascii_alphanumeric, owned, parse_decimal, spec_parse_decimal, starts_with, string_of, tail, to_ascii_upper, utf8_len};

verus! {

#[derive(Clone, Copy, Debug, PartialEq, Eq, Structural)]
pub enum LcuError {
    Offline,
    MultipleClients,
    Discovery,
    CommandLineUnavailable,
    AccessDenied,
    InvalidArguments,
    AppProcessUnavailable,
    Unauthorized,
    Unavailable,
    NotFound,
    InvalidData,
    IdentityChanged,
}

/// The state shown for a client error.
pub open spec fn public_state(e: LcuError) -> Seq<char> {
    match e {
        LcuError::Offline => "offline"@,
        LcuError::MultipleClients => "ambiguous"@,
        LcuError::Discovery => "unavailable"@,
        LcuError::CommandLineUnavailable => "unavailable"@,
        LcuError::AccessDenied => "access-denied"@,
        LcuError::InvalidArguments => "invalid-arguments"@,
        LcuError::AppProcessUnavailable => "waiting"@,
        LcuError::Unauthorized => "unauthorized"@,
        LcuError::Unavailable => "unavailable"@,
        LcuError::NotFound => "waiting"@,
        LcuError::InvalidData => "unavailable"@,
        LcuError::IdentityChanged => "switching"@,
    }
}

/// The sentence that explains a client error to the player.
pub open spec fn public_text(e: LcuError) -> Seq<char> {
    match e {
        LcuError::Offline => "等待游戏客户端"@,
        LcuError::MultipleClients => "检测到多个游戏客户端，暂不记录"@,
        LcuError::Discovery => "客户端检测暂时失败，正在重试"@,
        LcuError::CommandLineUnavailable => "已找到客户端，但暂时无法读取连接信息"@,
        LcuError::AccessDenied => "Windows 拒绝读取客户端连接信息，请以管理员身份重新打开 LeagueReplay"@,
        LcuError::InvalidArguments => "客户端连接参数无法识别，暂不连接"@,
        LcuError::AppProcessUnavailable => "等待游戏客户端主进程就绪"@,
        LcuError::Unauthorized => "客户端正在登录或连接凭据已更新"@,
        LcuError::Unavailable => "客户端暂时没有响应，正在重连"@,
        LcuError::NotFound => "等待客户端提供数据"@,
        LcuError::InvalidData => "客户端数据无法核对，暂不记录"@,
        LcuError::IdentityChanged => "账号正在切换，等待身份稳定"@,
    }
}

impl LcuError {
    /// The state shown for this error and the sentence that explains it to the player.
    pub fn public_message(self) -> (r: (&'static str, &'static str))
        ensures
            r.0@ == public_state(self) && r.1@ == public_text(self),
    {
        match self {
            LcuError::Offline => ("offline", "等待游戏客户端"),
            LcuError::MultipleClients => ("ambiguous", "检测到多个游戏客户端，暂不记录"),
            LcuError::Discovery => ("unavailable", "客户端检测暂时失败，正在重试"),
            LcuError::CommandLineUnavailable => ("unavailable", "已找到客户端，但暂时无法读取连接信息"),
            LcuError::AccessDenied => (
                "access-denied",
                "Windows 拒绝读取客户端连接信息，请以管理员身份重新打开 LeagueReplay",
            ),
            LcuError::InvalidArguments => ("invalid-arguments", "客户端连接参数无法识别，暂不连接"),
            LcuError::AppProcessUnavailable => ("waiting", "等待游戏客户端主进程就绪"),
            LcuError::Unauthorized => ("unauthorized", "客户端正在登录或连接凭据已更新"),
            LcuError::Unavailable => ("unavailable", "客户端暂时没有响应，正在重连"),
            LcuError::NotFound => ("waiting", "等待客户端提供数据"),
            LcuError::InvalidData => ("unavailable", "客户端数据无法核对，暂不记录"),
            LcuError::IdentityChanged => ("switching", "账号正在切换，等待身份稳定"),
        }
    }

    /// The variant's name.
    pub fn name(self) -> (r: &'static str)
        ensures
            r@ == error_name(self),
    {
        match self {
            LcuError::Offline => "Offline",
            LcuError::MultipleClients => "MultipleClients",
            LcuError::Discovery => "Discovery",
            LcuError::CommandLineUnavailable => "CommandLineUnavailable",
            LcuError::AccessDenied => "AccessDenied",
            LcuError::InvalidArguments => "InvalidArguments",
            LcuError::AppProcessUnavailable => "AppProcessUnavailable",
            LcuError::Unauthorized => "Unauthorized",
            LcuError::Unavailable => "Unavailable",
            LcuError::NotFound => "NotFound",
            LcuError::InvalidData => "InvalidData",
            LcuError::IdentityChanged => "IdentityChanged",
        }
    }
}

/// The variant's name.
pub open spec fn error_name(e: LcuError) -> Seq<char> {
    match e {
        LcuError::Offline => "Offline"@,
        LcuError::MultipleClients => "MultipleClients"@,
        LcuError::Discovery => "Discovery"@,
        LcuError::CommandLineUnavailable => "CommandLineUnavailable"@,
        LcuError::AccessDenied => "AccessDenied"@,
        LcuError::InvalidArguments => "InvalidArguments"@,
        LcuError::AppProcessUnavailable => "AppProcessUnavailable"@,
        LcuError::Unauthorized => "Unauthorized"@,
        LcuError::Unavailable => "Unavailable"@,
        LcuError::NotFound => "NotFound"@,
        LcuError::InvalidData => "InvalidData"@,
        LcuError::IdentityChanged => "IdentityChanged"@,
    }
}

/// The error code a client failure crosses the application boundary as: `client.` and the
/// variant's name.
pub fn client_error(error: LcuError) -> (r: String)
    ensures
        r@ == "client."@ + error_name(error),
{
    let mut r = owned("client.");
    r.append(error.name());
    r
}

/// Client phases in which a game session exists.
pub open spec fn spec_has_game(phase: Seq<char>) -> bool {
    ||| phase == "InProgress"@
    ||| phase == "Reconnect"@
    ||| phase == "WaitingForStats"@
    ||| phase == "PreEndOfGame"@
    ||| phase == "EndOfGame"@
}

/// Whether the client phase has a game session to read.
pub fn has_game(phase: &str) -> (r: bool)
    ensures
        r == spec_has_game(phase@),
{
    crate::text::str_eq(phase, "InProgress") || crate::text::str_eq(phase, "Reconnect")
        || crate::text::str_eq(phase, "WaitingForStats") || crate::text::str_eq(phase, "PreEndOfGame")
        || crate::text::str_eq(phase, "EndOfGame")
}

/// The value of the single argument starting with `key`: `Ok(None)` when none does and an
/// error when several do.
pub open spec fn spec_argument(args: Seq<Seq<char>>, key: Seq<char>) -> Result<Option<Seq<char>>, LcuError> {
    if exists|i: int, j: int|
        0 <= i < j < args.len() && has_prefix(#[trigger] args[i], key) && has_prefix(#[trigger] args[j], key) {
        Err(LcuError::InvalidArguments)
    } else if exists|i: int| 0 <= i < args.len() && has_prefix(#[trigger] args[i], key) {
        let i = choose|i: int| 0 <= i < args.len() && has_prefix(#[trigger] args[i], key);
        Ok(Some(args[i].subrange(key.len() as int, args[i].len() as int)))
    } else {
        Ok(None)
    }
}

pub open spec fn args_view(args: Seq<String>) -> Seq<Seq<char>> {
    Seq::new(args.len(), |i: int| args[i]@)
}

fn argument(args: &[String], key: &[char]) -> (r: Result<Option<Vec<char>>, LcuError>)
    ensures
        match r {
            Ok(Some(v)) => spec_argument(args_view(args@), key@) == Ok::<Option<Seq<char>>, LcuError>(Some(v@)),
            Ok(None) => spec_argument(args_view(args@), key@) == Ok::<Option<Seq<char>>, LcuError>(None),
            Err(e) => spec_argument(args_view(args@), key@) == Err::<Option<Seq<char>>, LcuError>(e),
        },
{
    let ghost a = args_view(args@);
    let mut found: Option<usize> = None;
    let mut i: usize = 0;
    while i < args.len()
        invariant
            i <= args@.len(),
            a == args_view(args@),
            match found {
                Some(f) => f < i && has_prefix(a[f as int], key@) && forall|j: int|
                    0 <= j < i && j != f ==> !has_prefix(#[trigger] a[j], key@),
                None => forall|j: int| 0 <= j < i ==> !has_prefix(#[trigger] a[j], key@),
            },
        decreases args.len() - i,
    {
        let arg = chars_of(args[i].as_str());
        assert(arg@ == a[i as int]);
        if starts_with(arg.as_slice(), key) {
            match found {
                Some(f) => {
                    assert(has_prefix(a[f as int], key@) && has_prefix(a[i as int], key@));
                    return Err(LcuError::InvalidArguments);
                },
                None => {
                    found = Some(i);
                },
            }
        }
        i = i + 1;
    }
    match found {
        Some(f) => {
            let arg = chars_of(args[f].as_str());
            proof {
                let w = choose|w: int| 0 <= w < a.len() && has_prefix(#[trigger] a[w], key@);
                assert(w == f);
            }
            Ok(Some(tail(arg.as_slice(), key.len())))
        },
        None => Ok(None),
    }
}

/// What `--region=` values name, for clients that do not pass their platform.
pub open spec fn region_platform(region: Seq<char>) -> Option<Seq<char>> {
    if region == "NA"@ {
        Some("NA1"@)
    } else if region == "EUW"@ {
        Some("EUW1"@)
    } else if region == "EUNE"@ {
        Some("EUN1"@)
    } else if region == "BR"@ {
        Some("BR1"@)
    } else if region == "JP"@ {
        Some("JP1"@)
    } else if region == "KR"@ {
        Some("KR"@)
    } else if region == "LA1"@ || region == "LAN"@ {
        Some("LA1"@)
    } else if region == "LA2"@ || region == "LAS"@ {
        Some("LA2"@)
    } else if region == "OC1"@ || region == "OCE"@ {
        Some("OC1"@)
    } else if region == "TR"@ {
        Some("TR1"@)
    } else if region == "RU"@ {
        Some("RU"@)
    } else {
        None
    }
}

/// Two region names for one region: the same name, or the numbered and lettered names of Latin
/// America North (`LA1`, `LAN`), Latin America South (`LA2`, `LAS`) or Oceania (`OC1`, `OCE`).
pub open spec fn same_region(a: Seq<char>, b: Seq<char>) -> bool {
    ||| a == b
    ||| (a == "LA1"@ || a == "LAN"@) && (b == "LA1"@ || b == "LAN"@)
    ||| (a == "LA2"@ || a == "LAS"@) && (b == "LA2"@ || b == "LAS"@)
    ||| (a == "OC1"@ || a == "OCE"@) && (b == "OC1"@ || b == "OCE"@)
}

/// Law: the client's region names its own platform. Distinct regions never share a platform
/// (only two names of one region do), the platform begins with the region's first two
/// letters, and the platform is one that the routing rules address and resolve back to it.
pub proof fn lemma_region_platform(a: Seq<char>, b: Seq<char>)
    requires
        region_platform(a) is Some,
    ensures
        region_platform(a) == region_platform(b) ==> same_region(a, b),
        ({
            let p = region_platform(a)->0;
            &&& p.len() >= 2 && a.len() >= 2 && p[0] == a[0] && p[1] == a[1]
            &&& crate::regions::spec_server_for_platform(p) matches Some(server)
                && crate::regions::spec_platform(server) == Some(p)
        }),
{
    reveal_strlit("NA");
    reveal_strlit("NA1");
    reveal_strlit("EUW");
    reveal_strlit("EUW1");
    reveal_strlit("EUNE");
    reveal_strlit("EUN1");
    reveal_strlit("BR");
    reveal_strlit("BR1");
    reveal_strlit("JP");
    reveal_strlit("JP1");
    reveal_strlit("KR");
    reveal_strlit("LA1");
    reveal_strlit("LAN");
    reveal_strlit("LA2");
    reveal_strlit("LAS");
    reveal_strlit("OC1");
    reveal_strlit("OCE");
    reveal_strlit("TR");
    reveal_strlit("TR1");
    reveal_strlit("RU");
    let p = region_platform(a)->0;
    if region_platform(a) == region_platform(b) {
        let q = region_platform(b)->0;
        assert(p.len() == q.len());
        if p.len() >= 3 {
            assert(p[0] == q[0] && p[1] == q[1] && p[2] == q[2]);
        } else {
            assert(p[0] == q[0] && p[1] == q[1]);
        }
    }
}

fn region_platform_of(region: &[char]) -> (r: Option<String>)
    ensures
        match r {
            Some(p) => region_platform(region@) == Some(p@),
            None => region_platform(region@) is None,
        },
{
    let region = string_of(region);
    let s = region.as_str();
    let eq = |lit: &str| -> (b: bool)
        ensures
            b == (s@ == lit@),
        { crate::text::str_eq(s, lit) };
    if eq("NA") {
        Some(owned("NA1"))
    } else if eq("EUW") {
        Some(owned("EUW1"))
    } else if eq("EUNE") {
        Some(owned("EUN1"))
    } else if eq("BR") {
        Some(owned("BR1"))
    } else if eq("JP") {
        Some(owned("JP1"))
    } else if eq("KR") {
        Some(owned("KR"))
    } else if eq("LA1") || eq("LAN") {
        Some(owned("LA1"))
    } else if eq("LA2") || eq("LAS") {
        Some(owned("LA2"))
    } else if eq("OC1") || eq("OCE") {
        Some(owned("OC1"))
    } else if eq("TR") {
        Some(owned("TR1"))
    } else if eq("RU") {
        Some(owned("RU"))
    } else {
        None
    }
}

/// The result of `str::to_uppercase` on a text.
pub uninterp spec fn unicode_upper(s: Seq<char>) -> Seq<char>;

/// `str::to_uppercase`: the Unicode upper-case mapping of every character. Its contract
/// names the result and states the ASCII part of the mapping (letters `a`-`z` become
/// `A`-`Z`, other ASCII characters are kept); the mapping of other characters, which may
/// change the length, is left unsaid.
#[verifier::external_body]
fn to_uppercase(s: &str) -> (r: String)
    ensures
        r@ == unicode_upper(s@),
        (forall|i: int| 0 <= i < s@.len() ==> (#[trigger] s@[i] as int) < 128) ==> r@ == ascii_upper_all(s@),
{
    s.to_uppercase()
}

/// A platform text: 1 to 32 characters, each an ASCII letter or digit.
pub open spec fn valid_platform_text(p: Seq<char>) -> bool {
    &&& 0 < p.len() <= 32
    &&& forall|i: int| 0 <= i < p.len() ==> is_ascii_alphanumeric(#[trigger] p[i])
}

/// A positive number of the given width, as the standard parser reads it.
pub open spec fn positive(v: Option<Seq<char>>, max: u64) -> Option<u64> {
    match v {
        Some(t) => match spec_parse_decimal(t, max) {
            Some(n) => if n > 0 {
                Some(n)
            } else {
                None
            },
            None => None,
        },
        None => None,
    }
}

/// The connection the client's command line describes: `(port, token, platform, pid)`.
/// Every key may occur at most once; port and pid are positive numbers; the token has 1 to
/// 1024 bytes; the platform comes from `--rso-platform-id=` or `--rso_platform_id=` (not
/// both), upper-cased, else from the `--region=` alias, and must be a platform text.
pub open spec fn spec_parse_args(args: Seq<Seq<char>>) -> Result<(u64, Seq<char>, Seq<char>, u64), LcuError> {
    let port_arg = spec_argument(args, "--app-port="@);
    let pid_arg = spec_argument(args, "--app-pid="@);
    let token_arg = spec_argument(args, "--remoting-auth-token="@);
    let hyphen = spec_argument(args, "--rso-platform-id="@);
    let underscore = spec_argument(args, "--rso_platform_id="@);
    let region = spec_argument(args, "--region="@);
    if port_arg is Err || positive(port_arg->Ok_0, 65535) is None {
        Err(LcuError::InvalidArguments)
    } else if pid_arg is Err || positive(pid_arg->Ok_0, 4294967295) is None {
        Err(LcuError::InvalidArguments)
    } else if token_arg is Err || !(token_arg->Ok_0 matches Some(t) && t.len() > 0 && encode_utf8(t).len()
        <= 1024) {
        Err(LcuError::InvalidArguments)
    } else if hyphen is Err || underscore is Err || (hyphen->Ok_0 is Some && underscore->Ok_0 is Some) {
        Err(LcuError::InvalidArguments)
    } else {
        let chosen = if hyphen->Ok_0 is Some {
            hyphen->Ok_0
        } else {
            underscore->Ok_0
        };
        let platform = match chosen {
            Some(v) => Some(unicode_upper(v)),
            None => if region is Err {
                None
            } else {
                region_platform(
                    ascii_upper_all(
                        match region->Ok_0 {
                            Some(r) => r,
                            None => Seq::empty(),
                        },
                    ),
                )
            },
        };
        match platform {
            None => Err(LcuError::InvalidArguments),
            Some(p) => if valid_platform_text(p) {
                Ok((positive(port_arg->Ok_0, 65535)->0, token_arg->Ok_0->0, p, positive(pid_arg->Ok_0, 4294967295)->0))
            } else {
                Err(LcuError::InvalidArguments)
            },
        }
    }
}

fn positive_arg(v: Option<Vec<char>>, max: u64) -> (r: Option<u64>)
    ensures
        r == positive(
            match v {
                Some(t) => Some(t@),
                None => None,
            },
            max,
        ),
{
    match v {
        Some(t) => match parse_decimal(t.as_slice(), max) {
            Some(n) => if n > 0 {
                Some(n)
            } else {
                None
            },
            None => None,
        },
        None => None,
    }
}

pub open spec fn opt_chars(v: Option<Vec<char>>) -> Option<Seq<char>> {
    match v {
        Some(t) => Some(t@),
        None => None,
    }
}

fn platform_text_ok(p: &[char]) -> (r: bool)
    ensures
        r == valid_platform_text(p@),
{
    if p.len() == 0 || p.len() > 32 {
        return false;
    }
    let mut i: usize = 0;
    while i < p.len()
        invariant
            i <= p.len(),
            forall|j: int| 0 <= j < i ==> is_ascii_alphanumeric(#[trigger] p@[j]),
        decreases p.len() - i,
    {
        let c = p[i];
        if !(('0' <= c && c <= '9') || ('A' <= c && c <= 'Z') || ('a' <= c && c <= 'z')) {
            return false;
        }
        i = i + 1;
    }
    true
}

/// Reads the client's connection arguments: `(port, token, platform, pid)`.
pub fn parse_args(args: &[String]) -> (r: Result<(u16, String, String, u32), LcuError>)
    ensures
        match r {
            Ok((port, token, platform, pid)) => spec_parse_args(args_view(args@)) == Ok::<
                (u64, Seq<char>, Seq<char>, u64),
                LcuError,
            >((port as u64, token@, platform@, pid as u64)),
            Err(e) => spec_parse_args(args_view(args@)) == Err::<(u64, Seq<char>, Seq<char>, u64), LcuError>(e),
        },
{
    let ghost a = args_view(args@);
    let port_key = chars_of("--app-port=");
    let pid_key = chars_of("--app-pid=");
    let token_key = chars_of("--remoting-auth-token=");
    let hyphen_key = chars_of("--rso-platform-id=");
    let underscore_key = chars_of("--rso_platform_id=");
    let region_key = chars_of("--region=");
    let port_arg = argument(args, port_key.as_slice());
    let port = match port_arg {
        Ok(v) => positive_arg(v, 65535),
        Err(_) => None,
    };
    let port = match port {
        Some(p) => p as u16,
        None => return Err(LcuError::InvalidArguments),
    };
    let pid = match argument(args, pid_key.as_slice()) {
        Ok(v) => positive_arg(v, 4294967295),
        Err(_) => None,
    };
    let pid = match pid {
        Some(p) => p as u32,
        None => return Err(LcuError::InvalidArguments),
    };
    let token = match argument(args, token_key.as_slice()) {
        Ok(Some(t)) => if t.len() > 0 && utf8_len(t.as_slice()) <= 1024 {
            t
        } else {
            return Err(LcuError::InvalidArguments);
        },
        _ => return Err(LcuError::InvalidArguments),
    };
    let hyphen = match argument(args, hyphen_key.as_slice()) {
        Ok(v) => v,
        Err(e) => return Err(e),
    };
    let underscore = match argument(args, underscore_key.as_slice()) {
        Ok(v) => v,
        Err(e) => return Err(e),
    };
    if hyphen.is_some() && underscore.is_some() {
        return Err(LcuError::InvalidArguments);
    }
    let chosen = if hyphen.is_some() {
        hyphen
    } else {
        underscore
    };
    let platform = match chosen {
        Some(v) => {
            let text = string_of(v.as_slice());
            to_uppercase(text.as_str())
        },
        None => {
            let region = match argument(args, region_key.as_slice()) {
                Ok(v) => v,
                Err(e) => return Err(e),
            };
            let region = match region {
                Some(r) => r,
                None => Vec::new(),
            };
            match region_platform_of(to_ascii_upper(region.as_slice()).as_slice()) {
                Some(p) => p,
                None => return Err(LcuError::InvalidArguments),
            }
        },
    };
    if !platform_text_ok(chars_of(platform.as_str()).as_slice()) {
        return Err(LcuError::InvalidArguments);
    }
    Ok((port, string_of(token.as_slice()), platform, pid))
}

/// The server identifier the client is signed in to, from its platform and `--region=`.
pub open spec fn spec_current(platform: Seq<char>, region: Seq<char>) -> Seq<char> {
    if region == "TENCENT"@ {
        crate::regions::tencent_prefix() + trim_tencent(platform)
    } else if platform == "EUW1"@ {
        "EUW"@
    } else if platform == "JP1"@ {
        "JP"@
    } else if platform == "PBE1"@ {
        "PBE"@
    } else {
        platform
    }
}

/// `s` without any number of leading `TENCENT_` prefixes.
pub open spec fn trim_tencent(s: Seq<char>) -> Seq<char>
    decreases s.len(),
{
    if has_prefix(s, crate::regions::tencent_prefix()) {
        trim_tencent(s.subrange(8, s.len() as int))
    } else {
        s
    }
}

pub(crate) fn trim_tencent_chars(s: &[char]) -> (r: Vec<char>)
    ensures
        r@ == trim_tencent(s@),
{
    let t = crate::regions::tencent_chars();
    let mut cur = tail(s, 0);
    assert(cur@ =~= s@);
    while starts_with(cur.as_slice(), t.as_slice())
        invariant
            t@ == crate::regions::tencent_prefix(),
            trim_tencent(cur@) == trim_tencent(s@),
        decreases cur@.len(),
    {
        cur = tail(cur.as_slice(), 8);
    }
    cur
}

/// The server identifier the client is signed in to.
pub fn current(platform: &str, region: &str) -> (r: String)
    ensures
        r@ == spec_current(platform@, region@),
{
    if crate::text::str_eq(region, "TENCENT") {
        let mut r = crate::regions::tencent_chars();
        let rest = trim_tencent_chars(chars_of(platform).as_slice());
        let mut i: usize = 0;
        while i < rest.len()
            invariant
                i <= rest@.len(),
                r@ == crate::regions::tencent_prefix() + rest@.subrange(0, i as int),
            decreases rest.len() - i,
        {
            r.push(rest[i]);
            assert(rest@.subrange(0, i + 1) =~= rest@.subrange(0, i as int).push(rest@[i as int]));
            i = i + 1;
        }
        assert(rest@.subrange(0, rest@.len() as int) =~= rest@);
        return string_of(r.as_slice());
    }
    if crate::text::str_eq(platform, "EUW1") {
        owned("EUW")
    } else if crate::text::str_eq(platform, "JP1") {
        owned("JP")
    } else if crate::text::str_eq(platform, "PBE1") {
        owned("PBE")
    } else {
        owned(platform)
    }
}


/// The account of the signed-in summoner's profile on `platform`.
pub fn parse_account(platform: &str, value: &crate::json::Json) -> (r: Result<crate::domain::Account, LcuError>)
    ensures
        match r {
            Ok(a) => crate::matches::spec_account_from_profile(platform@, *value) == Some(a@),
            Err(e) => crate::matches::spec_account_from_profile(platform@, *value) is None && e == LcuError::InvalidData,
        },
{
    match crate::matches::account_from_profile(platform, value) {
        Ok(a) => Ok(a),
        Err(_) => Err(LcuError::InvalidData),
    }
}

/// Exactly one client process may be running: none means the client is offline, more than
/// one that the client to read is ambiguous.
pub fn single_client(count: usize) -> (r: Result<(), LcuError>)
    ensures
        r == if count == 0 {
            Err::<(), LcuError>(LcuError::Offline)
        } else if count == 1 {
            Ok(())
        } else {
            Err(LcuError::MultipleClients)
        },
{
    if count == 0 {
        Err(LcuError::Offline)
    } else if count == 1 {
        Ok(())
    } else {
        Err(LcuError::MultipleClients)
    }
}

/// The process that the command line names as the client's main process must be the
/// League client itself.
pub fn check_app_process(name: Option<&str>) -> (r: Result<(), LcuError>)
    ensures
        r is Ok <==> (name matches Some(n) && crate::text::eq_ignore_ascii_case(n@, "LeagueClient.exe"@)),
        r matches Err(e) ==> e == LcuError::AppProcessUnavailable,
{
    match name {
        Some(n) => if crate::text::same_ignoring_ascii_case(n, "LeagueClient.exe") {
            Ok(())
        } else {
            Err(LcuError::AppProcessUnavailable)
        },
        None => Err(LcuError::AppProcessUnavailable),
    }
}

/// How to reach the local client, as its command line describes it.
#[derive(Debug)]
pub struct ClientConnection {
    pub port: u16,
    pub token: String,
    /// The platform that requests and match ids use.
    pub platform: String,
    /// The `--region=` argument, upper-cased (empty when absent).
    pub region: String,
    /// The platform as the command line states it.
    pub wire_platform: String,
    /// The Riot Client's own port and token, when the command line states both.
    pub riot: Option<(u16, String)>,
    pub pid: u32,
}

/// The platform that requests use: Tencent platforms by their server, and the short forms of
/// EUW, JP and PBE completed.
pub open spec fn spec_request_platform(platform: Seq<char>, region: Seq<char>) -> Option<Seq<char>> {
    if region == "TENCENT"@ {
        crate::regions::spec_platform(crate::regions::tencent_prefix() + platform)
    } else if platform == "EUW"@ {
        Some("EUW1"@)
    } else if platform == "JP"@ {
        Some("JP1"@)
    } else if platform == "PBE"@ {
        Some("PBE1"@)
    } else {
        Some(platform)
    }
}

/// The Riot Client's port and token: a positive port and a token of 1 to 1024 bytes.
pub open spec fn spec_riot(port: Option<Seq<char>>, token: Option<Seq<char>>) -> Option<(u64, Seq<char>)> {
    match (positive(port, 65535), token) {
        (Some(p), Some(t)) => if t.len() > 0 && encode_utf8(t).len() <= 1024 {
            Some((p, t))
        } else {
            None
        },
        _ => None,
    }
}

/// The connection a command line describes; see `spec_parse_args`, `spec_request_platform`
/// and `spec_riot`.
pub open spec fn spec_connection(args: Seq<Seq<char>>) -> Result<
    (u64, Seq<char>, Seq<char>, Seq<char>, Seq<char>, Option<(u64, Seq<char>)>, u64),
    LcuError,
> {
    match spec_parse_args(args) {
        Err(e) => Err(e),
        Ok((port, token, platform, pid)) => match spec_argument(args, "--region="@) {
            Err(e) => Err(e),
            Ok(r) => {
                let region = ascii_upper_all(
                    match r {
                        Some(v) => v,
                        None => Seq::empty(),
                    },
                );
                match spec_request_platform(platform, region) {
                    None => Err(LcuError::InvalidArguments),
                    Some(p) => match spec_argument(args, "--riotclient-app-port="@) {
                        Err(e) => Err(e),
                        Ok(rp) => match spec_argument(args, "--riotclient-auth-token="@) {
                            Err(e) => Err(e),
                            Ok(rt) => Ok((port, token, p, region, platform, spec_riot(rp, rt), pid)),
                        },
                    },
                }
            },
        },
    }
}

/// Reads the connection from the client's command line.
pub fn connection_of(args: &[String]) -> (r: Result<ClientConnection, LcuError>)
    ensures
        match r {
            Ok(c) => spec_connection(args_view(args@)) == Ok::<
                (u64, Seq<char>, Seq<char>, Seq<char>, Seq<char>, Option<(u64, Seq<char>)>, u64),
                LcuError,
            >(
                (
                    c.port as u64,
                    c.token@,
                    c.platform@,
                    c.region@,
                    c.wire_platform@,
                    match c.riot {
                        Some((p, t)) => Some((p as u64, t@)),
                        None => None,
                    },
                    c.pid as u64,
                ),
            ),
            Err(e) => spec_connection(args_view(args@)) == Err::<
                (u64, Seq<char>, Seq<char>, Seq<char>, Seq<char>, Option<(u64, Seq<char>)>, u64),
                LcuError,
            >(e),
        },
{
    let (port, token, platform, pid) = parse_args(args)?;
    let region_key = chars_of("--region=");
    let region = match argument(args, region_key.as_slice())? {
        Some(v) => to_ascii_upper(v.as_slice()),
        None => {
            let empty: Vec<char> = Vec::new();
            to_ascii_upper(empty.as_slice())
        },
    };
    let is_tencent = crate::text::chars_eq(region.as_slice(), chars_of("TENCENT").as_slice());
    let wire = chars_of(platform.as_str());
    let request = if is_tencent {
        let mut id = crate::regions::tencent_chars();
        let mut i: usize = 0;
        while i < wire.len()
            invariant
                i <= wire@.len(),
                id@ == crate::regions::tencent_prefix() + wire@.subrange(0, i as int),
            decreases wire.len() - i,
        {
            id.push(wire[i]);
            assert(wire@.subrange(0, i + 1) =~= wire@.subrange(0, i as int).push(wire@[i as int]));
            i = i + 1;
        }
        assert(wire@.subrange(0, wire@.len() as int) =~= wire@);
        match crate::regions::platform(string_of(id.as_slice()).as_str()) {
            Ok(p) => p,
            Err(_) => return Err(LcuError::InvalidArguments),
        }
    } else if crate::text::str_eq(platform.as_str(), "EUW") {
        owned("EUW1")
    } else if crate::text::str_eq(platform.as_str(), "JP") {
        owned("JP1")
    } else if crate::text::str_eq(platform.as_str(), "PBE") {
        owned("PBE1")
    } else {
        owned(platform.as_str())
    };
    let port_key = chars_of("--riotclient-app-port=");
    let token_key = chars_of("--riotclient-auth-token=");
    let riot_port = positive_arg(argument(args, port_key.as_slice())?, 65535);
    let riot_token = argument(args, token_key.as_slice())?;
    let riot = match (riot_port, riot_token) {
        (Some(p), Some(t)) => if t.len() > 0 && utf8_len(t.as_slice()) <= 1024 {
            Some((p as u16, string_of(t.as_slice())))
        } else {
            None
        },
        _ => None,
    };
    Ok(ClientConnection {
        port,
        token,
        platform: request,
        region: string_of(region.as_slice()),
        wire_platform: platform,
        riot,
        pid,
    })
}

/// What the status of a local client answer means: success, or the error it reports.
pub open spec fn spec_answer_status(status: u16) -> Result<(), LcuError> {
    if status == 401 || status == 403 {
        Err(LcuError::Unauthorized)
    } else if status == 404 {
        Err(LcuError::NotFound)
    } else if !(200 <= status <= 299) {
        Err(LcuError::Unavailable)
    } else {
        Ok(())
    }
}

pub fn answer_status(status: u16) -> (r: Result<(), LcuError>)
    ensures
        r == spec_answer_status(status),
{
    if status == 401 || status == 403 {
        Err(LcuError::Unauthorized)
    } else if status == 404 {
        Err(LcuError::NotFound)
    } else if !(200 <= status && status <= 299) {
        Err(LcuError::Unavailable)
    } else {
        Ok(())
    }
}

/// The bytes of a local client answer received once another chunk arrives; the answer may
/// hold at most eight MiB.
pub fn accept_answer_chunk(received: usize, chunk: usize) -> (r: Result<usize, LcuError>)
    ensures
        match r {
            Ok(n) => n == received + chunk && n <= 8388608,
            Err(e) => received + chunk > 8388608 && e == LcuError::InvalidData,
        },
{
    match received.checked_add(chunk) {
        Some(n) => if n > 8388608 {
            Err(LcuError::InvalidData)
        } else {
            Ok(n)
        },
        None => Err(LcuError::InvalidData),
    }
}

/// A game number that may be put into a client request path: one or more ASCII digits.
pub fn check_game_number(game_id: &str) -> (r: Result<(), LcuError>)
    ensures
        r is Ok <==> game_id@.len() > 0 && crate::text::all_digits(game_id@),
        r matches Err(e) ==> e == LcuError::InvalidData,
{
    let v = chars_of(game_id);
    if v.len() == 0 {
        return Err(LcuError::InvalidData);
    }
    let mut i: usize = 0;
    while i < v.len()
        invariant
            i <= v@.len(),
            v@ == game_id@,
            forall|j: int| 0 <= j < i ==> crate::text::is_ascii_digit(#[trigger] v@[j]),
        decreases v.len() - i,
    {
        if !(v[i] >= '0' && v[i] <= '9') {
            return Err(LcuError::InvalidData);
        }
        i = i + 1;
    }
    Ok(())
}

/// A game the local client returns must be of the signed-in platform, as the command line
/// states it or as requests name it; it is kept under the request platform.
pub fn local_detail(value: Json, wire_platform: &str, platform: &str) -> (r: Result<Json, LcuError>)
    ensures
        match r {
            Ok(d) => {
                &&& json_text(field(value, "platformId"@)) matches Some(p) && (crate::text::eq_ignore_ascii_case(
                    p,
                    wire_platform@,
                ) || crate::text::eq_ignore_ascii_case(p, platform@))
                &&& d is Object
                &&& json_text(field(d, "platformId"@)) == Some(platform@)
                &&& forall|k: Seq<char>| k != "platformId"@ ==> #[trigger] member_of(d, k) == member_of(value, k)
            },
            Err(e) => e == LcuError::InvalidData && !(json_text(field(value, "platformId"@)) matches Some(p) && (
            crate::text::eq_ignore_ascii_case(p, wire_platform@) || crate::text::eq_ignore_ascii_case(p, platform@))),
        },
{
    let ok = match crate::json::field_text(&value, "platformId") {
        Some(p) => crate::text::same_ignoring_ascii_case(p, wire_platform) || crate::text::same_ignoring_ascii_case(
            p,
            platform,
        ),
        None => false,
    };
    if !ok {
        return Err(LcuError::InvalidData);
    }
    let mut d = value;
    assert(d is Object);
    crate::json::set_member(&mut d, "platformId", Json::Text(owned(platform)));
    Ok(d)
}

} // verus!
