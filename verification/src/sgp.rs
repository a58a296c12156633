//! Request building for the regional match-history gateway.
use vstd::prelude::*;
use vstd::string::StringSliceAdditionalSpecFns;
use crate::text::{chars_of, decimal, decimal_text, has_prefix, owned, push_char, starts_with, string_of};
use crate::json::{Json, field, json_text, member, as_text};
use crate::regions::{ServerConfig, find_server, path_alias, servers_of};
use crate::domain::{spec_valid_game_id, validate_game_id};

verus! {

/// Bytes that stay themselves in a URL path segment: ASCII letters, digits and `-._~`.
pub open spec fn unreserved(b: u8) -> bool {
    (0x30 <= b <= 0x39) || (0x41 <= b <= 0x5a) || (0x61 <= b <= 0x7a) || b == 0x2d || b == 0x2e || b
        == 0x5f || b == 0x7e
}

pub open spec fn hex_digit(n: int) -> char {
    if n < 10 {
        (48 + n) as char
    } else {
        (55 + n) as char
    }
}

/// How one byte is written in a path segment.
pub open spec fn encode_byte(b: u8) -> Seq<char> {
    if unreserved(b) {
        seq![b as char]
    } else {
        seq!['%', hex_digit(b as int / 16), hex_digit(b as int % 16)]
    }
}

/// Percent-encoding of a byte string, byte by byte.
pub open spec fn percent_encode(b: Seq<u8>) -> Seq<char>
    decreases b.len(),
{
    if b.len() == 0 {
        Seq::empty()
    } else {
        percent_encode(b.drop_last()) + encode_byte(b.last())
    }
}

/// The value of one hexadecimal digit, of either case.
pub open spec fn hex_value(c: char) -> Option<int> {
    if '0' <= c && c <= '9' {
        Some(c as int - 48)
    } else if 'A' <= c && c <= 'F' {
        Some(c as int - 55)
    } else if 'a' <= c && c <= 'f' {
        Some(c as int - 87)
    } else {
        None
    }
}

/// Percent-decoding of a path segment: `%XX` gives the byte `XX`, an ASCII character its own
/// byte; anything else has no decoding.
pub open spec fn percent_decode(s: Seq<char>) -> Option<Seq<u8>>
    decreases s.len(),
{
    if s.len() == 0 {
        Some(Seq::empty())
    } else if s[0] == '%' {
        if s.len() >= 3 {
            match (hex_value(s[1]), hex_value(s[2])) {
                (Some(h), Some(l)) => match percent_decode(s.subrange(3, s.len() as int)) {
                    Some(rest) => Some(seq![(h * 16 + l) as u8] + rest),
                    None => None,
                },
                _ => None,
            }
        } else {
            None
        }
    } else if (s[0] as int) < 128 {
        match percent_decode(s.subrange(1, s.len() as int)) {
            Some(rest) => Some(seq![s[0] as u8] + rest),
            None => None,
        }
    } else {
        None
    }
}

proof fn lemma_encode_front(b: Seq<u8>)
    requires
        b.len() > 0,
    ensures
        percent_encode(b) == encode_byte(b[0]) + percent_encode(b.subrange(1, b.len() as int)),
    decreases b.len(),
{
    if b.len() > 1 {
        lemma_encode_front(b.drop_last());
        assert(b.drop_last().subrange(1, b.len() - 1) =~= b.subrange(1, b.len() as int).drop_last());
        assert(b.subrange(1, b.len() as int).last() == b.last());
        assert(b.drop_last()[0] == b[0]);
    } else {
        assert(b.drop_last() =~= Seq::<u8>::empty());
        assert(b.subrange(1, b.len() as int) =~= Seq::<u8>::empty());
    }
}

/// Decoding a path segment gives back the bytes it was encoded from; a segment holds only
/// unreserved characters and `%`.
pub proof fn lemma_url_segment_round_trip(b: Seq<u8>)
    ensures
        percent_decode(percent_encode(b)) == Some(b),
        forall|i: int| 0 <= i < percent_encode(b).len() ==> {
            let c = #[trigger] percent_encode(b)[i];
            c == '%' || ((c as int) < 256 && unreserved(c as u8))
                || ('0' <= c && c <= '9') || ('A' <= c && c <= 'F')
        },
    decreases b.len(),
{
    if b.len() == 0 {
        assert(percent_encode(b) =~= Seq::<char>::empty());
    } else {
        lemma_encode_front(b);
        let rest = b.subrange(1, b.len() as int);
        lemma_url_segment_round_trip(rest);
        let e = percent_encode(b);
        let r = percent_encode(rest);
        let x = b[0];
        if unreserved(x) {
            assert(e[0] == x as char);
            assert(e.subrange(1, e.len() as int) =~= r);
            assert((x as char) as u8 == x);
            assert(seq![x] + rest =~= b);
            assert forall|i: int| 0 <= i < e.len() implies {
                let c = #[trigger] e[i];
                c == '%' || ((c as int) < 256 && unreserved(c as u8)) || ('0' <= c && c <= '9') || ('A' <= c && c <= 'F')
            } by {
                if i > 0 {
                    assert(e[i] == r[i - 1]);
                }
            }
        } else {
            let h = x as int / 16;
            let l = x as int % 16;
            assert(e[0] == '%' && e[1] == hex_digit(h) && e[2] == hex_digit(l));
            assert(hex_value(hex_digit(h)) == Some(h));
            assert(hex_value(hex_digit(l)) == Some(l));
            assert(e.subrange(3, e.len() as int) =~= r);
            assert((h * 16 + l) as u8 == x);
            assert(seq![x] + rest =~= b);
            assert forall|i: int| 0 <= i < e.len() implies {
                let c = #[trigger] e[i];
                c == '%' || ((c as int) < 256 && unreserved(c as u8)) || ('0' <= c && c <= '9') || ('A' <= c && c <= 'F')
            } by {
                if i >= 3 {
                    assert(e[i] == r[i - 3]);
                }
            }
        }
    }
}

/// A segment made of unreserved bytes only is written as it is.
pub proof fn lemma_url_segment_plain(b: Seq<u8>)
    requires
        forall|i: int| 0 <= i < b.len() ==> unreserved(#[trigger] b[i]),
    ensures
        percent_encode(b) == b.map_values(|x: u8| x as char),
    decreases b.len(),
{
    if b.len() > 0 {
        lemma_url_segment_plain(b.drop_last());
        assert(percent_encode(b) =~= b.map_values(|x: u8| x as char));
    } else {
        assert(percent_encode(b) =~= b.map_values(|x: u8| x as char));
    }
}

fn hex(n: u8) -> (c: char)
    requires
        n < 16,
    ensures
        c == hex_digit(n as int),
{
    if n < 10 {
        (48 + n) as char
    } else {
        (55 + n) as char
    }
}

/// Encodes an opaque identifier as one URL path segment: unreserved bytes are kept and every
/// other byte of its UTF-8 encoding becomes `%XX` with upper-case hexadecimal digits.
pub fn url_segment(value: &str) -> (r: String)
    ensures
        r@ == percent_encode(value.spec_bytes()),
{
    let bytes = value.as_bytes();
    let mut r = String::new();
    let mut i: usize = 0;
    while i < bytes.len()
        invariant
            i <= bytes@.len(),
            r@ == percent_encode(bytes@.subrange(0, i as int)),
        decreases bytes.len() - i,
    {
        let b = bytes[i];
        let ghost before = r@;
        if (0x30 <= b && b <= 0x39) || (0x41 <= b && b <= 0x5a) || (0x61 <= b && b <= 0x7a) || b == 0x2d
            || b == 0x2e || b == 0x5f || b == 0x7e {
            push_char(&mut r, b as char);
        } else {
            push_char(&mut r, '%');
            push_char(&mut r, hex(b / 16));
            push_char(&mut r, hex(b % 16));
        }
        assert(bytes@.subrange(0, i + 1).drop_last() =~= bytes@.subrange(0, i as int));
        assert(r@ =~= before + encode_byte(b));
        i = i + 1;
    }
    assert(bytes@.subrange(0, bytes@.len() as int) =~= bytes@);
    r
}

/// What a gateway answer's status means: success, or the error that the status reports.
pub open spec fn spec_gateway_status(status: u16) -> Result<(), Seq<char>> {
    if status == 401 {
        Err("gateway.unauthorized"@)
    } else if status == 403 {
        Err("gateway.forbidden"@)
    } else if status == 404 {
        Err("gateway.dataNotFound"@)
    } else if status == 429 {
        Err("gateway.rateLimited"@)
    } else if 200 <= status <= 299 {
        Ok(())
    } else {
        Err("gateway.unavailable"@)
    }
}

pub fn gateway_status(status: u16) -> (r: Result<(), String>)
    ensures
        match r {
            Ok(()) => spec_gateway_status(status) is Ok,
            Err(e) => spec_gateway_status(status) == Err::<(), Seq<char>>(e@),
        },
{
    if status == 401 {
        Err(owned("gateway.unauthorized"))
    } else if status == 403 {
        Err(owned("gateway.forbidden"))
    } else if status == 404 {
        Err(owned("gateway.dataNotFound"))
    } else if status == 429 {
        Err(owned("gateway.rateLimited"))
    } else if 200 <= status && status <= 299 {
        Ok(())
    } else {
        Err(owned("gateway.unavailable"))
    }
}

/// What the status of a replay download means: as for other answers, except that a missing
/// replay is `gateway.notFound` and an unsatisfiable range is handed on for the resume rules.
pub open spec fn spec_replay_status(status: u16) -> Result<(), Seq<char>> {
    if status == 404 {
        Err("gateway.notFound"@)
    } else if status == 416 {
        Ok(())
    } else {
        spec_gateway_status(status)
    }
}

pub fn replay_status(status: u16) -> (r: Result<(), String>)
    ensures
        match r {
            Ok(()) => spec_replay_status(status) is Ok,
            Err(e) => spec_replay_status(status) == Err::<(), Seq<char>>(e@),
        },
{
    if status == 404 {
        Err(owned("gateway.notFound"))
    } else if status == 416 {
        Ok(())
    } else {
        gateway_status(status)
    }
}

/// The gateway token from the client's entitlements answer: a non-empty `accessToken`;
/// `gateway.tokenNotReady` otherwise.
pub fn access_token(entitlements: &Json) -> (r: Result<String, String>)
    ensures
        match r {
            Ok(t) => json_text(field(*entitlements, "accessToken"@)) == Some(t@) && t@.len() > 0,
            Err(e) => !(json_text(field(*entitlements, "accessToken"@)) matches Some(t) && t.len() > 0) && e@
                == "gateway.tokenNotReady"@,
        },
{
    let token = match member(entitlements, "accessToken") {
        Some(v) => as_text(v),
        None => None,
    };
    match token {
        Some(t) => if chars_of(t).len() > 0 {
            Ok(owned(t))
        } else {
            Err(owned("gateway.tokenNotReady"))
        },
        None => Err(owned("gateway.tokenNotReady")),
    }
}

/// `str::replace`: every occurrence of `pattern`, from left to right and without overlap,
/// replaced by `with`.
pub open spec fn replace_all(s: Seq<char>, pattern: Seq<char>, with: Seq<char>) -> Seq<char>
    recommends
        pattern.len() > 0,
    decreases s.len(),
{
    if s.len() == 0 || pattern.len() == 0 {
        s
    } else if has_prefix(s, pattern) {
        with + replace_all(s.subrange(pattern.len() as int, s.len() as int), pattern, with)
    } else {
        seq![s[0]] + replace_all(s.subrange(1, s.len() as int), pattern, with)
    }
}

proof fn lemma_replace_step(s: Seq<char>, pattern: Seq<char>, with: Seq<char>, i: int, j: int, done: Seq<char>)
    requires
        pattern.len() > 0,
        0 <= i <= j <= s.len(),
        replace_all(s, pattern, with) == done + replace_all(s.subrange(i, s.len() as int), pattern, with),
        j == i + 1 && !has_prefix(s.subrange(i, s.len() as int), pattern) || j == i + pattern.len() && has_prefix(
            s.subrange(i, s.len() as int),
            pattern,
        ),
        i < s.len(),
    ensures
        replace_all(s, pattern, with) == done + (if j == i + 1 && !has_prefix(s.subrange(i, s.len() as int), pattern) {
            seq![s[i]]
        } else {
            with
        }) + replace_all(s.subrange(j, s.len() as int), pattern, with),
{
    let rest = s.subrange(i, s.len() as int);
    if has_prefix(rest, pattern) {
        assert(rest.subrange(pattern.len() as int, rest.len() as int) =~= s.subrange(j, s.len() as int));
    } else {
        assert(rest.subrange(1, rest.len() as int) =~= s.subrange(j, s.len() as int));
    }
    assert((done + (if j == i + 1 && !has_prefix(rest, pattern) {
        seq![s[i]]
    } else {
        with
    })) + replace_all(s.subrange(j, s.len() as int), pattern, with) =~= done + ((if j == i + 1 && !has_prefix(
        rest,
        pattern,
    ) {
        seq![s[i]]
    } else {
        with
    }) + replace_all(s.subrange(j, s.len() as int), pattern, with)));
}

fn replace_region(path: &[char], with: &[char]) -> (r: Vec<char>)
    ensures
        r@ == replace_all(path@, "{region}"@, with@),
{
    let pattern = chars_of("{region}");
    proof {
        reveal_strlit("{region}");
    }
    assert(pattern@.len() == 8);
    let mut out: Vec<char> = Vec::new();
    let mut i: usize = 0;
    assert(path@.subrange(0, path@.len() as int) =~= path@);
    assert(out@ + path@ =~= path@);
    while i < path.len()
        invariant
            i <= path@.len(),
            pattern@ == "{region}"@,
            pattern@.len() == 8,
            replace_all(path@, pattern@, with@) == out@ + replace_all(
                path@.subrange(i as int, path@.len() as int),
                pattern@,
                with@,
            ),
        decreases path.len() - i,
    {
        let rest = crate::text::tail(path, i);
        if starts_with(rest.as_slice(), pattern.as_slice()) {
            proof {
                lemma_replace_step(path@, pattern@, with@, i as int, i + 8, out@);
            }
            let mut k: usize = 0;
            let ghost before = out@;
            while k < with.len()
                invariant
                    k <= with@.len(),
                    out@ == before + with@.subrange(0, k as int),
                decreases with.len() - k,
            {
                out.push(with[k]);
                k = k + 1;
            }
            assert(with@.subrange(0, with@.len() as int) =~= with@);
            i = i + 8;
        } else {
            proof {
                lemma_replace_step(path@, pattern@, with@, i as int, i + 1, out@);
            }
            out.push(path[i]);
            i = i + 1;
        }
    }
    assert(path@.subrange(path@.len() as int, path@.len() as int) =~= Seq::<char>::empty());
    assert(out@ + Seq::<char>::empty() =~= out@);
    out
}

/// The address of a gateway path on `server`: its configured match-history host, then the
/// path with `{region}` replaced by the server's path alias.
pub fn request_url(config: &ServerConfig, server: &str, path: &str) -> (r: Result<String, String>)
    ensures
        match r {
            Ok(url) => find_server(servers_of(*config), server@) matches Some(e) && e.match_history matches Some(host)
                && url@ == host@ + replace_all(path@, "{region}"@, path_alias(servers_of(*config), server@)),
            Err(e) => e@ == "region.unsupported"@ && !(find_server(servers_of(*config), server@) matches Some(x)
                && x.match_history is Some),
        },
{
    let (base, sub) = config.endpoint(server, true)?;
    let replaced = replace_region(chars_of(path).as_slice(), chars_of(sub.as_str()).as_slice());
    let mut url = base;
    let rest = string_of(replaced.as_slice());
    url.append(rest.as_str());
    Ok(url)
}

/// The path of a player's match history summary.
pub fn history_path(puuid: &str) -> (r: String)
    ensures
        r@ == "/match-history-query/v1/products/lol/player/"@ + percent_encode(puuid.spec_bytes()) + "/SUMMARY"@,
{
    let mut r = owned("/match-history-query/v1/products/lol/player/");
    let segment = url_segment(puuid);
    r.append(segment.as_str());
    r.append("/SUMMARY");
    r
}

/// The path of a game's summary, or of its details with the timeline.
pub fn game_path(game_id: &str, timeline: bool) -> (r: Result<String, String>)
    ensures
        match r {
            Ok(p) => spec_valid_game_id(game_id@) && p@ == "/match-history-query/v1/products/lol/{region}_"@ + game_id@
                + (if timeline {
                "/DETAILS"@
            } else {
                "/SUMMARY"@
            }),
            Err(e) => !spec_valid_game_id(game_id@) && e@ == "game.invalidId"@,
        },
{
    validate_game_id(game_id)?;
    let mut r = owned("/match-history-query/v1/products/lol/{region}_");
    r.append(game_id);
    if timeline {
        r.append("/DETAILS");
    } else {
        r.append("/SUMMARY");
    }
    Ok(r)
}

/// The path of a game's replay file.
pub fn replay_path(game_id: &str) -> (r: Result<String, String>)
    ensures
        match r {
            Ok(p) => spec_valid_game_id(game_id@) && p@ == "/match-history-query/v3/product/lol/matchId/{region}_"@
                + game_id@ + "/infoType/replay"@,
            Err(e) => !spec_valid_game_id(game_id@) && e@ == "game.invalidId"@,
        },
{
    validate_game_id(game_id)?;
    let mut r = owned("/match-history-query/v3/product/lol/matchId/{region}_");
    r.append(game_id);
    r.append("/infoType/replay");
    Ok(r)
}

/// The `Range` header that resumes a download at `offset`.
pub fn range_header(offset: u64) -> (r: String)
    ensures
        r@ == "bytes="@ + decimal(offset as nat) + "-"@,
{
    let mut r = owned("bytes=");
    r.append(decimal_text(offset).as_str());
    r.append("-");
    r
}

/// The bytes of a gateway answer received once another chunk arrives; `gateway.invalidData`
/// once the answer would grow past sixteen MiB.
pub fn accept_answer_chunk(received: usize, chunk: usize) -> (r: Result<usize, String>)
    ensures
        match r {
            Ok(n) => n == received + chunk && n <= 16777216,
            Err(e) => received + chunk > 16777216 && e@ == "gateway.invalidData"@,
        },
{
    match received.checked_add(chunk) {
        Some(n) => if n > 16777216 {
            Err(owned("gateway.invalidData"))
        } else {
            Ok(n)
        },
        None => Err(owned("gateway.invalidData")),
    }
}

} // verus!
