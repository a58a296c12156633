//! Platform identifiers, server identifiers and the match-history routing table.
use vstd::prelude::*;
use crate::text::{has_prefix, is_ascii_upper, is_ascii_digit, all_digits, chars_of, chars_eq, starts_with, tail, string_of, owned};

verus! {

pub open spec fn tencent_prefix() -> Seq<char> {
    seq!['T', 'E', 'N', 'C', 'E', 'N', 'T', '_']
}

/// The identifier without its `TENCENT_` namespace, when it has one.
pub open spec fn strip_tencent(s: Seq<char>) -> Seq<char> {
    if has_prefix(s, tencent_prefix()) {
        s.subrange(8, s.len() as int)
    } else {
        s
    }
}

pub open spec fn is_code_char(c: char) -> bool {
    is_ascii_upper(c) || is_ascii_digit(c)
}

/// A region code: 1 to 32 characters, each an upper-case ASCII letter or a digit.
pub open spec fn valid_code(s: Seq<char>) -> bool {
    &&& 0 < s.len() <= 32
    &&& forall|i: int| 0 <= i < s.len() ==> is_code_char(#[trigger] s[i])
}

/// `s` is `prefix` followed by at least one digit and nothing else.
pub open spec fn numbered(s: Seq<char>, prefix: Seq<char>) -> bool {
    &&& has_prefix(s, prefix)
    &&& s.len() > prefix.len()
    &&& all_digits(s.subrange(prefix.len() as int, s.len() as int))
}

/// Tencent platforms whose archive identities predate the routed namespace.
pub open spec fn legacy_tencent_platform(s: Seq<char>) -> bool {
    ||| numbered(s, seq!['H', 'N'])
    ||| numbered(s, seq!['W', 'T'])
    ||| numbered(s, seq!['T', 'J'])
    ||| numbered(s, seq!['N', 'J'])
    ||| numbered(s, seq!['G', 'Z'])
    ||| numbered(s, seq!['C', 'Q'])
    ||| numbered(s, seq!['B', 'G', 'P'])
}

/// The server identifier under which a platform is addressed.
pub open spec fn spec_server_for_platform(v: Seq<char>) -> Option<Seq<char>> {
    if !valid_code(strip_tencent(v)) {
        None
    } else if v == seq!['E', 'U', 'W', '1'] {
        Some(seq!['E', 'U', 'W'])
    } else if v == seq!['J', 'P', '1'] {
        Some(seq!['J', 'P'])
    } else if v == seq!['P', 'B', 'E', '1'] {
        Some(seq!['P', 'B', 'E'])
    } else if legacy_tencent_platform(v) {
        Some(tencent_prefix() + v)
    } else {
        Some(v)
    }
}

/// The platform that a server identifier is tried against.
pub open spec fn platform_candidate(id: Seq<char>) -> Seq<char> {
    if id == seq!['E', 'U', 'W'] {
        seq!['E', 'U', 'W', '1']
    } else if id == seq!['J', 'P'] {
        seq!['J', 'P', '1']
    } else if id == seq!['P', 'B', 'E'] {
        seq!['P', 'B', 'E', '1']
    } else if has_prefix(id, tencent_prefix()) && legacy_tencent_platform(
        id.subrange(8, id.len() as int),
    ) {
        id.subrange(8, id.len() as int)
    } else {
        id
    }
}

/// The platform of a server identifier: only one whose server identifier is `id` again.
pub open spec fn spec_platform(id: Seq<char>) -> Option<Seq<char>> {
    if !valid_code(strip_tencent(id)) {
        None
    } else {
        let v = platform_candidate(id);
        match spec_server_for_platform(v) {
            Some(s) => if s == id {
                Some(v)
            } else {
                None
            },
            None => None,
        }
    }
}

pub fn tencent_chars() -> (r: Vec<char>)
    ensures
        r@ == tencent_prefix(),
{
    let r = vec!['T', 'E', 'N', 'C', 'E', 'N', 'T', '_'];
    assert(r@ =~= tencent_prefix());
    r
}

fn strip_tencent_chars(s: &[char]) -> (r: Vec<char>)
    ensures
        r@ == strip_tencent(s@),
{
    let t = tencent_chars();
    if starts_with(s, t.as_slice()) {
        tail(s, 8)
    } else {
        tail(s, 0)
    }
}

fn validate_code(value: &[char]) -> (r: bool)
    ensures
        r == valid_code(value@),
{
    if value.len() == 0 || value.len() > 32 {
        return false;
    }
    let mut i: usize = 0;
    while i < value.len()
        invariant
            i <= value.len(),
            forall|j: int| 0 <= j < i ==> is_code_char(#[trigger] value@[j]),
        decreases value.len() - i,
    {
        let c = value[i];
        if !(('A' <= c && c <= 'Z') || ('0' <= c && c <= '9')) {
            return false;
        }
        i = i + 1;
    }
    true
}

fn numbered_with(s: &[char], prefix: Vec<char>) -> (r: bool)
    ensures
        r == numbered(s@, prefix@),
{
    if !starts_with(s, prefix.as_slice()) || s.len() <= prefix.len() {
        return false;
    }
    let mut i = prefix.len();
    while i < s.len()
        invariant
            prefix.len() <= i <= s.len(),
            forall|j: int| prefix.len() <= j < i ==> is_ascii_digit(#[trigger] s@[j]),
        decreases s.len() - i,
    {
        if !('0' <= s[i] && s[i] <= '9') {
            assert(!is_ascii_digit(s@.subrange(prefix.len() as int, s.len() as int)[i - prefix.len()]));
            return false;
        }
        i = i + 1;
    }
    assert forall|j: int| 0 <= j < s@.subrange(prefix.len() as int, s.len() as int).len() implies
        is_ascii_digit(#[trigger] s@.subrange(prefix.len() as int, s.len() as int)[j]) by {
        assert(is_ascii_digit(s@[prefix.len() + j]));
    }
    true
}

fn is_legacy_tencent_platform(s: &[char]) -> (r: bool)
    ensures
        r == legacy_tencent_platform(s@),
{
    let hn = vec!['H', 'N'];
    assert(hn@ =~= seq!['H', 'N']);
    let wt = vec!['W', 'T'];
    assert(wt@ =~= seq!['W', 'T']);
    let tj = vec!['T', 'J'];
    assert(tj@ =~= seq!['T', 'J']);
    let nj = vec!['N', 'J'];
    assert(nj@ =~= seq!['N', 'J']);
    let gz = vec!['G', 'Z'];
    assert(gz@ =~= seq!['G', 'Z']);
    let cq = vec!['C', 'Q'];
    assert(cq@ =~= seq!['C', 'Q']);
    let bgp = vec!['B', 'G', 'P'];
    assert(bgp@ =~= seq!['B', 'G', 'P']);
    numbered_with(s, hn) || numbered_with(s, wt) || numbered_with(s, tj) || numbered_with(s, nj)
        || numbered_with(s, gz) || numbered_with(s, cq) || numbered_with(s, bgp)
}

fn server_for_chars(v: &[char]) -> (r: Option<Vec<char>>)
    ensures
        match r {
            Some(s) => spec_server_for_platform(v@) == Some(s@),
            None => spec_server_for_platform(v@) is None,
        },
{
    let stripped = strip_tencent_chars(v);
    if !validate_code(stripped.as_slice()) {
        return None;
    }
    let euw1 = vec!['E', 'U', 'W', '1'];
    assert(euw1@ =~= seq!['E', 'U', 'W', '1']);
    let jp1 = vec!['J', 'P', '1'];
    assert(jp1@ =~= seq!['J', 'P', '1']);
    let pbe1 = vec!['P', 'B', 'E', '1'];
    assert(pbe1@ =~= seq!['P', 'B', 'E', '1']);
    if chars_eq(v, euw1.as_slice()) {
        let r = vec!['E', 'U', 'W'];
        assert(r@ =~= seq!['E', 'U', 'W']);
        Some(r)
    } else if chars_eq(v, jp1.as_slice()) {
        let r = vec!['J', 'P'];
        assert(r@ =~= seq!['J', 'P']);
        Some(r)
    } else if chars_eq(v, pbe1.as_slice()) {
        let r = vec!['P', 'B', 'E'];
        assert(r@ =~= seq!['P', 'B', 'E']);
        Some(r)
    } else if is_legacy_tencent_platform(v) {
        let mut r = tencent_chars();
        let mut i: usize = 0;
        while i < v.len()
            invariant
                i <= v.len(),
                r@ == tencent_prefix() + v@.subrange(0, i as int),
            decreases v.len() - i,
        {
            r.push(v[i]);
            proof {
                assert(v@.subrange(0, i + 1) =~= v@.subrange(0, i as int).push(v@[i as int]));
            }
            i = i + 1;
        }
        assert(v@.subrange(0, v@.len() as int) =~= v@);
        Some(r)
    } else {
        Some(tail(v, 0))
    }
}

fn platform_chars(id: &[char]) -> (r: Option<Vec<char>>)
    ensures
        match r {
            Some(p) => spec_platform(id@) == Some(p@),
            None => spec_platform(id@) is None,
        },
{
    let stripped = strip_tencent_chars(id);
    if !validate_code(stripped.as_slice()) {
        return None;
    }
    let euw = vec!['E', 'U', 'W'];
    assert(euw@ =~= seq!['E', 'U', 'W']);
    let jp = vec!['J', 'P'];
    assert(jp@ =~= seq!['J', 'P']);
    let pbe = vec!['P', 'B', 'E'];
    assert(pbe@ =~= seq!['P', 'B', 'E']);
    let t = tencent_chars();
    let candidate = if chars_eq(id, euw.as_slice()) {
        let r = vec!['E', 'U', 'W', '1'];
        assert(r@ =~= seq!['E', 'U', 'W', '1']);
        r
    } else if chars_eq(id, jp.as_slice()) {
        let r = vec!['J', 'P', '1'];
        assert(r@ =~= seq!['J', 'P', '1']);
        r
    } else if chars_eq(id, pbe.as_slice()) {
        let r = vec!['P', 'B', 'E', '1'];
        assert(r@ =~= seq!['P', 'B', 'E', '1']);
        r
    } else if starts_with(id, t.as_slice()) {
        let rest = tail(id, 8);
        if is_legacy_tencent_platform(rest.as_slice()) {
            rest
        } else {
            tail(id, 0)
        }
    } else {
        tail(id, 0)
    };
    assert(candidate@ == platform_candidate(id@));
    match server_for_chars(candidate.as_slice()) {
        Some(server) => if chars_eq(server.as_slice(), id) {
            Some(candidate)
        } else {
            None
        },
        None => None,
    }
}

/// The server identifier under which the platform `value` is addressed.
pub fn server_for_platform(value: &str) -> (r: Result<String, String>)
    ensures
        match r {
            Ok(s) => spec_server_for_platform(value@) == Some(s@),
            Err(e) => spec_server_for_platform(value@) is None && e@ == "region.unsupported"@,
        },
{
    let v = chars_of(value);
    match server_for_chars(v.as_slice()) {
        Some(s) => Ok(string_of(s.as_slice())),
        None => Err(owned("region.unsupported")),
    }
}

/// The platform of the server identifier `id`.
pub fn platform(id: &str) -> (r: Result<String, String>)
    ensures
        match r {
            Ok(p) => spec_platform(id@) == Some(p@),
            Err(e) => spec_platform(id@) is None && e@ == "region.unsupported"@,
        },
{
    let v = chars_of(id);
    match platform_chars(v.as_slice()) {
        Some(p) => Ok(string_of(p.as_slice())),
        None => Err(owned("region.unsupported")),
    }
}

/// Law: a platform resolved from a server identifier is addressed by that same identifier.
pub proof fn lemma_platform_round_trip(id: Seq<char>)
    requires
        spec_platform(id) is Some,
    ensures
        spec_server_for_platform(spec_platform(id)->0) == Some(id),
{
}

/// Law: two server identifiers never resolve to the same platform.
pub proof fn lemma_platform_injective(a: Seq<char>, b: Seq<char>)
    requires
        spec_platform(a) is Some,
        spec_platform(a) == spec_platform(b),
    ensures
        a == b,
{
    lemma_platform_round_trip(a);
    lemma_platform_round_trip(b);
}

/// Law: `platform` and `server_for_platform` are inverse where `platform` is defined: the
/// platform of a server identifier is addressed by that identifier again, and no two server
/// identifiers share a platform.
pub proof fn lemma_platform_bijective(a: Seq<char>, b: Seq<char>)
    requires
        spec_platform(a) is Some,
    ensures
        spec_server_for_platform(spec_platform(a)->0) == Some(a),
        spec_platform(a) == spec_platform(b) ==> a == b,
{
    lemma_platform_round_trip(a);
    if spec_platform(a) == spec_platform(b) {
        lemma_platform_injective(a, b);
    }
}

/// One server of the bundled routing table.
pub struct ServerEntry {
    pub id: String,
    /// Host of the match-history service, when the server has one.
    pub match_history: Option<String>,
    /// Host of the common service, when the server has one.
    pub common: Option<String>,
    /// Path alias of the server, when it differs from the identifier.
    pub region_path_param: Option<String>,
}

/// A display name of a server in one language.
pub struct ServerName {
    pub id: String,
    pub name: String,
}

/// The routing table: servers and their display names, each keyed by a distinct identifier.
pub struct ServerConfig {
    servers: Vec<ServerEntry>,
    names_zh: Vec<ServerName>,
    names_en: Vec<ServerName>,
}

pub open spec fn opt_view(o: Option<String>) -> Option<Seq<char>> {
    match o {
        Some(s) => Some(s@),
        None => None,
    }
}

pub open spec fn server_ids_distinct(s: Seq<ServerEntry>) -> bool {
    forall|i: int, j: int|
        0 <= i < s.len() && 0 <= j < s.len() && i != j ==> #[trigger] s[i].id@ != #[trigger] s[j].id@
}

pub open spec fn name_ids_distinct(s: Seq<ServerName>) -> bool {
    forall|i: int, j: int|
        0 <= i < s.len() && 0 <= j < s.len() && i != j ==> #[trigger] s[i].id@ != #[trigger] s[j].id@
}

/// The server entry with identifier `id`.
pub open spec fn find_server(s: Seq<ServerEntry>, id: Seq<char>) -> Option<ServerEntry> {
    if exists|i: int| 0 <= i < s.len() && #[trigger] s[i].id@ == id {
        Some(s[choose|i: int| 0 <= i < s.len() && #[trigger] s[i].id@ == id])
    } else {
        None
    }
}

/// The display name registered for `id`.
pub open spec fn find_name(s: Seq<ServerName>, id: Seq<char>) -> Option<Seq<char>> {
    if exists|i: int| 0 <= i < s.len() && #[trigger] s[i].id@ == id {
        Some(s[choose|i: int| 0 <= i < s.len() && #[trigger] s[i].id@ == id].name@)
    } else {
        None
    }
}

/// The routing table's servers.
pub closed spec fn servers_of(c: ServerConfig) -> Seq<ServerEntry> {
    c.servers@
}

pub closed spec fn names_zh_of(c: ServerConfig) -> Seq<ServerName> {
    c.names_zh@
}

pub closed spec fn names_en_of(c: ServerConfig) -> Seq<ServerName> {
    c.names_en@
}

/// What a usable routing table satisfies: keys are distinct and every server resolves to a platform.
pub open spec fn config_valid(
    servers: Seq<ServerEntry>,
    zh: Seq<ServerName>,
    en: Seq<ServerName>,
) -> bool {
    &&& server_ids_distinct(servers)
    &&& name_ids_distinct(zh)
    &&& name_ids_distinct(en)
    &&& forall|i: int| 0 <= i < servers.len() ==> (#[trigger] spec_platform(servers[i].id@)) is Some
}

/// Why a source server may not read match history of a target server, if it may not.
pub open spec fn history_access(s: Seq<ServerEntry>, source: Seq<char>, target: Seq<char>) -> Option<
    Seq<char>,
> {
    if source.len() == 0 {
        Some("client.Offline"@)
    } else if find_server(s, source) is None || !(find_server(s, target) matches Some(e)
        && e.match_history is Some) {
        Some("region.unsupported"@)
    } else if has_prefix(source, tencent_prefix()) != has_prefix(target, tencent_prefix()) {
        Some("region.operatorMismatch"@)
    } else {
        None
    }
}

/// The path alias of a server: its configured alias, else the identifier without its namespace.
pub open spec fn path_alias(s: Seq<ServerEntry>, id: Seq<char>) -> Seq<char> {
    match find_server(s, id) {
        Some(e) => match e.region_path_param {
            Some(p) => p@,
            None => strip_tencent(id),
        },
        None => strip_tencent(id),
    }
}

/// A server offered for a query, relative to the source server the client is connected to.
pub struct Region {
    pub id: String,
    pub platform: String,
    pub name: String,
    pub english_name: String,
    pub available: bool,
    pub current: bool,
}

/// `r` describes server `id` as seen from `source`.
pub open spec fn region_for(c: ServerConfig, source: Seq<char>, id: Seq<char>, r: Region) -> bool {
    &&& r.id@ == id
    &&& Some(r.platform@) == spec_platform(id)
    &&& r.name@ == match find_name(names_zh_of(c), id) {
        Some(n) => n,
        None => id,
    }
    &&& r.english_name@ == match find_name(names_en_of(c), id) {
        Some(n) => n,
        None => id,
    }
    &&& r.available == (source == id || history_access(servers_of(c), source, id) is None)
    &&& r.current == (source == id)
}

fn find_entry(s: &Vec<ServerEntry>, id: &[char]) -> (r: Option<usize>)
    requires
        server_ids_distinct(s@),
    ensures
        match r {
            Some(i) => i < s@.len() && s@[i as int].id@ == id@ && find_server(s@, id@) == Some(
                s@[i as int],
            ),
            None => find_server(s@, id@) is None,
        },
{
    let mut i: usize = 0;
    while i < s.len()
        invariant
            i <= s@.len(),
            server_ids_distinct(s@),
            forall|j: int| 0 <= j < i ==> #[trigger] s@[j].id@ != id@,
        decreases s.len() - i,
    {
        let key = chars_of(s[i].id.as_str());
        if chars_eq(key.as_slice(), id) {
            assert(s@[i as int].id@ == id@);
            proof {
                assert(exists|k: int| 0 <= k < s@.len() && #[trigger] s@[k].id@ == id@);
                let k = choose|k: int| 0 <= k < s@.len() && #[trigger] s@[k].id@ == id@;
                if k != i {
                    assert(s@[k].id@ != s@[i as int].id@);
                }
            }
            return Some(i);
        }
        i = i + 1;
    }
    None
}

fn find_name_in(s: &Vec<ServerName>, id: &[char]) -> (r: Option<String>)
    requires
        name_ids_distinct(s@),
    ensures
        opt_view(r) == find_name(s@, id@),
{
    let mut i: usize = 0;
    while i < s.len()
        invariant
            i <= s@.len(),
            name_ids_distinct(s@),
            forall|j: int| 0 <= j < i ==> #[trigger] s@[j].id@ != id@,
        decreases s.len() - i,
    {
        let key = chars_of(s[i].id.as_str());
        if chars_eq(key.as_slice(), id) {
            assert(s@[i as int].id@ == id@);
            proof {
                assert(exists|k: int| 0 <= k < s@.len() && #[trigger] s@[k].id@ == id@);
                let k = choose|k: int| 0 <= k < s@.len() && #[trigger] s@[k].id@ == id@;
                if k != i {
                    assert(s@[k].id@ != s@[i as int].id@);
                }
            }
            return Some(s[i].name.clone());
        }
        i = i + 1;
    }
    None
}

impl ServerConfig {
    #[verifier::type_invariant]
    spec fn well_formed(self) -> bool {
        config_valid(self.servers@, self.names_zh@, self.names_en@)
    }

    /// A routing table over the given servers and display names, when it is usable.
    pub fn new(servers: Vec<ServerEntry>, names_zh: Vec<ServerName>, names_en: Vec<ServerName>) -> (r:
        Option<ServerConfig>)
        ensures
            match r {
                Some(c) => servers_of(c) == servers@ && names_zh_of(c) == names_zh@ && names_en_of(c)
                    == names_en@ && config_valid(servers@, names_zh@, names_en@),
                None => !config_valid(servers@, names_zh@, names_en@),
            },
    {
        let mut i: usize = 0;
        while i < servers.len()
            invariant
                i <= servers@.len(),
                forall|a: int, b: int|
                    0 <= a < i && 0 <= b < servers@.len() && a != b ==> #[trigger] servers@[a].id@
                        != #[trigger] servers@[b].id@,
                forall|a: int| 0 <= a < i ==> (#[trigger] spec_platform(servers@[a].id@)) is Some,
            decreases servers.len() - i,
        {
            let id = chars_of(servers[i].id.as_str());
            if platform_chars(id.as_slice()).is_none() {
                return None;
            }
            let mut j: usize = 0;
            while j < servers.len()
                invariant
                    i < servers@.len(),
                    j <= servers@.len(),
                    id@ == servers@[i as int].id@,
                    forall|b: int| 0 <= b < j && b != i ==> servers@[i as int].id@ != #[trigger] servers@[b].id@,
                decreases servers.len() - j,
            {
                if j != i {
                    let other = chars_of(servers[j].id.as_str());
                    if chars_eq(id.as_slice(), other.as_slice()) {
                        return None;
                    }
                }
                j = j + 1;
            }
            i = i + 1;
        }
        if !names_distinct(&names_zh) || !names_distinct(&names_en) {
            return None;
        }
        Some(ServerConfig { servers, names_zh, names_en })
    }

    /// Whether `source` may read match history, details, timelines and replays of `target`.
    /// Entitlement-backed routes only: no profile or ranked endpoints are covered.
    pub fn check_history_access(&self, source: &str, target: &str) -> (r: Result<(), String>)
        ensures
            match r {
                Ok(()) => history_access(servers_of(*self), source@, target@) is None,
                Err(e) => history_access(servers_of(*self), source@, target@) == Some(e@),
            },
    {
        proof {
            use_type_invariant(self);
        }
        let src = chars_of(source);
        let dst = chars_of(target);
        if src.len() == 0 {
            return Err(owned("client.Offline"));
        }
        let known_source = find_entry(&self.servers, src.as_slice());
        let known_target = find_entry(&self.servers, dst.as_slice());
        let routed = match known_target {
            Some(k) => self.servers[k].match_history.is_some(),
            None => false,
        };
        if known_source.is_none() || !routed {
            return Err(owned("region.unsupported"));
        }
        let t = tencent_chars();
        if starts_with(src.as_slice(), t.as_slice()) != starts_with(dst.as_slice(), t.as_slice()) {
            return Err(owned("region.operatorMismatch"));
        }
        Ok(())
    }

    /// The path alias of server `id`, which must resolve to a platform.
    /// An alias is identity metadata, not permission to send a request.
    pub fn path_region(&self, id: &str) -> (r: Result<String, String>)
        ensures
            match r {
                Ok(p) => spec_platform(id@) is Some && p@ == path_alias(servers_of(*self), id@),
                Err(e) => spec_platform(id@) is None && e@ == "region.unsupported"@,
            },
    {
        proof {
            use_type_invariant(self);
        }
        let v = chars_of(id);
        if platform_chars(v.as_slice()).is_none() {
            return Err(owned("region.unsupported"));
        }
        Ok(self.alias(v.as_slice()))
    }

    fn alias(&self, id: &[char]) -> (r: String)
        requires
            server_ids_distinct(self.servers@),
        ensures
            r@ == path_alias(servers_of(*self), id@),
    {
        match find_entry(&self.servers, id) {
            Some(k) => match &self.servers[k].region_path_param {
                Some(p) => p.clone(),
                None => string_of(strip_tencent_chars(id).as_slice()),
            },
            None => string_of(strip_tencent_chars(id).as_slice()),
        }
    }

    /// The configured host of server `id` (the match-history host when `history`, else the
    /// common host) and its path alias. Hosts come only from the table.
    pub fn endpoint(&self, id: &str, history: bool) -> (r: Result<(String, String), String>)
        ensures
            match r {
                Ok((host, sub)) => find_server(servers_of(*self), id@) matches Some(e) && Some(host@)
                    == opt_view(if history {
                    e.match_history
                } else {
                    e.common
                }) && sub@ == path_alias(servers_of(*self), id@),
                Err(e) => e@ == "region.unsupported"@ && !(find_server(servers_of(*self), id@) matches Some(
                    x,
                ) && (if history {
                    x.match_history
                } else {
                    x.common
                }) is Some),
            },
    {
        proof {
            use_type_invariant(self);
        }
        let v = chars_of(id);
        match find_entry(&self.servers, v.as_slice()) {
            Some(k) => {
                let host = if history {
                    &self.servers[k].match_history
                } else {
                    &self.servers[k].common
                };
                match host {
                    Some(h) => Ok((h.clone(), self.alias(v.as_slice()))),
                    None => Err(owned("region.unsupported")),
                }
            },
            None => Err(owned("region.unsupported")),
        }
    }

    fn region(&self, source: &[char], id: &[char]) -> (r: Region)
        requires
            spec_platform(id@) is Some,
            config_valid(self.servers@, self.names_zh@, self.names_en@),
        ensures
            region_for(*self, source@, id@, r),
    {
        let platform = match platform_chars(id) {
            Some(p) => string_of(p.as_slice()),
            None => String::new(),
        };
        let name = match find_name_in(&self.names_zh, id) {
            Some(n) => n,
            None => string_of(id),
        };
        let english_name = match find_name_in(&self.names_en, id) {
            Some(n) => n,
            None => string_of(id),
        };
        let current = chars_eq(source, id);
        let source_str = string_of(source);
        let id_str = string_of(id);
        let available = current || self.check_history_access(source_str.as_str(), id_str.as_str()).is_ok();
        Region { id: id_str, platform, name, english_name, available, current }
    }

    /// Every configured server, followed by the source server when it is a valid platform that
    /// the table does not list, each described relative to `source`.
    pub fn list_for_source(&self, source: &str) -> (r: Vec<Region>)
        ensures
            ({
                let s = servers_of(*self);
                let extra = source@.len() > 0 && spec_platform(source@) is Some && find_server(
                    s,
                    source@,
                ) is None;
                &&& r@.len() == s.len() + (if extra {
                    1int
                } else {
                    0int
                })
                &&& forall|i: int| 0 <= i < s.len() ==> region_for(*self, source@, s[i].id@, #[trigger] r@[i])
                &&& extra ==> region_for(*self, source@, source@, r@[s.len() as int])
            }),
    {
        proof {
            use_type_invariant(self);
        }
        let src = chars_of(source);
        let mut out: Vec<Region> = Vec::new();
        let mut i: usize = 0;
        while i < self.servers.len()
            invariant
                i <= self.servers@.len(),
                src@ == source@,
                config_valid(self.servers@, self.names_zh@, self.names_en@),
                out@.len() == i,
                forall|j: int| 0 <= j < i ==> region_for(*self, source@, self.servers@[j].id@, #[trigger] out@[j]),
            decreases self.servers.len() - i,
        {
            let id = chars_of(self.servers[i].id.as_str());
            assert(spec_platform(self.servers@[i as int].id@) is Some);
            let region = self.region(src.as_slice(), id.as_slice());
            out.push(region);
            i = i + 1;
        }
        if src.len() > 0 && platform_chars(src.as_slice()).is_some() && find_entry(
            &self.servers,
            src.as_slice(),
        ).is_none() {
            let region = self.region(src.as_slice(), src.as_slice());
            out.push(region);
        }
        out
    }
}

fn names_distinct(s: &Vec<ServerName>) -> (r: bool)
    ensures
        r == name_ids_distinct(s@),
{
    let mut i: usize = 0;
    while i < s.len()
        invariant
            i <= s@.len(),
            forall|a: int, b: int|
                0 <= a < i && 0 <= b < s@.len() && a != b ==> #[trigger] s@[a].id@ != #[trigger] s@[b].id@,
        decreases s.len() - i,
    {
        let id = chars_of(s[i].id.as_str());
        let mut j: usize = 0;
        while j < s.len()
            invariant
                i < s@.len(),
                j <= s@.len(),
                id@ == s@[i as int].id@,
                forall|b: int| 0 <= b < j && b != i ==> s@[i as int].id@ != #[trigger] s@[b].id@,
            decreases s.len() - j,
        {
            if j != i {
                let other = chars_of(s[j].id.as_str());
                if chars_eq(id.as_slice(), other.as_slice()) {
                    return false;
                }
            }
            j = j + 1;
        }
        i = i + 1;
    }
    true
}

} // verus!
