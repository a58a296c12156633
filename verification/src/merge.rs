//! Merging the user state of an imported backup into the current one, and the rules that the
//! saved accounts of a user state keep.
use vstd::prelude::*;
use crate::domain::{PlayerProfile, PremadeMark, SavedAccount};
use crate::regions::spec_platform;
use crate::sessions::{is_control, name_ok, trim, trim_chars, valid_name};
use crate::text::{chars_of, find_char, owned, str_eq, utf8_len};

verus! {

/// Some saved account in `s` has the id `id`.
pub open spec fn has_account(s: Seq<SavedAccount>, id: Seq<char>) -> bool {
    exists|k: int| 0 <= k < s.len() && (#[trigger] s[k]).account.id@ == id
}

/// The saved accounts after the import: each imported account whose id is not listed yet is
/// appended, in order.
pub open spec fn merged_accounts(current: Seq<SavedAccount>, imported: Seq<SavedAccount>) -> Seq<SavedAccount>
    decreases imported.len(),
{
    if imported.len() == 0 {
        current
    } else {
        let m = merged_accounts(current, imported.drop_last());
        if has_account(m, imported.last().account.id@) {
            m
        } else {
            m.push(imported.last())
        }
    }
}

/// Some text in `s` is `t`.
pub open spec fn has_text(s: Seq<String>, t: Seq<char>) -> bool {
    exists|k: int| 0 <= k < s.len() && (#[trigger] s[k])@ == t
}

/// The reviewed games after the import: each imported one not listed yet is appended.
pub open spec fn merged_reviewed(current: Seq<String>, imported: Seq<String>) -> Seq<String>
    decreases imported.len(),
{
    if imported.len() == 0 {
        current
    } else {
        let m = merged_reviewed(current, imported.drop_last());
        if has_text(m, imported.last()@) {
            m
        } else {
            m.push(imported.last())
        }
    }
}

/// Some mark in `s` marks the same account in the same match as `mark`.
pub open spec fn has_mark(s: Seq<PremadeMark>, mark: PremadeMark) -> bool {
    exists|k: int|
        0 <= k < s.len() && (#[trigger] s[k]).match_id@ == mark.match_id@ && s[k].account_id@ == mark.account_id@
}

/// The premade marks after the import: each imported mark not listed yet is appended.
pub open spec fn merged_premades(current: Seq<PremadeMark>, imported: Seq<PremadeMark>) -> Seq<PremadeMark>
    decreases imported.len(),
{
    if imported.len() == 0 {
        current
    } else {
        let m = merged_premades(current, imported.drop_last());
        if has_mark(m, imported.last()) {
            m
        } else {
            m.push(imported.last())
        }
    }
}

/// The players, by their views.
pub open spec fn players_view(s: Seq<PlayerProfile>) -> Seq<(Seq<char>, Seq<char>, Seq<Seq<char>>)> {
    s.map_values(|p: PlayerProfile| p@)
}

/// Some player in `ps` has the id `id`.
pub open spec fn has_player(ps: Seq<(Seq<char>, Seq<char>, Seq<Seq<char>>)>, id: Seq<char>) -> bool {
    exists|k: int| 0 <= k < ps.len() && (#[trigger] ps[k]).0 == id
}

/// Some player in `ps` already claims the account `id`.
pub open spec fn claimed(ps: Seq<(Seq<char>, Seq<char>, Seq<Seq<char>>)>, id: Seq<char>) -> bool {
    exists|k: int| 0 <= k < ps.len() && (#[trigger] ps[k]).2.contains(id)
}

/// The account ids that no player in `ps` claims, in order.
pub open spec fn unclaimed(ids: Seq<Seq<char>>, ps: Seq<(Seq<char>, Seq<char>, Seq<Seq<char>>)>) -> Seq<Seq<char>>
    decreases ids.len(),
{
    if ids.len() == 0 {
        Seq::empty()
    } else if claimed(ps, ids.last()) {
        unclaimed(ids.drop_last(), ps)
    } else {
        unclaimed(ids.drop_last(), ps).push(ids.last())
    }
}

/// The players after the import: each imported player whose id is not listed yet is
/// appended, keeping only the accounts that no listed player claims.
pub open spec fn merged_players(
    current: Seq<(Seq<char>, Seq<char>, Seq<Seq<char>>)>,
    imported: Seq<(Seq<char>, Seq<char>, Seq<Seq<char>>)>,
) -> Seq<(Seq<char>, Seq<char>, Seq<Seq<char>>)>
    decreases imported.len(),
{
    if imported.len() == 0 {
        current
    } else {
        let m = merged_players(current, imported.drop_last());
        let p = imported.last();
        if has_player(m, p.0) {
            m
        } else {
            m.push((p.0, p.1, unclaimed(p.2, m)))
        }
    }
}

/// Adds the imported saved accounts that are not listed yet.
pub fn merge_accounts(current: &mut Vec<SavedAccount>, imported: Vec<SavedAccount>)
    ensures
        final(current)@ == merged_accounts(old(current)@, imported@),
{
    let ghost start = current@;
    let ghost all = imported@;
    let total = imported.len();
    assert(all.len() == total);
    let mut rest = imported;
    let mut i: usize = 0;
    while rest.len() > 0
        invariant
            all.len() <= usize::MAX,
            i + rest@.len() == all.len(),
            rest@ == all.skip(i as int),
            current@ == merged_accounts(start, all.take(i as int)),
        decreases rest.len(),
    {
        let saved = rest.remove(0);
        assert(saved == all[i as int]);
        assert(all.take(i + 1).drop_last() =~= all.take(i as int));
        let mut k: usize = 0;
        let mut found = false;
        while k < current.len()
            invariant
                k <= current@.len(),
                !found ==> forall|m: int| 0 <= m < k ==> (#[trigger] current@[m]).account.id@ != saved.account.id@,
                found ==> has_account(current@, saved.account.id@),
            decreases current.len() - k,
        {
            if current[k].account.id == saved.account.id {
                found = true;
            }
            k = k + 1;
        }
        if !found {
            current.push(saved);
        }
        i = i + 1;
        assert(rest@ =~= all.skip(i as int));
    }
    assert(all.take(i as int) =~= all);
}

/// Adds the imported reviewed games that are not listed yet.
pub fn merge_reviewed(current: &mut Vec<String>, imported: Vec<String>)
    ensures
        final(current)@ == merged_reviewed(old(current)@, imported@),
{
    let ghost start = current@;
    let ghost all = imported@;
    let total = imported.len();
    assert(all.len() == total);
    let mut rest = imported;
    let mut i: usize = 0;
    while rest.len() > 0
        invariant
            all.len() <= usize::MAX,
            i + rest@.len() == all.len(),
            rest@ == all.skip(i as int),
            current@ == merged_reviewed(start, all.take(i as int)),
        decreases rest.len(),
    {
        let game = rest.remove(0);
        assert(game == all[i as int]);
        assert(all.take(i + 1).drop_last() =~= all.take(i as int));
        let mut k: usize = 0;
        let mut found = false;
        while k < current.len()
            invariant
                k <= current@.len(),
                !found ==> forall|m: int| 0 <= m < k ==> (#[trigger] current@[m])@ != game@,
                found ==> has_text(current@, game@),
            decreases current.len() - k,
        {
            if current[k] == game {
                found = true;
            }
            k = k + 1;
        }
        if !found {
            current.push(game);
        }
        i = i + 1;
        assert(rest@ =~= all.skip(i as int));
    }
    assert(all.take(i as int) =~= all);
}

/// Adds the imported premade marks that are not listed yet.
pub fn merge_premades(current: &mut Vec<PremadeMark>, imported: Vec<PremadeMark>)
    ensures
        final(current)@ == merged_premades(old(current)@, imported@),
{
    let ghost start = current@;
    let ghost all = imported@;
    let total = imported.len();
    assert(all.len() == total);
    let mut rest = imported;
    let mut i: usize = 0;
    while rest.len() > 0
        invariant
            all.len() <= usize::MAX,
            i + rest@.len() == all.len(),
            rest@ == all.skip(i as int),
            current@ == merged_premades(start, all.take(i as int)),
        decreases rest.len(),
    {
        let mark = rest.remove(0);
        assert(mark == all[i as int]);
        assert(all.take(i + 1).drop_last() =~= all.take(i as int));
        let mut k: usize = 0;
        let mut found = false;
        while k < current.len()
            invariant
                k <= current@.len(),
                !found ==> forall|m: int|
                    0 <= m < k ==> !((#[trigger] current@[m]).match_id@ == mark.match_id@ && current@[m].account_id@
                        == mark.account_id@),
                found ==> has_mark(current@, mark),
            decreases current.len() - k,
        {
            if current[k].match_id == mark.match_id && current[k].account_id == mark.account_id {
                found = true;
            }
            k = k + 1;
        }
        if !found {
            current.push(mark);
        }
        i = i + 1;
        assert(rest@ =~= all.skip(i as int));
    }
    assert(all.take(i as int) =~= all);
}

fn has_player_id(ps: &Vec<PlayerProfile>, id: &String) -> (r: bool)
    ensures
        r == has_player(players_view(ps@), id@),
{
    let mut k: usize = 0;
    while k < ps.len()
        invariant
            k <= ps@.len(),
            forall|m: int| 0 <= m < k ==> (#[trigger] ps@[m]).id@ != id@,
        decreases ps.len() - k,
    {
        if ps[k].id == *id {
            assert(players_view(ps@)[k as int].0 == id@);
            return true;
        }
        k = k + 1;
    }
    assert forall|m: int| 0 <= m < players_view(ps@).len() implies (#[trigger] players_view(ps@)[m]).0 != id@ by {
        assert(ps@[m].id@ != id@);
    }
    false
}

fn claims(ps: &Vec<PlayerProfile>, id: &String) -> (r: bool)
    ensures
        r == claimed(players_view(ps@), id@),
{
    let mut k: usize = 0;
    while k < ps.len()
        invariant
            k <= ps@.len(),
            forall|m: int| 0 <= m < k ==> !(#[trigger] players_view(ps@)[m]).2.contains(id@),
        decreases ps.len() - k,
    {
        let ids = &ps[k].account_ids;
        let ghost v = players_view(ps@)[k as int].2;
        assert(v == ids@.map_values(|a: String| a@));
        let mut j: usize = 0;
        while j < ids.len()
            invariant
                j <= ids@.len(),
                k < ps@.len(),
                v == ids@.map_values(|a: String| a@),
                v == players_view(ps@)[k as int].2,
                forall|m: int| 0 <= m < j ==> v[m] != id@,
            decreases ids.len() - j,
        {
            if ids[j] == *id {
                assert(v[j as int] == id@);
                assert(players_view(ps@)[k as int].2.contains(id@));
                return true;
            }
            j = j + 1;
        }
        assert(!v.contains(id@));
        k = k + 1;
    }
    false
}

/// Adds the imported players whose ids are not listed yet, each keeping only the accounts
/// that no listed player claims.
pub fn merge_players(current: &mut Vec<PlayerProfile>, imported: Vec<PlayerProfile>)
    ensures
        players_view(final(current)@) == merged_players(players_view(old(current)@), players_view(imported@)),
{
    let ghost start = players_view(current@);
    let ghost all = players_view(imported@);
    let ghost whole = imported@;
    let total = imported.len();
    assert(whole.len() == total);
    let mut rest = imported;
    let mut i: usize = 0;
    while rest.len() > 0
        invariant
            whole.len() <= usize::MAX,
            all == players_view(whole),
            i + rest@.len() == whole.len(),
            rest@ == whole.skip(i as int),
            players_view(current@) == merged_players(start, all.take(i as int)),
        decreases rest.len(),
    {
        let player = rest.remove(0);
        assert(player == whole[i as int]);
        assert(all.take(i + 1).drop_last() =~= all.take(i as int));
        assert(all.take(i + 1).last() == player@);
        if !has_player_id(current, &player.id) {
            let ghost m = players_view(current@);
            let PlayerProfile { id, name, account_ids } = player;
            let ghost ids = account_ids@.map_values(|a: String| a@);
            let mut kept: Vec<String> = Vec::new();
            let mut j: usize = 0;
            while j < account_ids.len()
                invariant
                    j <= account_ids@.len(),
                    m == players_view(current@),
                    ids == account_ids@.map_values(|a: String| a@),
                    kept@.map_values(|a: String| a@) == unclaimed(ids.take(j as int), m),
                decreases account_ids.len() - j,
            {
                assert(ids.take(j + 1).drop_last() =~= ids.take(j as int));
                assert(ids.take(j + 1).last() == account_ids@[j as int]@);
                if !claims(current, &account_ids[j]) {
                    let a = account_ids[j].clone();
                    let ghost before = kept@.map_values(|a: String| a@);
                    kept.push(a);
                    assert(kept@.map_values(|a: String| a@) =~= before.push(a@));
                }
                j = j + 1;
            }
            assert(ids.take(j as int) =~= ids);
            let profile = PlayerProfile { id, name, account_ids: kept };
            let ghost before = players_view(current@);
            current.push(profile);
            assert(players_view(current@) =~= before.push(profile@));
        }
        i = i + 1;
        assert(rest@ =~= whole.skip(i as int));
    }
    assert(all.take(i as int) =~= all);
}

/// A byte that a PUUID may have: an ASCII letter or digit, `-` or `_`.
pub open spec fn puuid_byte(b: u8) -> bool {
    (48 <= b <= 57) || (65 <= b <= 90) || (97 <= b <= 122) || b == 45 || b == 95
}

/// A saved account that a user state may keep: its server's platform is the account's, its
/// id is `PLATFORM:PUUID`, its PUUID is 1 to 128 bytes of letters, digits, `-` or `_`, its Riot
/// ID is not blank, at most 512 bytes and free of control characters, and its summoner id is
/// at most 128 bytes.
pub open spec fn saved_account_ok(s: SavedAccount) -> bool {
    let a = s.account;
    let puuid = vstd::utf8::encode_utf8(a.puuid@);
    &&& spec_platform(s.server@) == Some(a.platform@)
    &&& a.id@ == a.platform@ + ":"@ + a.puuid@
    &&& a.puuid@.len() > 0
    &&& puuid.len() <= 128
    &&& forall|i: int| 0 <= i < puuid.len() ==> puuid_byte(#[trigger] puuid[i])
    &&& trim(a.riot_id@).len() > 0
    &&& vstd::utf8::encode_utf8(a.riot_id@).len() <= 512
    &&& forall|i: int| 0 <= i < a.riot_id@.len() ==> !is_control(#[trigger] a.riot_id@[i])
    &&& vstd::utf8::encode_utf8(a.summoner_id@).len() <= 128
}

/// Saved accounts that a user state may keep: each valid, no id twice.
pub open spec fn saved_accounts_ok(s: Seq<SavedAccount>) -> bool {
    &&& forall|i: int| 0 <= i < s.len() ==> saved_account_ok(#[trigger] s[i])
    &&& forall|i: int, j: int| 0 <= i < j < s.len() ==> (#[trigger] s[i]).account.id@ != (#[trigger] s[j]).account.id@
}

#[verifier::loop_isolation(false)]
fn saved_account_valid(s: &SavedAccount) -> (r: bool)
    ensures
        r == saved_account_ok(*s),
{
    let a = &s.account;
    let platform_ok = match crate::regions::platform(s.server.as_str()) {
        Ok(p) => p == a.platform,
        Err(_) => false,
    };
    if !platform_ok {
        return false;
    }
    let mut id = a.platform.clone();
    id.append(":");
    id.append(a.puuid.as_str());
    if !(id == a.id) {
        return false;
    }
    let puuid = a.puuid.as_str().as_bytes();
    if a.puuid.as_str().is_empty() || puuid.len() > 128 {
        return false;
    }
    let mut i: usize = 0;
    while i < puuid.len()
        invariant
            i <= puuid@.len(),
            puuid@ == vstd::utf8::encode_utf8(a.puuid@),
            forall|j: int| 0 <= j < i ==> puuid_byte(#[trigger] puuid@[j]),
        decreases puuid.len() - i,
    {
        let b = puuid[i];
        if !((48 <= b && b <= 57) || (65 <= b && b <= 90) || (97 <= b && b <= 122) || b == 45 || b == 95) {
            assert(!puuid_byte(puuid@[i as int]));
            return false;
        }
        i = i + 1;
    }
    let riot = chars_of(a.riot_id.as_str());
    if trim_chars(riot.as_slice()).len() == 0 || a.riot_id.as_str().as_bytes().len() > 512 {
        return false;
    }
    let mut k: usize = 0;
    while k < riot.len()
        invariant
            k <= riot@.len(),
            riot@ == a.riot_id@,
            forall|j: int| 0 <= j < k ==> !is_control(#[trigger] riot@[j]),
        decreases riot.len() - k,
    {
        let c = riot[k];
        if c <= '\u{1f}' || ('\u{7f}' <= c && c <= '\u{9f}') {
            assert(is_control(a.riot_id@[k as int]));
            return false;
        }
        k = k + 1;
    }
    a.summoner_id.as_str().as_bytes().len() <= 128
}

/// Checks the saved accounts of a user state.
pub fn validate_saved_accounts(accounts: &Vec<SavedAccount>) -> (r: Result<(), String>)
    ensures
        r is Ok <==> saved_accounts_ok(accounts@),
        r matches Err(e) ==> e@ == "accounts.invalid"@,
{
    let mut i: usize = 0;
    while i < accounts.len()
        invariant
            i <= accounts@.len(),
            saved_accounts_ok(accounts@.take(i as int)),
        decreases accounts.len() - i,
    {
        let mut j: usize = 0;
        while j < i
            invariant
                j <= i < accounts@.len(),
                forall|m: int| 0 <= m < j ==> accounts@[m].account.id@ != accounts@[i as int].account.id@,
            decreases i - j,
        {
            if accounts[j].account.id == accounts[i].account.id {
                assert(!saved_accounts_ok(accounts@)) by {
                    assert(accounts@[j as int].account.id@ == accounts@[i as int].account.id@);
                }
                return Err(owned("accounts.invalid"));
            }
            j = j + 1;
        }
        if !saved_account_valid(&accounts[i]) {
            assert(!saved_account_ok(accounts@[i as int]));
            return Err(owned("accounts.invalid"));
        }
        assert forall|m: int, l: int| 0 <= m < l < i + 1 implies (#[trigger] accounts@.take(i + 1)[m]).account.id@
            != (#[trigger] accounts@.take(i + 1)[l]).account.id@ by {
            if l < i {
                assert(accounts@.take(i as int)[m] == accounts@.take(i + 1)[m]);
                assert(accounts@.take(i as int)[l] == accounts@.take(i + 1)[l]);
            }
        }
        assert forall|m: int| 0 <= m < i + 1 implies saved_account_ok(#[trigger] accounts@.take(i + 1)[m]) by {
            if m < i {
                assert(accounts@.take(i as int)[m] == accounts@.take(i + 1)[m]);
            }
        }
        i = i + 1;
    }
    assert(accounts@.take(i as int) =~= accounts@);
    Ok(())
}

/// No two players share an id.
pub open spec fn player_ids_distinct(ps: Seq<PlayerProfile>) -> bool {
    forall|i: int, j: int| 0 <= i < j < ps.len() ==> (#[trigger] ps[i]).id@ != (#[trigger] ps[j]).id@
}

/// Whether no two players share an id.
pub fn distinct_player_ids(ps: &Vec<PlayerProfile>) -> (r: bool)
    ensures
        r == player_ids_distinct(ps@),
{
    let mut i: usize = 0;
    while i < ps.len()
        invariant
            i <= ps@.len(),
            forall|m: int, l: int| 0 <= m < l < i ==> (#[trigger] ps@[m]).id@ != (#[trigger] ps@[l]).id@,
        decreases ps.len() - i,
    {
        let mut j: usize = 0;
        while j < i
            invariant
                j <= i < ps@.len(),
                forall|m: int| 0 <= m < j ==> ps@[m].id@ != ps@[i as int].id@,
            decreases i - j,
        {
            if ps[j].id == ps[i].id {
                assert((ps@[j as int]).id@ == (ps@[i as int]).id@);
                return false;
            }
            j = j + 1;
        }
        i = i + 1;
    }
    true
}

/// Importing saved accounts keeps every current one, in place.
pub proof fn lemma_accounts_keep_current(current: Seq<SavedAccount>, imported: Seq<SavedAccount>)
    ensures
        merged_accounts(current, imported).len() >= current.len(),
        merged_accounts(current, imported).subrange(0, current.len() as int) == current,
    decreases imported.len(),
{
    if imported.len() > 0 {
        lemma_accounts_keep_current(current, imported.drop_last());
        let m = merged_accounts(current, imported.drop_last());
        assert(m.push(imported.last()).subrange(0, current.len() as int) =~= m.subrange(0, current.len() as int));
    } else {
        assert(current.subrange(0, current.len() as int) =~= current);
    }
}

/// After an import, every imported account's id is listed.
pub proof fn lemma_accounts_include_imported(current: Seq<SavedAccount>, imported: Seq<SavedAccount>)
    ensures
        forall|k: int| 0 <= k < imported.len() ==> has_account(merged_accounts(current, imported), #[trigger] imported[k].account.id@),
    decreases imported.len(),
{
    if imported.len() > 0 {
        let rest = imported.drop_last();
        lemma_accounts_include_imported(current, rest);
        let m = merged_accounts(current, rest);
        assert forall|k: int| 0 <= k < imported.len() implies has_account(merged_accounts(current, imported), #[trigger] imported[k].account.id@) by {
            if k < imported.len() - 1 {
                assert(rest[k] == imported[k]);
                assert(has_account(m, rest[k].account.id@));
                let j = choose|j: int| 0 <= j < m.len() && (#[trigger] m[j]).account.id@ == rest[k].account.id@;
                if !has_account(m, imported.last().account.id@) {
                    assert(m.push(imported.last())[j] == m[j]);
                }
            } else if !has_account(m, imported.last().account.id@) {
                assert(m.push(imported.last())[m.len() as int] == imported.last());
            }
        }
    }
}

/// Saved accounts that list every imported id take nothing from the import.
pub proof fn lemma_accounts_nothing_new(current: Seq<SavedAccount>, imported: Seq<SavedAccount>)
    requires
        forall|k: int| 0 <= k < imported.len() ==> has_account(current, #[trigger] imported[k].account.id@),
    ensures
        merged_accounts(current, imported) == current,
    decreases imported.len(),
{
    if imported.len() > 0 {
        let rest = imported.drop_last();
        assert forall|k: int| 0 <= k < rest.len() implies has_account(current, #[trigger] rest[k].account.id@) by {
            assert(rest[k] == imported[k]);
        }
        lemma_accounts_nothing_new(current, rest);
        assert(has_account(current, imported[imported.len() - 1].account.id@));
    }
}

/// Importing the same saved accounts twice gives what importing them once gives.
pub proof fn lemma_accounts_import_twice(current: Seq<SavedAccount>, imported: Seq<SavedAccount>)
    ensures
        merged_accounts(merged_accounts(current, imported), imported) == merged_accounts(current, imported),
{
    lemma_accounts_include_imported(current, imported);
    lemma_accounts_nothing_new(merged_accounts(current, imported), imported);
}

/// Importing reviewed games keeps every current one, in place.
pub proof fn lemma_reviewed_keep_current(current: Seq<String>, imported: Seq<String>)
    ensures
        merged_reviewed(current, imported).len() >= current.len(),
        merged_reviewed(current, imported).subrange(0, current.len() as int) == current,
    decreases imported.len(),
{
    if imported.len() > 0 {
        lemma_reviewed_keep_current(current, imported.drop_last());
        let m = merged_reviewed(current, imported.drop_last());
        assert(m.push(imported.last()).subrange(0, current.len() as int) =~= m.subrange(0, current.len() as int));
    } else {
        assert(current.subrange(0, current.len() as int) =~= current);
    }
}

proof fn lemma_reviewed_include_imported(current: Seq<String>, imported: Seq<String>)
    ensures
        forall|k: int| 0 <= k < imported.len() ==> has_text(merged_reviewed(current, imported), #[trigger] imported[k]@),
    decreases imported.len(),
{
    if imported.len() > 0 {
        let rest = imported.drop_last();
        lemma_reviewed_include_imported(current, rest);
        let m = merged_reviewed(current, rest);
        assert forall|k: int| 0 <= k < imported.len() implies has_text(merged_reviewed(current, imported), #[trigger] imported[k]@) by {
            if k < imported.len() - 1 {
                assert(rest[k] == imported[k]);
                assert(has_text(m, rest[k]@));
                let j = choose|j: int| 0 <= j < m.len() && (#[trigger] m[j])@ == rest[k]@;
                if !has_text(m, imported.last()@) {
                    assert(m.push(imported.last())[j] == m[j]);
                }
            } else if !has_text(m, imported.last()@) {
                assert(m.push(imported.last())[m.len() as int] == imported.last());
            }
        }
    }
}

proof fn lemma_reviewed_nothing_new(current: Seq<String>, imported: Seq<String>)
    requires
        forall|k: int| 0 <= k < imported.len() ==> has_text(current, #[trigger] imported[k]@),
    ensures
        merged_reviewed(current, imported) == current,
    decreases imported.len(),
{
    if imported.len() > 0 {
        let rest = imported.drop_last();
        assert forall|k: int| 0 <= k < rest.len() implies has_text(current, #[trigger] rest[k]@) by {
            assert(rest[k] == imported[k]);
        }
        lemma_reviewed_nothing_new(current, rest);
        assert(has_text(current, imported[imported.len() - 1]@));
    }
}

/// Importing the same reviewed games twice gives what importing them once gives.
pub proof fn lemma_reviewed_import_twice(current: Seq<String>, imported: Seq<String>)
    ensures
        merged_reviewed(merged_reviewed(current, imported), imported) == merged_reviewed(current, imported),
{
    lemma_reviewed_include_imported(current, imported);
    lemma_reviewed_nothing_new(merged_reviewed(current, imported), imported);
}

proof fn lemma_premades_include_imported(current: Seq<PremadeMark>, imported: Seq<PremadeMark>)
    ensures
        forall|k: int| 0 <= k < imported.len() ==> has_mark(merged_premades(current, imported), #[trigger] imported[k]),
    decreases imported.len(),
{
    if imported.len() > 0 {
        let rest = imported.drop_last();
        lemma_premades_include_imported(current, rest);
        let m = merged_premades(current, rest);
        assert forall|k: int| 0 <= k < imported.len() implies has_mark(merged_premades(current, imported), #[trigger] imported[k]) by {
            if k < imported.len() - 1 {
                assert(rest[k] == imported[k]);
                assert(has_mark(m, rest[k]));
                let j = choose|j: int|
                    0 <= j < m.len() && (#[trigger] m[j]).match_id@ == rest[k].match_id@ && m[j].account_id@
                        == rest[k].account_id@;
                if !has_mark(m, imported.last()) {
                    assert(m.push(imported.last())[j] == m[j]);
                }
            } else if !has_mark(m, imported.last()) {
                assert(m.push(imported.last())[m.len() as int] == imported.last());
            }
        }
    }
}

proof fn lemma_premades_nothing_new(current: Seq<PremadeMark>, imported: Seq<PremadeMark>)
    requires
        forall|k: int| 0 <= k < imported.len() ==> has_mark(current, #[trigger] imported[k]),
    ensures
        merged_premades(current, imported) == current,
    decreases imported.len(),
{
    if imported.len() > 0 {
        let rest = imported.drop_last();
        assert forall|k: int| 0 <= k < rest.len() implies has_mark(current, #[trigger] rest[k]) by {
            assert(rest[k] == imported[k]);
        }
        lemma_premades_nothing_new(current, rest);
        assert(has_mark(current, imported[imported.len() - 1]));
    }
}

/// Importing the same premade marks twice gives what importing them once gives.
pub proof fn lemma_premades_import_twice(current: Seq<PremadeMark>, imported: Seq<PremadeMark>)
    ensures
        merged_premades(merged_premades(current, imported), imported) == merged_premades(current, imported),
{
    lemma_premades_include_imported(current, imported);
    lemma_premades_nothing_new(merged_premades(current, imported), imported);
}

/// Importing premade marks keeps every current one, in place.
pub proof fn lemma_premades_keep_current(current: Seq<PremadeMark>, imported: Seq<PremadeMark>)
    ensures
        merged_premades(current, imported).len() >= current.len(),
        merged_premades(current, imported).subrange(0, current.len() as int) == current,
    decreases imported.len(),
{
    if imported.len() > 0 {
        lemma_premades_keep_current(current, imported.drop_last());
        let m = merged_premades(current, imported.drop_last());
        assert(m.push(imported.last()).subrange(0, current.len() as int) =~= m.subrange(0, current.len() as int));
    } else {
        assert(current.subrange(0, current.len() as int) =~= current);
    }
}

/// Importing players keeps every current one, in place and unchanged.
pub proof fn lemma_players_keep_current(
    current: Seq<(Seq<char>, Seq<char>, Seq<Seq<char>>)>,
    imported: Seq<(Seq<char>, Seq<char>, Seq<Seq<char>>)>,
)
    ensures
        merged_players(current, imported).len() >= current.len(),
        merged_players(current, imported).subrange(0, current.len() as int) == current,
    decreases imported.len(),
{
    if imported.len() > 0 {
        lemma_players_keep_current(current, imported.drop_last());
        let m = merged_players(current, imported.drop_last());
        let p = imported.last();
        assert(m.push((p.0, p.1, unclaimed(p.2, m))).subrange(0, current.len() as int) =~= m.subrange(
            0,
            current.len() as int,
        ));
    } else {
        assert(current.subrange(0, current.len() as int) =~= current);
    }
}

proof fn lemma_players_include_imported(
    current: Seq<(Seq<char>, Seq<char>, Seq<Seq<char>>)>,
    imported: Seq<(Seq<char>, Seq<char>, Seq<Seq<char>>)>,
)
    ensures
        forall|k: int| 0 <= k < imported.len() ==> has_player(merged_players(current, imported), #[trigger] imported[k].0),
    decreases imported.len(),
{
    if imported.len() > 0 {
        let rest = imported.drop_last();
        lemma_players_include_imported(current, rest);
        let m = merged_players(current, rest);
        let p = imported.last();
        assert forall|k: int| 0 <= k < imported.len() implies has_player(merged_players(current, imported), #[trigger] imported[k].0) by {
            if k < imported.len() - 1 {
                assert(rest[k] == imported[k]);
                assert(has_player(m, rest[k].0));
                let j = choose|j: int| 0 <= j < m.len() && (#[trigger] m[j]).0 == rest[k].0;
                if !has_player(m, p.0) {
                    assert(m.push((p.0, p.1, unclaimed(p.2, m)))[j] == m[j]);
                }
            } else if !has_player(m, p.0) {
                assert(m.push((p.0, p.1, unclaimed(p.2, m)))[m.len() as int].0 == p.0);
            }
        }
    }
}

proof fn lemma_players_nothing_new(
    current: Seq<(Seq<char>, Seq<char>, Seq<Seq<char>>)>,
    imported: Seq<(Seq<char>, Seq<char>, Seq<Seq<char>>)>,
)
    requires
        forall|k: int| 0 <= k < imported.len() ==> has_player(current, #[trigger] imported[k].0),
    ensures
        merged_players(current, imported) == current,
    decreases imported.len(),
{
    if imported.len() > 0 {
        let rest = imported.drop_last();
        assert forall|k: int| 0 <= k < rest.len() implies has_player(current, #[trigger] rest[k].0) by {
            assert(rest[k] == imported[k]);
        }
        lemma_players_nothing_new(current, rest);
        assert(has_player(current, imported[imported.len() - 1].0));
    }
}

/// Importing the same players twice gives what importing them once gives.
pub proof fn lemma_players_import_twice(
    current: Seq<(Seq<char>, Seq<char>, Seq<Seq<char>>)>,
    imported: Seq<(Seq<char>, Seq<char>, Seq<Seq<char>>)>,
)
    ensures
        merged_players(merged_players(current, imported), imported) == merged_players(current, imported),
{
    lemma_players_include_imported(current, imported);
    lemma_players_nothing_new(merged_players(current, imported), imported);
}

/// The accounts that an imported player keeps are accounts it had that no listed player
/// claims: an import never moves an account from one player to another.
pub proof fn lemma_unclaimed(ids: Seq<Seq<char>>, ps: Seq<(Seq<char>, Seq<char>, Seq<Seq<char>>)>)
    ensures
        forall|j: int| 0 <= j < unclaimed(ids, ps).len() ==> ids.contains(#[trigger] unclaimed(ids, ps)[j])
            && !claimed(ps, unclaimed(ids, ps)[j]),
    decreases ids.len(),
{
    if ids.len() > 0 {
        let rest = ids.drop_last();
        lemma_unclaimed(rest, ps);
        let u = unclaimed(rest, ps);
        assert forall|j: int| 0 <= j < unclaimed(ids, ps).len() implies ids.contains(#[trigger] unclaimed(ids, ps)[j])
            && !claimed(ps, unclaimed(ids, ps)[j]) by {
            if j < u.len() {
                assert(unclaimed(ids, ps)[j] == u[j]);
                let k = choose|k: int| 0 <= k < rest.len() && rest[k] == u[j];
                assert(ids[k] == rest[k]);
            } else {
                assert(unclaimed(ids, ps)[j] == ids.last());
                assert(ids[ids.len() - 1] == ids.last());
            }
        }
    }
}

/// The interface theme is dark, light or follows the system, when one is saved.
pub fn check_theme(theme: Option<&str>) -> (r: Result<(), String>)
    ensures
        r is Ok <==> match theme {
            Some(t) => t@ == "dark"@ || t@ == "light"@ || t@ == "system"@,
            None => true,
        },
        r matches Err(e) ==> e@ == "ui.invalidTheme"@,
{
    match theme {
        Some(t) => if str_eq(t, "dark") || str_eq(t, "light") || str_eq(t, "system") {
            Ok(())
        } else {
            Err(owned("ui.invalidTheme"))
        },
        None => Ok(()),
    }
}

/// Every player has a valid name.
pub fn check_player_names(players: &Vec<PlayerProfile>) -> (r: Result<(), String>)
    ensures
        r is Ok <==> forall|i: int| 0 <= i < players@.len() ==> valid_name((#[trigger] players@[i]).name@),
        r matches Err(e) ==> e@ == "ui.invalidPlayerName"@,
{
    let mut i: usize = 0;
    while i < players.len()
        invariant
            i <= players@.len(),
            forall|j: int| 0 <= j < i ==> valid_name((#[trigger] players@[j]).name@),
        decreases players.len() - i,
    {
        if !name_ok(players[i].name.as_str()) {
            return Err(owned("ui.invalidPlayerName"));
        }
        i = i + 1;
    }
    Ok(())
}

/// The account ids of the players, player by player.
pub open spec fn linked_accounts(players: Seq<PlayerProfile>) -> Seq<Seq<char>>
    decreases players.len(),
{
    if players.len() == 0 {
        Seq::empty()
    } else {
        linked_accounts(players.drop_last()) + players.last()@.2
    }
}

/// No account is linked twice, to one player or to two.
pub open spec fn accounts_linked_once(players: Seq<PlayerProfile>) -> bool {
    let all = linked_accounts(players);
    forall|i: int, j: int| 0 <= i < j < all.len() ==> all[i] != all[j]
}

/// Refuses players that link one account twice.
#[verifier::loop_isolation(false)]
pub fn check_linked_accounts(players: &Vec<PlayerProfile>) -> (r: Result<(), String>)
    ensures
        r is Ok <==> accounts_linked_once(players@),
        r matches Err(e) ==> e@ == "identity.alreadyLinked"@,
{
    let mut seen: Vec<&str> = Vec::new();
    let mut i: usize = 0;
    proof {
        assert(players@.take(0) =~= Seq::<PlayerProfile>::empty());
    }
    while i < players.len()
        invariant
            i <= players@.len(),
            seen@.map_values(|a: &str| a@) == linked_accounts(players@.take(i as int)),
            forall|a: int, b: int| 0 <= a < b < seen@.len() ==> seen@[a]@ != seen@[b]@,
        decreases players.len() - i,
    {
        proof {
            assert(players@.take(i + 1).drop_last() =~= players@.take(i as int));
            assert(players@.take(i + 1).last() == players@[i as int]);
        }
        let ids = &players[i].account_ids;
        let ghost before = seen@.map_values(|a: &str| a@);
        let mut k: usize = 0;
        while k < ids.len()
            invariant
                i < players@.len(),
                ids@ == players@[i as int].account_ids@,
                k <= ids@.len(),
                seen@.map_values(|a: &str| a@) == before + players@[i as int]@.2.take(k as int),
                forall|a: int, b: int| 0 <= a < b < seen@.len() ==> seen@[a]@ != seen@[b]@,
            decreases ids.len() - k,
        {
            let id = ids[k].as_str();
            let mut m: usize = 0;
            while m < seen.len()
                invariant
                    m <= seen@.len(),
                    forall|a: int| 0 <= a < m ==> seen@[a]@ != id@,
                decreases seen.len() - m,
            {
                if str_eq(seen[m], id) {
                    proof {
                        let all = linked_accounts(players@);
                        let prefix = linked_accounts(players@.take(i as int));
                        let own = players@[i as int]@.2;
                        let here = seen@.map_values(|a: &str| a@);
                        lemma_linked_prefix(players@, i as int);
                        assert(here.len() == prefix.len() + k);
                        assert(here[m as int] == (prefix + own.take(k as int))[m as int]);
                        assert((prefix + own.take(k as int))[m as int] == (prefix + own)[m as int]);
                        assert(all[m as int] == (prefix + own)[m as int]);
                        assert(all[here.len() as int] == (prefix + own)[here.len() as int]);
                        assert((prefix + own)[here.len() as int] == own[k as int]);
                        assert(own[k as int] == ids@[k as int]@);
                        assert(all[m as int] == all[here.len() as int]);
                    }
                    return Err(owned("identity.alreadyLinked"));
                }
                m = m + 1;
            }
            let ghost old_seen = seen@;
            seen.push(id);
            proof {
                assert(seen@.map_values(|a: &str| a@) =~= old_seen.map_values(|a: &str| a@).push(id@));
                assert(players@[i as int]@.2.take(k + 1) =~= players@[i as int]@.2.take(k as int).push(id@));
            }
            k = k + 1;
        }
        proof {
            assert(players@[i as int]@.2.take(ids@.len() as int) =~= players@[i as int]@.2);
        }
        i = i + 1;
    }
    proof {
        assert(players@.take(players@.len() as int) =~= players@);
    }
    Ok(())
}

/// The account ids of the first players come first among all account ids.
proof fn lemma_linked_prefix(players: Seq<PlayerProfile>, i: int)
    requires
        0 <= i < players.len(),
    ensures
        linked_accounts(players).len() >= linked_accounts(players.take(i)).len() + players[i]@.2.len(),
        forall|k: int|
            0 <= k < linked_accounts(players.take(i)).len() + players[i]@.2.len() ==> #[trigger] linked_accounts(
                players,
            )[k] == (linked_accounts(players.take(i)) + players[i]@.2)[k],
    decreases players.len(),
{
    if i == players.len() - 1 {
        assert(players.drop_last() =~= players.take(i));
    } else {
        assert(players.drop_last().take(i) =~= players.take(i));
        assert(players.drop_last()[i] == players[i]);
        lemma_linked_prefix(players.drop_last(), i);
    }
}

/// A note says something: its body is not blank.
pub fn note_body_ok(body: &str) -> (r: bool)
    ensures
        r == (trim(body@).len() > 0),
{
    trim_chars(chars_of(body).as_slice()).len() > 0
}

/// The saved user state is at most two MiB of JSON.
pub fn check_ui_size(len: usize) -> (r: Result<(), String>)
    ensures
        r is Ok <==> len <= 2097152,
        r matches Err(e) ==> e@ == "ui.tooLarge"@,
{
    if len > 2097152 {
        Err(owned("ui.tooLarge"))
    } else {
        Ok(())
    }
}

/// An identity link as far as it names things: its id, its player, its account, the match it
/// is limited to, and whether it states a time range (whose bounds are checked apart).
#[derive(Debug)]
pub struct LinkTarget {
    pub id: String,
    pub player_id: String,
    pub account_id: String,
    pub match_id: Option<String>,
    pub timed: bool,
}

/// A link names a new id, a listed player and an account id `PLATFORM:PUUID` of at most 512
/// bytes; a link limited to a match names a `PLATFORM_NUMBER` match and no time range.
pub open spec fn link_target_ok(links: Seq<LinkTarget>, players: Seq<PlayerProfile>, i: int) -> bool {
    let l = links[i];
    &&& forall|j: int| 0 <= j < i ==> (#[trigger] links[j]).id@ != l.id@
    &&& exists|k: int| 0 <= k < players.len() && (#[trigger] players[k]).id@ == l.player_id@
    &&& vstd::utf8::encode_utf8(l.account_id@).len() <= 512
    &&& l.account_id@.contains(':')
    &&& match l.match_id {
        Some(g) => !l.timed && g@.contains('_'),
        None => true,
    }
}

/// Checks what identity links name, in order; `identity.invalidLink` at the first that names
/// something wrong.
pub fn check_link_targets(players: &Vec<PlayerProfile>, links: &Vec<LinkTarget>) -> (r: Result<(), String>)
    ensures
        r is Ok <==> forall|i: int| 0 <= i < links@.len() ==> #[trigger] link_target_ok(links@, players@, i),
        r matches Err(e) ==> e@ == "identity.invalidLink"@,
{
    let mut i: usize = 0;
    while i < links.len()
        invariant
            i <= links@.len(),
            forall|m: int| 0 <= m < i ==> #[trigger] link_target_ok(links@, players@, m),
        decreases links.len() - i,
    {
        let l = &links[i];
        let mut j: usize = 0;
        while j < i
            invariant
                i < links@.len(),
                j <= i,
                l == links@[i as int],
                forall|m: int| 0 <= m < j ==> (#[trigger] links@[m]).id@ != l.id@,
            decreases i - j,
        {
            if str_eq(links[j].id.as_str(), l.id.as_str()) {
                assert(!link_target_ok(links@, players@, i as int));
                return Err(owned("identity.invalidLink"));
            }
            j = j + 1;
        }
        let mut k: usize = 0;
        let mut known = false;
        while k < players.len()
            invariant
                k <= players@.len(),
                known <==> exists|q: int| 0 <= q < k && (#[trigger] players@[q]).id@ == l.player_id@,
            decreases players.len() - k,
        {
            if str_eq(players[k].id.as_str(), l.player_id.as_str()) {
                known = true;
            }
            k = k + 1;
        }
        if !known {
            assert(!link_target_ok(links@, players@, i as int));
            return Err(owned("identity.invalidLink"));
        }
        let account = chars_of(l.account_id.as_str());
        if utf8_len(account.as_slice()) > 512 {
            assert(!link_target_ok(links@, players@, i as int));
            return Err(owned("identity.invalidLink"));
        }
        match find_char(account.as_slice(), ':') {
            Some(p) => {
                assert(l.account_id@[p as int] == ':');
            },
            None => {
                assert(!l.account_id@.contains(':'));
                assert(!link_target_ok(links@, players@, i as int));
                return Err(owned("identity.invalidLink"));
            },
        }
        match &l.match_id {
            Some(g) => {
                if l.timed {
                    assert(!link_target_ok(links@, players@, i as int));
                    return Err(owned("identity.invalidLink"));
                }
                match find_char(chars_of(g.as_str()).as_slice(), '_') {
                    Some(p) => {
                        assert(g@[p as int] == '_');
                    },
                    None => {
                        assert(!g@.contains('_'));
                        assert(!link_target_ok(links@, players@, i as int));
                        return Err(owned("identity.invalidLink"));
                    },
                }
            },
            None => {},
        }
        assert(link_target_ok(links@, players@, i as int));
        i = i + 1;
    }
    Ok(())
}

/// Two links limited to the same match link the same account twice there.
pub open spec fn match_overlap(links: Seq<LinkTarget>, i: int, j: int) -> bool {
    &&& links[i].account_id@ == links[j].account_id@
    &&& links[i].match_id matches Some(a) && links[j].match_id matches Some(b) && a@ == b@
}

/// Refuses two links of one account to the same match: `identity.overlap`.
pub fn check_match_overlaps(links: &Vec<LinkTarget>) -> (r: Result<(), String>)
    ensures
        r is Ok <==> forall|i: int, j: int| 0 <= i < j < links@.len() ==> !#[trigger] match_overlap(links@, i, j),
        r matches Err(e) ==> e@ == "identity.overlap"@,
{
    let mut i: usize = 0;
    while i < links.len()
        invariant
            i <= links@.len(),
            forall|a: int, b: int| 0 <= a < i && a < b < links@.len() ==> !#[trigger] match_overlap(links@, a, b),
        decreases links.len() - i,
    {
        let mut j: usize = i + 1;
        while j < links.len()
            invariant
                i < links@.len(),
                i + 1 <= j <= links@.len(),
                forall|a: int, b: int| 0 <= a < i && a < b < links@.len() ==> !#[trigger] match_overlap(links@, a, b),
                forall|b: int| i < b < j ==> !#[trigger] match_overlap(links@, i as int, b),
            decreases links.len() - j,
        {
            let same_match = match (&links[i].match_id, &links[j].match_id) {
                (Some(a), Some(b)) => str_eq(a.as_str(), b.as_str()),
                _ => false,
            };
            if same_match && str_eq(links[i].account_id.as_str(), links[j].account_id.as_str()) {
                assert(match_overlap(links@, i as int, j as int));
                return Err(owned("identity.overlap"));
            }
            j = j + 1;
        }
        i = i + 1;
    }
    Ok(())
}

/// A note of the settings as a merge compares it: its id, the match it is on, its text, its
/// time, the participant it is about and its tags. `at` is the time in a form that is equal
/// exactly when two times are equal (the caller turns the floating-point seconds into it).
#[derive(Debug)]
pub struct NoteKey {
    pub id: String,
    pub match_id: String,
    pub body: String,
    pub at: Option<u64>,
    pub participant_id: Option<u32>,
    pub tags: Vec<String>,
}

/// What two notes must share to be the same note: everything but the id.
pub open spec fn note_content(n: NoteKey) -> (Seq<char>, Seq<char>, Option<u64>, Option<u32>, Seq<Seq<char>>) {
    (n.match_id@, n.body@, n.at, n.participant_id, n.tags@.map_values(|t: String| t@))
}

/// Some note of `notes` has this content.
pub open spec fn has_content(
    notes: Seq<(Seq<char>, (Seq<char>, Seq<char>, Option<u64>, Option<u32>, Seq<Seq<char>>))>,
    c: (Seq<char>, Seq<char>, Option<u64>, Option<u32>, Seq<Seq<char>>),
) -> bool {
    exists|k: int| 0 <= k < notes.len() && (#[trigger] notes[k]).1 == c
}

/// Some note of `notes` has this id.
pub open spec fn has_note_id(
    notes: Seq<(Seq<char>, (Seq<char>, Seq<char>, Option<u64>, Option<u32>, Seq<Seq<char>>))>,
    id: Seq<char>,
) -> bool {
    exists|k: int| 0 <= k < notes.len() && (#[trigger] notes[k]).0 == id
}

/// What becomes of one imported note: nothing when the same note is there already; else it is
/// added, under a fresh id when its own is taken.
pub open spec fn note_step(
    notes: Seq<(Seq<char>, (Seq<char>, Seq<char>, Option<u64>, Option<u32>, Seq<Seq<char>>))>,
    n: NoteKey,
    fresh: Seq<char>,
) -> Option<Seq<char>> {
    if has_content(notes, note_content(n)) {
        None
    } else if has_note_id(notes, n.id@) {
        Some(fresh)
    } else {
        Some(n.id@)
    }
}

/// The notes, by id and content, once the first imported notes are merged in order; the
/// `i`-th imported note takes `fresh[i]` when it needs a new id.
pub open spec fn merged_notes(current: Seq<NoteKey>, imported: Seq<NoteKey>, fresh: Seq<String>) -> Seq<
    (Seq<char>, (Seq<char>, Seq<char>, Option<u64>, Option<u32>, Seq<Seq<char>>)),
>
    decreases imported.len(),
{
    if imported.len() == 0 {
        current.map_values(|n: NoteKey| (n.id@, note_content(n)))
    } else {
        let prev = merged_notes(current, imported.drop_last(), fresh);
        match note_step(prev, imported.last(), fresh[imported.len() - 1]@) {
            Some(id) => prev.push((id, note_content(imported.last()))),
            None => prev,
        }
    }
}

/// For each imported note, in order, the id it is added under, or `None` when it is dropped.
pub open spec fn note_plan(current: Seq<NoteKey>, imported: Seq<NoteKey>, fresh: Seq<String>) -> Seq<Option<Seq<char>>>
    decreases imported.len(),
{
    if imported.len() == 0 {
        Seq::empty()
    } else {
        let prev = merged_notes(current, imported.drop_last(), fresh);
        note_plan(current, imported.drop_last(), fresh).push(
            note_step(prev, imported.last(), fresh[imported.len() - 1]@),
        )
    }
}

fn same_tags(a: &Vec<String>, b: &Vec<String>) -> (r: bool)
    ensures
        r == (a@.map_values(|t: String| t@) == b@.map_values(|t: String| t@)),
{
    if a.len() != b.len() {
        proof {
            assert(a@.map_values(|t: String| t@).len() != b@.map_values(|t: String| t@).len());
        }
        return false;
    }
    let mut k: usize = 0;
    while k < a.len()
        invariant
            a@.len() == b@.len(),
            k <= a@.len(),
            forall|m: int| 0 <= m < k ==> a@[m]@ == b@[m]@,
        decreases a.len() - k,
    {
        if !str_eq(a[k].as_str(), b[k].as_str()) {
            proof {
                assert(a@.map_values(|t: String| t@)[k as int] != b@.map_values(|t: String| t@)[k as int]);
            }
            return false;
        }
        k = k + 1;
    }
    assert(a@.map_values(|t: String| t@) =~= b@.map_values(|t: String| t@));
    true
}

fn same_content(a: &NoteKey, b: &NoteKey) -> (r: bool)
    ensures
        r == (note_content(*a) == note_content(*b)),
{
    let at_same = match (a.at, b.at) {
        (Some(x), Some(y)) => x == y,
        (None, None) => true,
        _ => false,
    };
    let pid_same = match (a.participant_id, b.participant_id) {
        (Some(x), Some(y)) => x == y,
        (None, None) => true,
        _ => false,
    };
    str_eq(a.match_id.as_str(), b.match_id.as_str()) && str_eq(a.body.as_str(), b.body.as_str()) && at_same
        && pid_same && same_tags(&a.tags, &b.tags)
}

/// An entry of the running list of merged notes: its id, and where its content is (an
/// imported note when the flag is set, else a current one) by position.
pub open spec fn seen_view(e: (String, bool, usize), current: Seq<NoteKey>, imported: Seq<NoteKey>) -> (
    Seq<char>,
    (Seq<char>, Seq<char>, Option<u64>, Option<u32>, Seq<Seq<char>>),
) {
    (e.0@, if e.1 {
        note_content(imported[e.2 as int])
    } else {
        note_content(current[e.2 as int])
    })
}

/// How the imported notes join the current ones; see `note_plan`. `fresh` holds one unused id
/// for each imported note.
pub fn plan_note_merge(current: &Vec<NoteKey>, imported: &Vec<NoteKey>, fresh: &Vec<String>) -> (r: Vec<Option<String>>)
    requires
        fresh@.len() >= imported@.len(),
    ensures
        r@.map_values(|o: Option<String>| match o {
            Some(s) => Some(s@),
            None => None::<Seq<char>>,
        }) == note_plan(current@, imported@, fresh@),
{
    let mut seen: Vec<(String, bool, usize)> = Vec::new();
    let mut k: usize = 0;
    while k < current.len()
        invariant
            k <= current@.len(),
            seen@.len() == k,
            forall|m: int| 0 <= m < k ==> (#[trigger] seen@[m]).1 == false && seen@[m].2 == m && seen@[m].0@ == current@[m].id@,
        decreases current.len() - k,
    {
        seen.push((owned(current[k].id.as_str()), false, k));
        k = k + 1;
    }
    assert(seen@.map_values(|e: (String, bool, usize)| seen_view(e, current@, imported@)) =~= merged_notes(
        current@,
        imported@.take(0),
        fresh@,
    ));
    let mut plan: Vec<Option<String>> = Vec::new();
    let mut i: usize = 0;
    assert(plan@.map_values(|o: Option<String>| match o {
        Some(s) => Some(s@),
        None => None::<Seq<char>>,
    }) =~= note_plan(current@, imported@.take(0), fresh@));
    while i < imported.len()
        invariant
            i <= imported@.len(),
            fresh@.len() >= imported@.len(),
            forall|m: int| 0 <= m < seen@.len() ==> if (#[trigger] seen@[m]).1 {
                seen@[m].2 < imported@.len()
            } else {
                seen@[m].2 < current@.len()
            },
            seen@.map_values(|e: (String, bool, usize)| seen_view(e, current@, imported@)) == merged_notes(
                current@,
                imported@.take(i as int),
                fresh@,
            ),
            plan@.map_values(|o: Option<String>| match o {
                Some(s) => Some(s@),
                None => None::<Seq<char>>,
            }) == note_plan(current@, imported@.take(i as int), fresh@),
        decreases imported.len() - i,
    {
        let ghost prev = seen@.map_values(|e: (String, bool, usize)| seen_view(e, current@, imported@));
        let ghost before_plan = plan@.map_values(|o: Option<String>| match o {
            Some(s) => Some(s@),
            None => None::<Seq<char>>,
        });
        proof {
            assert(imported@.take(i + 1).drop_last() =~= imported@.take(i as int));
            assert(imported@.take(i + 1).last() == imported@[i as int]);
        }
        let n = &imported[i];
        let mut dup = false;
        let mut taken = false;
        let mut m: usize = 0;
        while m < seen.len()
            invariant
                m <= seen@.len(),
                i < imported@.len(),
                n == imported@[i as int],
                prev == seen@.map_values(|e: (String, bool, usize)| seen_view(e, current@, imported@)),
                forall|q: int| 0 <= q < seen@.len() ==> if (#[trigger] seen@[q]).1 {
                    seen@[q].2 < imported@.len()
                } else {
                    seen@[q].2 < current@.len()
                },
                dup == exists|q: int| 0 <= q < m && (#[trigger] prev[q]).1 == note_content(*n),
                taken == exists|q: int| 0 <= q < m && (#[trigger] prev[q]).0 == n.id@,
            decreases seen.len() - m,
        {
            let e = &seen[m];
            let same = if e.1 {
                same_content(&imported[e.2], n)
            } else {
                same_content(&current[e.2], n)
            };
            assert(prev[m as int] == seen_view(seen@[m as int], current@, imported@));
            if same {
                dup = true;
            }
            if str_eq(e.0.as_str(), n.id.as_str()) {
                taken = true;
            }
            m = m + 1;
        }
        assert(dup == has_content(prev, note_content(*n)));
        assert(taken == has_note_id(prev, n.id@));
        if dup {
            plan.push(None);
        } else {
            let id = if taken {
                owned(fresh[i].as_str())
            } else {
                owned(n.id.as_str())
            };
            seen.push((owned(id.as_str()), true, i));
            plan.push(Some(id));
            assert(seen@.map_values(|e: (String, bool, usize)| seen_view(e, current@, imported@)) =~= prev.push(
                (if taken { fresh@[i as int]@ } else { n.id@ }, note_content(*n)),
            ));
        }
        assert(plan@.map_values(|o: Option<String>| match o {
            Some(s) => Some(s@),
            None => None::<Seq<char>>,
        }) =~= before_plan.push(note_step(prev, *n, fresh@[i as int]@)));
        i = i + 1;
    }
    assert(imported@.take(imported@.len() as int) =~= imported@);
    plan
}

/// Law: after a merge every imported note is among the notes, so importing any of them again
/// adds nothing.
pub proof fn lemma_notes_import_twice(current: Seq<NoteKey>, imported: Seq<NoteKey>, fresh: Seq<String>, again: Seq<char>)
    requires
        fresh.len() >= imported.len(),
    ensures
        forall|j: int| 0 <= j < imported.len() ==> has_content(merged_notes(current, imported, fresh), note_content(#[trigger] imported[j])),
        forall|j: int| 0 <= j < imported.len() ==> note_step(merged_notes(current, imported, fresh), #[trigger] imported[j], again) is None,
    decreases imported.len(),
{
    if imported.len() > 0 {
        let rest = imported.drop_last();
        lemma_notes_import_twice(current, rest, fresh, again);
        let prev = merged_notes(current, rest, fresh);
        let all = merged_notes(current, imported, fresh);
        let last = imported.last();
        assert forall|j: int| 0 <= j < imported.len() implies has_content(all, note_content(#[trigger] imported[j])) by {
            if j < imported.len() - 1 {
                assert(rest[j] == imported[j]);
                assert(has_content(prev, note_content(rest[j])));
                let k = choose|k: int| 0 <= k < prev.len() && (#[trigger] prev[k]).1 == note_content(rest[j]);
                assert(all[k] == prev[k]);
            } else {
                if !has_content(prev, note_content(last)) {
                    assert(all[prev.len() as int].1 == note_content(last));
                }
            }
        }
    }
}

} // verus!
