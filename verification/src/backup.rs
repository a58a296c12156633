//! The rules that the rows of a backup must keep before it is restored or merged.
use vstd::prelude::*;
use crate::domain::{Account, spec_valid_game_id, valid_game_id_chars};
use crate::json::{Json, field, json_items, json_text, json_u64, field_items, field_text, field_u64};
use crate::matches::{spec_validate_detail, validate_detail};
use crate::regions::spec_platform;
use crate::text::{chars_of, decimal, decimal_text, owned, str_eq};

verus! {

/// An account row: its id is `PLATFORM:PUUID` and its PUUID is not empty.
pub open spec fn backup_account_ok(a: Account) -> bool {
    a.id@ == a.platform@ + ":"@ + a.puuid@ && a.puuid@.len() > 0
}

/// Checks the account rows of a backup.
pub fn check_backup_accounts(accounts: &Vec<Account>) -> (r: Result<(), String>)
    ensures
        r is Ok <==> forall|i: int| 0 <= i < accounts@.len() ==> backup_account_ok(#[trigger] accounts@[i]),
        r matches Err(e) ==> e@ == "backup.invalid"@,
{
    let mut i: usize = 0;
    while i < accounts.len()
        invariant
            i <= accounts@.len(),
            forall|j: int| 0 <= j < i ==> backup_account_ok(#[trigger] accounts@[j]),
        decreases accounts.len() - i,
    {
        let a = &accounts[i];
        let mut id = a.platform.clone();
        id.append(":");
        id.append(a.puuid.as_str());
        if !(id == a.id) || a.puuid.as_str().is_empty() {
            assert(!backup_account_ok(accounts@[i as int]));
            return Err(owned("backup.invalid"));
        }
        i = i + 1;
    }
    Ok(())
}

/// A game row: a canonical game number, an id `PLATFORM_NUMBER`, a stored match document (if
/// any) naming that number and platform, and a stored timeline (if any) listing frames.
pub open spec fn backup_game_ok(
    id: Seq<char>,
    platform: Seq<char>,
    number: Seq<char>,
    detail: Option<Json>,
    timeline: Option<Json>,
) -> bool {
    &&& spec_valid_game_id(number)
    &&& id == platform + "_"@ + number
    &&& detail matches Some(d) ==> (json_u64(field(d, "gameId"@)) matches Some(n) && decimal(n as nat) == number)
        && json_text(field(d, "platformId"@)) == Some(platform)
    &&& timeline matches Some(t) ==> json_items(field(t, "frames"@)) is Some
}

/// Checks one game row of a backup, with its documents as parsed.
pub fn check_backup_game(
    id: &str,
    platform: &str,
    number: &str,
    detail: Option<&Json>,
    timeline: Option<&Json>,
) -> (r: Result<(), String>)
    ensures
        r is Ok <==> backup_game_ok(
            id@,
            platform@,
            number@,
            match detail {
                Some(d) => Some(*d),
                None => None,
            },
            match timeline {
                Some(t) => Some(*t),
                None => None,
            },
        ),
        r matches Err(e) ==> e@ == "backup.invalid"@,
{
    if !valid_game_id_chars(chars_of(number).as_slice()) {
        return Err(owned("backup.invalid"));
    }
    let mut expected = owned(platform);
    expected.append("_");
    expected.append(number);
    if !str_eq(expected.as_str(), id) {
        return Err(owned("backup.invalid"));
    }
    if let Some(d) = detail {
        let same_number = match field_u64(d, "gameId") {
            Some(n) => str_eq(decimal_text(n).as_str(), number),
            None => false,
        };
        let same_platform = match field_text(d, "platformId") {
            Some(p) => str_eq(p, platform),
            None => false,
        };
        if !same_number || !same_platform {
            return Err(owned("backup.invalid"));
        }
    }
    if let Some(t) = timeline {
        if field_items(t, "frames").is_none() {
            return Err(owned("backup.invalid"));
        }
    }
    Ok(())
}

/// Checks a followed player of a backup: its server must have a platform, which must be
/// that of the account, and its label must have at most 80 characters.
pub fn check_backup_subscription(server: &str, account_platform: &str, label: &str) -> (r: Result<(), String>)
    ensures
        match spec_platform(server@) {
            None => r matches Err(e) && e@ == "region.unsupported"@,
            Some(p) => (r is Ok <==> (p == account_platform@ && label@.len() <= 80)) && (r matches Err(e) ==> e@
                == "backup.invalid"@),
        },
{
    let platform = crate::regions::platform(server)?;
    if !str_eq(platform.as_str(), account_platform) || label.unicode_len() > 80 {
        return Err(owned("backup.invalid"));
    }
    Ok(())
}

/// The first account with id `id`.
pub open spec fn account_with_id(accounts: Seq<Account>, id: Seq<char>, i: int) -> bool {
    &&& 0 <= i < accounts.len()
    &&& accounts[i].id@ == id
    &&& forall|j: int| 0 <= j < i ==> (#[trigger] accounts[j]).id@ != id
}

/// A game linked to an account in a backup: when the game has a stored match document, the
/// account must be listed and the document must be that account's finished game.
pub open spec fn backup_link_ok(game: Seq<char>, account_id: Seq<char>, accounts: Seq<Account>, detail: Option<Json>) -> bool {
    match detail {
        None => true,
        Some(d) => exists|i: int|
            account_with_id(accounts, account_id, i) && (#[trigger] spec_validate_detail(
                game,
                accounts[i].platform@,
                accounts[i].puuid@,
                d,
            )) is Ok,
    }
}

/// Checks a game linked to an account in a backup, with the game's match document as parsed.
#[verifier::loop_isolation(false)]
pub fn check_backup_link(game: &str, account_id: &str, accounts: &Vec<Account>, detail: Option<&Json>) -> (r: Result<(), String>)
    ensures
        r is Ok <==> backup_link_ok(
            game@,
            account_id@,
            accounts@,
            match detail {
                Some(d) => Some(*d),
                None => None,
            },
        ),
        r matches Err(e) ==> e@ == "backup.invalid"@,
{
    let d = match detail {
        Some(d) => d,
        None => return Ok(()),
    };
    let mut i: usize = 0;
    while i < accounts.len()
        invariant
            i <= accounts@.len(),
            forall|j: int| 0 <= j < i ==> (#[trigger] accounts@[j]).id@ != account_id@,
        decreases accounts.len() - i,
    {
        if str_eq(accounts[i].id.as_str(), account_id) {
            assert(account_with_id(accounts@, account_id@, i as int));
            assert forall|k: int| account_with_id(accounts@, account_id@, k) implies k == i by {
                if k < i {
                    assert(accounts@[k].id@ != account_id@);
                } else if k > i {
                    assert(accounts@[i as int].id@ != account_id@);
                }
            }
            let checked = validate_detail(game, &accounts[i], d);
            let ghost verdict = spec_validate_detail(game@, accounts@[i as int].platform@, accounts@[i as int].puuid@, *d);
            return match checked {
                Ok(_) => {
                    assert(verdict is Ok);
                    Ok(())
                },
                Err(_) => {
                    assert(verdict is Err);
                    assert(!backup_link_ok(game@, account_id@, accounts@, Some(*d)));
                    Err(owned("backup.invalid"))
                },
            };
        }
        i = i + 1;
    }
    Err(owned("backup.invalid"))
}

/// The revision of a restored archive's settings, as stored: it must be a `u32` that one
/// more save can still advance, else `backup.invalid`.
pub fn check_backup_revision(revision: i64) -> (r: Result<u32, String>)
    ensures
        match r {
            Ok(n) => 0 <= revision < u32::MAX && n == revision,
            Err(e) => !(0 <= revision < u32::MAX) && e@ == "backup.invalid"@,
        },
{
    if revision < 0 || revision >= 4294967295i64 {
        Err(owned("backup.invalid"))
    } else {
        Ok(revision as u32)
    }
}

/// Law: every account the library builds is one a backup keeps: an account read from a
/// player profile or from a stored match document has the id `PLATFORM:PUUID` on the
/// platform it was read for, with a PUUID that is not empty.
pub proof fn lemma_built_accounts_pass_backup(platform: Seq<char>, profile: Json, puuid: Seq<char>, detail: Json)
    ensures
        crate::matches::spec_account_from_profile(platform, profile) matches Some(a) ==> a.0 == a.1 + ":"@ + a.2
            && a.2.len() > 0 && a.1 == platform,
        crate::matches::spec_account_in_game(platform, puuid, detail) matches Ok(a) ==> a.0 == a.1 + ":"@ + a.2
            && a.2.len() > 0 && a.1 == platform,
{
}

} // verus!
