//! The champion and item catalog that the interface shows: which game version it is read
//! for, and how the data dragon documents of each language become catalog entries and names.
use vstd::prelude::*;
use crate::json::{Json, as_items, as_text, field, json_items, json_text, json_u64, member, members};
use crate::text::{chars_of, is_ascii_digit, owned, parse_decimal, spec_parse_decimal};

verus! {

/// A champion of the catalog: its numeric key, its name, the name again as its title, and
/// whether it ships with the application.
#[derive(Debug)]
pub struct Champion {
    pub key: u32,
    pub name: String,
    pub title: String,
    pub bundled: bool,
}

/// An item of the catalog: its name, its total cost, whether it is a finished item, and whether
/// it ships with the application.
#[derive(Debug)]
pub struct Item {
    pub name: String,
    pub gold: u32,
    pub finished: bool,
    pub bundled: bool,
}

/// The catalog of one game version, keyed by the data dragon ids in ascending order.
#[derive(Debug)]
pub struct Catalog {
    pub version: String,
    pub champions: Vec<(String, Champion)>,
    pub items: Vec<(String, Item)>,
}

/// The names of champions and items in one more language.
#[derive(Debug)]
pub struct LocalizedNames {
    pub champions: Vec<(String, String)>,
    pub items: Vec<(String, String)>,
}

/// The catalog, and the names of champions and items in more languages, keyed by language.
#[derive(Debug)]
pub struct ResourceData {
    pub catalog: Catalog,
    pub names: Vec<(String, LocalizedNames)>,
}

impl View for Champion {
    type V = (u32, Seq<char>, Seq<char>, bool);

    open spec fn view(&self) -> Self::V {
        (self.key, self.name@, self.title@, self.bundled)
    }
}

impl View for Item {
    type V = (Seq<char>, u32, bool, bool);

    open spec fn view(&self) -> Self::V {
        (self.name@, self.gold, self.finished, self.bundled)
    }
}

/// How often `c` occurs in `s`.
pub open spec fn occurrences(s: Seq<char>, c: char) -> nat
    decreases s.len(),
{
    if s.len() == 0 {
        0
    } else {
        occurrences(s.drop_last(), c) + if s.last() == c {
            1nat
        } else {
            0nat
        }
    }
}

/// A game version as data dragon lists it: three dot-separated parts of digits, shorter than
/// thirty-two bytes.
pub open spec fn valid_resource_version(v: Seq<char>) -> bool {
    &&& v.len() < 32
    &&& forall|i: int| 0 <= i < v.len() ==> is_ascii_digit(#[trigger] v[i]) || v[i] == '.'
    &&& occurrences(v, '.') == 2
}

/// The newest version of a data dragon version list: its first entry, when that is a valid
/// version.
pub open spec fn spec_latest_version(versions: Json) -> Option<Seq<char>> {
    let first = match json_items(versions) {
        Some(items) => if items.len() > 0 {
            items[0]
        } else {
            Json::Null
        },
        None => Json::Null,
    };
    match json_text(first) {
        Some(v) => if valid_resource_version(v) {
            Some(v)
        } else {
            None
        },
        None => None,
    }
}

/// The version to read the catalog for; `game.invalidData` when the list does not start with
/// a valid version.
#[verifier::loop_isolation(false)]
pub fn latest_version(versions: &Json) -> (r: Result<String, String>)
    ensures
        match r {
            Ok(v) => spec_latest_version(*versions) == Some(v@),
            Err(e) => spec_latest_version(*versions) is None && e@ == "game.invalidData"@,
        },
{
    let first = match as_items(versions) {
        Some(items) => if items.len() > 0 {
            &items[0]
        } else {
            &Json::Null
        },
        None => &Json::Null,
    };
    let text = match as_text(first) {
        Some(t) => t,
        None => return Err(owned("game.invalidData")),
    };
    let v = chars_of(text);
    if v.len() >= 32 {
        return Err(owned("game.invalidData"));
    }
    let mut dots: usize = 0;
    let mut i: usize = 0;
    while i < v.len()
        invariant
            i <= v@.len(),
            v@.len() < 32,
            dots == occurrences(v@.take(i as int), '.'),
            dots <= i,
            forall|j: int| 0 <= j < i ==> is_ascii_digit(#[trigger] v@[j]) || v@[j] == '.',
        decreases v.len() - i,
    {
        assert(v@.take(i + 1).drop_last() =~= v@.take(i as int));
        let c = v[i];
        if c == '.' {
            dots = dots + 1;
        } else if !('0' <= c && c <= '9') {
            assert(!(is_ascii_digit(v@[i as int]) || v@[i as int] == '.'));
            return Err(owned("game.invalidData"));
        }
        i = i + 1;
    }
    assert(v@.take(v@.len() as int) =~= v@);
    if dots != 2 {
        return Err(owned("game.invalidData"));
    }
    Ok(owned(text))
}

/// The members of an object.
fn as_members(v: &Json) -> (r: Option<&Vec<(String, Json)>>)
    ensures
        match r {
            Some(m) => *v == Json::Object(*m),
            None => !(v is Object),
        },
{
    match v {
        Json::Object(m) => Some(m),
        _ => None,
    }
}

/// The `data` objects of a language's champion and item documents; `game.invalidData` when
/// either is missing or empty.
pub fn language_data<'a>(champions: &'a Json, items: &'a Json) -> (r: Result<
    (&'a Vec<(String, Json)>, &'a Vec<(String, Json)>),
    String,
>)
    ensures
        match r {
            Ok((c, i)) => field(*champions, "data"@) == Json::Object(*c) && field(*items, "data"@) == Json::Object(*i)
                && c@.len() > 0 && i@.len() > 0,
            Err(e) => e@ == "game.invalidData"@ && !(field(*champions, "data"@) matches Json::Object(c) && field(
                *items,
                "data"@,
            ) matches Json::Object(i) && c@.len() > 0 && i@.len() > 0),
        },
{
    let c = match member(champions, "data") {
        Some(d) => d,
        None => &Json::Null,
    };
    let i = match member(items, "data") {
        Some(d) => d,
        None => &Json::Null,
    };
    let c = match as_members(c) {
        Some(m) => m,
        None => return Err(owned("game.invalidData")),
    };
    let i = match as_members(i) {
        Some(m) => m,
        None => return Err(owned("game.invalidData")),
    };
    if c.len() == 0 || i.len() == 0 {
        return Err(owned("game.invalidData"));
    }
    Ok((c, i))
}

/// A champion entry of the first language: its `key` text as a number and its `name`, which
/// is also its title.
pub open spec fn spec_champion(v: Json) -> Option<(u32, Seq<char>, Seq<char>, bool)> {
    match (json_text(field(v, "key"@)), json_text(field(v, "name"@))) {
        (Some(k), Some(n)) => match spec_parse_decimal(k, u32::MAX as u64) {
            Some(key) => Some((key as u32, n, n, false)),
            None => None,
        },
        _ => None,
    }
}

/// An item of at least 1500 gold that builds into nothing is finished.
pub open spec fn spec_finished(v: Json) -> bool {
    &&& match json_items(field(v, "into"@)) {
        Some(a) => a.len() == 0,
        None => true,
    }
    &&& match json_u64(field(field(v, "gold"@), "total"@)) {
        Some(g) => g >= 1500,
        None => false,
    }
}

/// An item entry of the first language: its `name` and its total cost in gold.
pub open spec fn spec_item(v: Json) -> Option<(Seq<char>, u32, bool, bool)> {
    match (json_text(field(v, "name"@)), json_u64(field(field(v, "gold"@), "total"@))) {
        (Some(n), Some(g)) => if g <= u32::MAX {
            Some((n, g as u32, spec_finished(v), false))
        } else {
            None
        },
        _ => None,
    }
}

fn champion_of(v: &Json) -> (r: Option<Champion>)
    ensures
        match r {
            Some(c) => spec_champion(*v) == Some(c@),
            None => spec_champion(*v) is None,
        },
{
    let key = match member(v, "key") {
        Some(k) => as_text(k),
        None => None,
    };
    let name = match member(v, "name") {
        Some(n) => as_text(n),
        None => None,
    };
    match (key, name) {
        (Some(k), Some(n)) => match parse_decimal(chars_of(k).as_slice(), 4294967295u64) {
            Some(key) => Some(Champion { key: key as u32, name: owned(n), title: owned(n), bundled: false }),
            None => None,
        },
        _ => None,
    }
}

fn item_of(v: &Json) -> (r: Option<Item>)
    ensures
        match r {
            Some(i) => spec_item(*v) == Some(i@),
            None => spec_item(*v) is None,
        },
{
    let name = match member(v, "name") {
        Some(n) => as_text(n),
        None => None,
    };
    let gold = match member(v, "gold") {
        Some(g) => match member(g, "total") {
            Some(t) => crate::json::as_u64(t),
            None => None,
        },
        None => None,
    };
    let builds_into_nothing = match member(v, "into") {
        Some(into) => match as_items(into) {
            Some(a) => a.len() == 0,
            None => true,
        },
        None => true,
    };
    match (name, gold) {
        (Some(n), Some(g)) => if g <= 4294967295u64 {
            Some(Item { name: owned(n), gold: g as u32, finished: builds_into_nothing && g >= 1500, bundled: false })
        } else {
            None
        },
        _ => None,
    }
}

/// The catalog of `version` read from the champion and item data of the first language, in
/// the order of their ids; `game.invalidData` when an entry lacks what the catalog needs.
pub fn catalog_of(version: &str, champions: &Vec<(String, Json)>, items: &Vec<(String, Json)>) -> (r: Result<
    Catalog,
    String,
>)
    ensures
        match r {
            Ok(c) => {
                &&& c.version@ == version@
                &&& c.champions@.len() == champions@.len()
                &&& forall|k: int|
                    0 <= k < champions@.len() ==> (#[trigger] c.champions@[k]).0@ == champions@[k].0@ && spec_champion(
                        champions@[k].1,
                    ) == Some(c.champions@[k].1@)
                &&& c.items@.len() == items@.len()
                &&& forall|k: int|
                    0 <= k < items@.len() ==> (#[trigger] c.items@[k]).0@ == items@[k].0@ && spec_item(items@[k].1)
                        == Some(c.items@[k].1@)
            },
            Err(e) => e@ == "game.invalidData"@ && ((exists|k: int|
                0 <= k < champions@.len() && spec_champion(#[trigger] champions@[k].1) is None) || (exists|k: int|
                0 <= k < items@.len() && spec_item(#[trigger] items@[k].1) is None)),
        },
{
    let mut cs: Vec<(String, Champion)> = Vec::new();
    let mut k: usize = 0;
    while k < champions.len()
        invariant
            k <= champions@.len(),
            cs@.len() == k,
            forall|j: int|
                0 <= j < k ==> (#[trigger] cs@[j]).0@ == champions@[j].0@ && spec_champion(champions@[j].1) == Some(
                    cs@[j].1@,
                ),
        decreases champions.len() - k,
    {
        match champion_of(&champions[k].1) {
            Some(c) => cs.push((owned(champions[k].0.as_str()), c)),
            None => return Err(owned("game.invalidData")),
        }
        k = k + 1;
    }
    let mut is: Vec<(String, Item)> = Vec::new();
    let mut k: usize = 0;
    while k < items.len()
        invariant
            k <= items@.len(),
            is@.len() == k,
            forall|j: int|
                0 <= j < k ==> (#[trigger] is@[j]).0@ == items@[j].0@ && spec_item(items@[j].1) == Some(is@[j].1@),
        decreases items.len() - k,
    {
        match item_of(&items[k].1) {
            Some(i) => is.push((owned(items[k].0.as_str()), i)),
            None => return Err(owned("game.invalidData")),
        }
        k = k + 1;
    }
    Ok(Catalog { version: owned(version), champions: cs, items: is })
}

/// The names of one more language, in the order of their ids; `game.invalidData` when an
/// entry has no name.
pub fn names_of(champions: &Vec<(String, Json)>, items: &Vec<(String, Json)>) -> (r: Result<LocalizedNames, String>)
    ensures
        match r {
            Ok(n) => {
                &&& n.champions@.len() == champions@.len()
                &&& forall|k: int|
                    0 <= k < champions@.len() ==> (#[trigger] n.champions@[k]).0@ == champions@[k].0@ && json_text(
                        field(champions@[k].1, "name"@),
                    ) == Some(n.champions@[k].1@)
                &&& n.items@.len() == items@.len()
                &&& forall|k: int|
                    0 <= k < items@.len() ==> (#[trigger] n.items@[k]).0@ == items@[k].0@ && json_text(
                        field(items@[k].1, "name"@),
                    ) == Some(n.items@[k].1@)
            },
            Err(e) => e@ == "game.invalidData"@ && ((exists|k: int|
                0 <= k < champions@.len() && json_text(field(#[trigger] champions@[k].1, "name"@)) is None) || (exists|
                k: int,
            |
                0 <= k < items@.len() && json_text(field(#[trigger] items@[k].1, "name"@)) is None)),
        },
{
    let c = name_list(champions)?;
    let i = name_list(items)?;
    Ok(LocalizedNames { champions: c, items: i })
}

fn name_list(entries: &Vec<(String, Json)>) -> (r: Result<Vec<(String, String)>, String>)
    ensures
        match r {
            Ok(v) => v@.len() == entries@.len() && forall|k: int|
                0 <= k < entries@.len() ==> (#[trigger] v@[k]).0@ == entries@[k].0@ && json_text(
                    field(entries@[k].1, "name"@),
                ) == Some(v@[k].1@),
            Err(e) => e@ == "game.invalidData"@ && exists|k: int|
                0 <= k < entries@.len() && json_text(field(#[trigger] entries@[k].1, "name"@)) is None,
        },
{
    let mut out: Vec<(String, String)> = Vec::new();
    let mut k: usize = 0;
    while k < entries.len()
        invariant
            k <= entries@.len(),
            out@.len() == k,
            forall|j: int|
                0 <= j < k ==> (#[trigger] out@[j]).0@ == entries@[j].0@ && json_text(field(entries@[j].1, "name"@))
                    == Some(out@[j].1@),
        decreases entries.len() - k,
    {
        let name = match member(&entries[k].1, "name") {
            Some(n) => as_text(n),
            None => None,
        };
        match name {
            Some(n) => out.push((owned(entries[k].0.as_str()), owned(n))),
            None => return Err(owned("game.invalidData")),
        }
        k = k + 1;
    }
    Ok(out)
}

/// The largest data dragon document read: sixteen MiB.
pub const DOCUMENT_LIMIT: usize = 16777216;

/// The bytes of a document received once another chunk arrives; `game.invalidData` once the
/// document would grow past the limit.
pub fn accept_document_chunk(received: usize, chunk: usize) -> (r: Result<usize, String>)
    ensures
        match r {
            Ok(n) => n == received + chunk && n <= DOCUMENT_LIMIT,
            Err(e) => received + chunk > DOCUMENT_LIMIT && e@ == "game.invalidData"@,
        },
{
    match received.checked_add(chunk) {
        Some(n) => if n > DOCUMENT_LIMIT {
            Err(owned("game.invalidData"))
        } else {
            Ok(n)
        },
        None => Err(owned("game.invalidData")),
    }
}

} // verus!
