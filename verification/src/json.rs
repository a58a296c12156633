//! JSON documents as plain values, and the lookups that the archive makes in them.
use vstd::prelude::*;
use crate::text::str_eq;

verus! {

/// A JSON number, classified as the parser classifies it.
#[derive(Debug)]
pub enum JsonNumber {
    /// A non-negative integer.
    Unsigned(u64),
    /// A negative integer.
    Negative(i64),
    /// A number written with a fraction or an exponent: the bit pattern of the finite double
    /// that it denotes.
    Float(u64),
}

/// A JSON value. An object lists its members in the order in which the parser hands them
/// out: ascending by key, each key once.
#[derive(Debug)]
pub enum Json {
    Null,
    Bool(bool),
    Number(JsonNumber),
    Text(String),
    Array(Vec<Json>),
    Object(Vec<(String, Json)>),
}

/// The value of the first member named `key`.
pub open spec fn lookup(members: Seq<(String, Json)>, key: Seq<char>) -> Option<Json>
    decreases members.len(),
{
    if members.len() == 0 {
        None
    } else if members[0].0@ == key {
        Some(members[0].1)
    } else {
        lookup(members.drop_first(), key)
    }
}

/// `Value::get` with a key: the member of an object, if it has one.
pub open spec fn member_of(v: Json, key: Seq<char>) -> Option<Json> {
    match v {
        Json::Object(m) => lookup(m@, key),
        _ => None,
    }
}

/// `value[key]`: the member, or null when `v` is no object or has no such member.
pub open spec fn field(v: Json, key: Seq<char>) -> Json {
    match member_of(v, key) {
        Some(x) => x,
        None => Json::Null,
    }
}

/// `as_u64`.
pub open spec fn json_u64(v: Json) -> Option<u64> {
    match v {
        Json::Number(JsonNumber::Unsigned(n)) => Some(n),
        _ => None,
    }
}

/// An unsigned integer that fits `u32`, or 0.
pub open spec fn json_small(v: Json) -> u32 {
    match json_u64(v) {
        Some(n) => if n <= u32::MAX {
            n as u32
        } else {
            0
        },
        None => 0,
    }
}

/// `as_str`.
pub open spec fn json_text(v: Json) -> Option<Seq<char>> {
    match v {
        Json::Text(s) => Some(s@),
        _ => None,
    }
}

/// `as_bool`.
pub open spec fn json_bool(v: Json) -> Option<bool> {
    match v {
        Json::Bool(b) => Some(b),
        _ => None,
    }
}

/// `as_array`.
pub open spec fn json_items(v: Json) -> Option<Seq<Json>> {
    match v {
        Json::Array(a) => Some(a@),
        _ => None,
    }
}

/// Two finite doubles, given by their bits, are equal: the same bits, or both zeroes.
pub open spec fn same_double(a: u64, b: u64) -> bool {
    a == b || (a & 0x7fff_ffff_ffff_ffffu64 == 0 && b & 0x7fff_ffff_ffff_ffffu64 == 0)
}

pub open spec fn same_number(a: JsonNumber, b: JsonNumber) -> bool {
    match (a, b) {
        (JsonNumber::Unsigned(x), JsonNumber::Unsigned(y)) => x == y,
        (JsonNumber::Negative(x), JsonNumber::Negative(y)) => x == y,
        (JsonNumber::Float(x), JsonNumber::Float(y)) => same_double(x, y),
        _ => false,
    }
}

/// Equality of JSON values: same kind and same contents.
pub open spec fn same(a: Json, b: Json) -> bool
    decreases a,
{
    match a {
        Json::Null => b is Null,
        Json::Bool(x) => b matches Json::Bool(y) && x == y,
        Json::Number(x) => b matches Json::Number(y) && same_number(x, y),
        Json::Text(x) => b matches Json::Text(y) && x@ == y@,
        Json::Array(x) => b matches Json::Array(y) && x@.len() == y@.len() && forall|i: int|
            0 <= i < x@.len() ==> same(#[trigger] x@[i], y@[i]),
        Json::Object(x) => b matches Json::Object(y) && x@.len() == y@.len() && forall|i: int|
            0 <= i < x@.len() ==> (#[trigger] x@[i]).0@ == y@[i].0@ && same(x@[i].1, y@[i].1),
    }
}

/// `i` is the first position in `s` whose value satisfies `p`.
pub open spec fn is_first(s: Seq<Json>, p: spec_fn(Json) -> bool, i: int) -> bool {
    &&& 0 <= i < s.len()
    &&& p(s[i])
    &&& forall|j: int| 0 <= j < i ==> !p(#[trigger] s[j])
}

/// The first position in `s` whose value satisfies `p`, as `iter().position` finds it.
pub open spec fn first_match(s: Seq<Json>, p: spec_fn(Json) -> bool) -> Option<int> {
    if exists|i: int| is_first(s, p, i) {
        Some(choose|i: int| is_first(s, p, i))
    } else {
        None
    }
}

pub proof fn lemma_first_match(s: Seq<Json>, p: spec_fn(Json) -> bool, i: int)
    requires
        is_first(s, p, i),
    ensures
        first_match(s, p) == Some(i),
{
    let k = choose|k: int| is_first(s, p, k);
    if k < i {
        assert(!p(s[k]));
    } else if i < k {
        assert(!p(s[i]));
    }
}

pub proof fn lemma_no_match(s: Seq<Json>, p: spec_fn(Json) -> bool)
    requires
        forall|j: int| 0 <= j < s.len() ==> !p(#[trigger] s[j]),
    ensures
        first_match(s, p) is None,
{
}

/// The member named `key`, if `v` is an object that has one.
pub fn member<'a>(v: &'a Json, key: &str) -> (r: Option<&'a Json>)
    ensures
        match r {
            Some(x) => member_of(*v, key@) == Some(*x),
            None => member_of(*v, key@) is None,
        },
{
    match v {
        Json::Object(m) => {
            let mut i: usize = 0;
            assert(m@.skip(0) =~= m@);
            while i < m.len()
                invariant
                    *v == Json::Object(*m),
                    i <= m@.len(),
                    lookup(m@, key@) == lookup(m@.skip(i as int), key@),
                decreases m.len() - i,
            {
                assert(m@.skip(i as int).drop_first() =~= m@.skip(i + 1));
                assert(m@.skip(i as int)[0] == m@[i as int]);
                if str_eq(m[i].0.as_str(), key) {
                    return Some(&m[i].1);
                }
                i = i + 1;
            }
            assert(m@.skip(i as int).len() == 0);
            None
        },
        _ => None,
    }
}

pub fn as_u64(v: &Json) -> (r: Option<u64>)
    ensures
        r == json_u64(*v),
{
    match v {
        Json::Number(JsonNumber::Unsigned(n)) => Some(*n),
        _ => None,
    }
}

pub fn as_small(v: &Json) -> (r: u32)
    ensures
        r == json_small(*v),
{
    match as_u64(v) {
        Some(n) => if n <= 4294967295u64 {
            n as u32
        } else {
            0
        },
        None => 0,
    }
}

pub fn as_text(v: &Json) -> (r: Option<&str>)
    ensures
        match r {
            Some(s) => json_text(*v) == Some(s@),
            None => json_text(*v) is None,
        },
{
    match v {
        Json::Text(s) => Some(s.as_str()),
        _ => None,
    }
}

pub fn as_bool(v: &Json) -> (r: Option<bool>)
    ensures
        r == json_bool(*v),
{
    match v {
        Json::Bool(b) => Some(*b),
        _ => None,
    }
}

pub fn as_items(v: &Json) -> (r: Option<&Vec<Json>>)
    ensures
        match r {
            Some(a) => json_items(*v) == Some(a@),
            None => json_items(*v) is None,
        },
{
    match v {
        Json::Array(a) => Some(a),
        _ => None,
    }
}

/// Moves the member named `key` out of `v`, if `v` is an object that has one.
pub fn take_member(v: Json, key: &str) -> (r: Option<Json>)
    ensures
        r == member_of(v, key@),
{
    match v {
        Json::Object(mut m) => {
            let ghost whole = m@;
            let mut i: usize = 0;
            assert(m@.skip(0) =~= m@);
            assert(member_of(v, key@) == lookup(whole, key@));
            while i < m.len()
                invariant
                    m@ == whole,
                    member_of(v, key@) == lookup(whole, key@),
                    i <= m@.len(),
                    lookup(whole, key@) == lookup(m@.skip(i as int), key@),
                decreases m.len() - i,
            {
                assert(m@.skip(i as int).drop_first() =~= m@.skip(i + 1));
                assert(m@.skip(i as int)[0] == m@[i as int]);
                if str_eq(m[i].0.as_str(), key) {
                    let (_, value) = m.remove(i);
                    return Some(value);
                }
                i = i + 1;
            }
            assert(m@.skip(i as int).len() == 0);
            None
        },
        _ => None,
    }
}

/// A copy of a JSON value.
pub fn json_clone(v: &Json) -> (r: Json)
    ensures
        same(r, *v),
    decreases *v,
{
    match v {
        Json::Null => Json::Null,
        Json::Bool(b) => Json::Bool(*b),
        Json::Number(n) => Json::Number(
            match n {
                JsonNumber::Unsigned(x) => JsonNumber::Unsigned(*x),
                JsonNumber::Negative(x) => JsonNumber::Negative(*x),
                JsonNumber::Float(x) => JsonNumber::Float(*x),
            },
        ),
        Json::Text(s) => Json::Text(s.clone()),
        Json::Array(items) => {
            let mut out: Vec<Json> = Vec::new();
            let mut i: usize = 0;
            while i < items.len()
                invariant
                    i <= items@.len(),
                    out@.len() == i,
                    *v == Json::Array(*items),
                    forall|j: int| 0 <= j < i ==> same(#[trigger] out@[j], items@[j]),
                decreases items.len() - i,
            {
                assert(decreases_to!(*v => (*v)->Array_0));
                assert(decreases_to!(*items => items@));
                assert(decreases_to!(items@ => items@[i as int]));
                out.push(json_clone(&items[i]));
                i = i + 1;
            }
            Json::Array(out)
        },
        Json::Object(members) => {
            let mut out: Vec<(String, Json)> = Vec::new();
            let mut i: usize = 0;
            while i < members.len()
                invariant
                    i <= members@.len(),
                    out@.len() == i,
                    *v == Json::Object(*members),
                    forall|j: int|
                        0 <= j < i ==> (#[trigger] out@[j]).0@ == members@[j].0@ && same(out@[j].1, members@[j].1),
                decreases members.len() - i,
            {
                assert(decreases_to!(*v => (*v)->Object_0));
                assert(decreases_to!(*members => members@));
                assert(decreases_to!(members@ => members@[i as int]));
                assert(decreases_to!(members@[i as int] => members@[i as int].1));
                let value = json_clone(&members[i].1);
                out.push((members[i].0.clone(), value));
                i = i + 1;
            }
            Json::Object(out)
        },
    }
}

/// Two texts in the order that sorts object keys: by characters, a prefix first.
pub open spec fn key_before(a: Seq<char>, b: Seq<char>) -> bool
    decreases a.len(),
{
    if b.len() == 0 {
        false
    } else if a.len() == 0 {
        true
    } else if a[0] != b[0] {
        a[0] < b[0]
    } else {
        key_before(a.drop_first(), b.drop_first())
    }
}

fn text_before(a: &[char], b: &[char]) -> (r: bool)
    ensures
        r == key_before(a@, b@),
{
    let mut i: usize = 0;
    assert(a@.skip(0) =~= a@);
    assert(b@.skip(0) =~= b@);
    while i < a.len() && i < b.len() && a[i] == b[i]
        invariant
            i <= a@.len(),
            i <= b@.len(),
            key_before(a@, b@) == key_before(a@.skip(i as int), b@.skip(i as int)),
        decreases a.len() - i,
    {
        assert(a@.skip(i as int).drop_first() =~= a@.skip(i + 1));
        assert(b@.skip(i as int).drop_first() =~= b@.skip(i + 1));
        i = i + 1;
    }
    if i >= b.len() {
        assert(b@.skip(i as int).len() == 0);
        false
    } else if i >= a.len() {
        assert(a@.skip(i as int).len() == 0);
        true
    } else {
        assert(a@.skip(i as int)[0] == a@[i as int]);
        assert(b@.skip(i as int)[0] == b@[i as int]);
        a[i] < b[i]
    }
}

proof fn lemma_lookup_update(m: Seq<(String, Json)>, i: int, key: Seq<char>, entry: (String, Json))
    requires
        0 <= i < m.len(),
        m[i].0@ == key,
        entry.0@ == key,
        forall|j: int| 0 <= j < i ==> m[j].0@ != key,
    ensures
        lookup(m.update(i, entry), key) == Some(entry.1),
        forall|other: Seq<char>| other != key ==> lookup(m.update(i, entry), other) == lookup(m, other),
    decreases i,
{
    if i > 0 {
        lemma_lookup_update(m.drop_first(), i - 1, key, entry);
        assert(m.update(i, entry).drop_first() =~= m.drop_first().update(i - 1, entry));
        assert forall|other: Seq<char>| other != key implies lookup(m.update(i, entry), other) == lookup(m, other) by {
            assert(m.update(i, entry)[0] == m[0]);
            assert(lookup(m.drop_first().update(i - 1, entry), other) == lookup(m.drop_first(), other));
        }
    } else {
        assert(m.update(i, entry).drop_first() =~= m.drop_first());
    }
}

proof fn lemma_lookup_insert(m: Seq<(String, Json)>, p: int, key: Seq<char>, entry: (String, Json))
    requires
        0 <= p <= m.len(),
        lookup(m, key) is None,
        entry.0@ == key,
    ensures
        lookup(m.insert(p, entry), key) == Some(entry.1),
        forall|other: Seq<char>| other != key ==> lookup(m.insert(p, entry), other) == lookup(m, other),
    decreases p,
{
    m.insert_ensures(p, entry);
    if p > 0 {
        assert(m.insert(p, entry).drop_first() =~= m.drop_first().insert(p - 1, entry));
        assert(m[0].0@ != key);
        lemma_lookup_insert(m.drop_first(), p - 1, key, entry);
        assert forall|other: Seq<char>| other != key implies lookup(m.insert(p, entry), other) == lookup(m, other) by {
            assert(m.insert(p, entry)[0] == m[0]);
            assert(lookup(m.drop_first().insert(p - 1, entry), other) == lookup(m.drop_first(), other));
        }
    } else {
        assert(m.insert(p, entry).drop_first() =~= m);
        assert(m.insert(p, entry)[0] == entry);
    }
}

/// `value[key] = member` on an object: the member replaces the one named `key`, or is added
/// where its key sorts among the others.
pub fn set_member(v: &mut Json, key: &str, value: Json)
    requires
        *old(v) is Object,
    ensures
        *final(v) is Object,
        member_of(*final(v), key@) == Some(value),
        forall|other: Seq<char>| other != key@ ==> #[trigger] member_of(*final(v), other) == member_of(*old(v), other),
{
    let ghost before = *v;
    let mut taken = Json::Null;
    std::mem::swap(&mut taken, v);
    let mut members = match taken {
        Json::Object(m) => m,
        _ => Vec::new(),
    };
    let ghost m0 = members@;
    assert(before == Json::Object(members));
    let key_chars = crate::text::chars_of(key);
    let mut i: usize = 0;
    let mut insert_at: usize = 0;
    let mut found = false;
    assert(m0.skip(0) =~= m0);
    while i < members.len() && !found
        invariant
            members@ == m0,
            i <= m0.len(),
            key_chars@ == key@,
            found ==> i < m0.len() && m0[i as int].0@ == key@,
            forall|j: int| 0 <= j < i ==> m0[j].0@ != key@,
            insert_at <= i,
        decreases m0.len() - i, if found { 0int } else { 1int },
    {
        if str_eq(members[i].0.as_str(), key) {
            found = true;
        } else {
            let here = crate::text::chars_of(members[i].0.as_str());
            if !text_before(key_chars.as_slice(), here.as_slice()) && insert_at == i {
                insert_at = i + 1;
            }
            i = i + 1;
        }
    }
    let entry = (crate::text::owned(key), value);
    if found {
        proof {
            lemma_lookup_update(m0, i as int, key@, entry);
        }
        members.set(i, entry);
    } else {
        proof {
            assert(lookup(m0, key@) is None) by {
                lemma_lookup_absent(m0, key@);
            }
            lemma_lookup_insert(m0, insert_at as int, key@, entry);
        }
        members.insert(insert_at, entry);
    }
    *v = Json::Object(members);
}

proof fn lemma_lookup_absent(m: Seq<(String, Json)>, key: Seq<char>)
    requires
        forall|j: int| 0 <= j < m.len() ==> m[j].0@ != key,
    ensures
        lookup(m, key) is None,
    decreases m.len(),
{
    if m.len() > 0 {
        assert forall|j: int| 0 <= j < m.drop_first().len() implies m.drop_first()[j].0@ != key by {
            assert(m.drop_first()[j] == m[j + 1]);
        }
        lemma_lookup_absent(m.drop_first(), key);
    }
}

/// Both members are missing, or both are there and equal.
pub open spec fn same_member(a: Option<Json>, b: Option<Json>) -> bool {
    match (a, b) {
        (None, None) => true,
        (Some(x), Some(y)) => same(x, y),
        _ => false,
    }
}

/// The members of an object; none for another value.
pub open spec fn members(v: Json) -> Seq<(String, Json)> {
    match v {
        Json::Object(m) => m@,
        _ => Seq::empty(),
    }
}

/// Equal objects have equal members.
pub proof fn lemma_same_members(a: Json, b: Json, key: Seq<char>)
    requires
        same(a, b),
    ensures
        same_member(member_of(a, key), member_of(b, key)),
{
    match (a, b) {
        (Json::Object(x), Json::Object(y)) => {
            lemma_lookup_same(x@, y@, key);
        },
        _ => {},
    }
}

proof fn lemma_lookup_same(x: Seq<(String, Json)>, y: Seq<(String, Json)>, key: Seq<char>)
    requires
        x.len() == y.len(),
        forall|i: int| 0 <= i < x.len() ==> (#[trigger] x[i]).0@ == y[i].0@ && same(x[i].1, y[i].1),
    ensures
        same_member(lookup(x, key), lookup(y, key)),
    decreases x.len(),
{
    if x.len() > 0 {
        assert(x[0].0@ == y[0].0@ && same(x[0].1, y[0].1));
        assert forall|i: int| 0 <= i < x.drop_first().len() implies (#[trigger] x.drop_first()[i]).0@ == y.drop_first()[i].0@
            && same(x.drop_first()[i].1, y.drop_first()[i].1) by {
            assert(x.drop_first()[i] == x[i + 1]);
            assert(y.drop_first()[i] == y[i + 1]);
        }
        lemma_lookup_same(x.drop_first(), y.drop_first(), key);
    }
}

/// `value[key].as_u64()`.
pub fn field_u64(v: &Json, key: &str) -> (r: Option<u64>)
    ensures
        r == json_u64(field(*v, key@)),
{
    match member(v, key) {
        Some(x) => as_u64(x),
        None => None,
    }
}

/// `value[key]` as an unsigned integer that fits `u32`, or 0.
pub fn field_small(v: &Json, key: &str) -> (r: u32)
    ensures
        r == json_small(field(*v, key@)),
{
    match member(v, key) {
        Some(x) => as_small(x),
        None => 0,
    }
}

/// `value[key].as_str()`.
pub fn field_text<'a>(v: &'a Json, key: &str) -> (r: Option<&'a str>)
    ensures
        match r {
            Some(s) => json_text(field(*v, key@)) == Some(s@),
            None => json_text(field(*v, key@)) is None,
        },
{
    match member(v, key) {
        Some(x) => as_text(x),
        None => None,
    }
}

/// `value[key].as_bool()`.
pub fn field_bool(v: &Json, key: &str) -> (r: Option<bool>)
    ensures
        r == json_bool(field(*v, key@)),
{
    match member(v, key) {
        Some(x) => as_bool(x),
        None => None,
    }
}

/// `value[key].as_array()`.
pub fn field_items<'a>(v: &'a Json, key: &str) -> (r: Option<&'a Vec<Json>>)
    ensures
        match r {
            Some(a) => json_items(field(*v, key@)) == Some(a@),
            None => json_items(field(*v, key@)) is None,
        },
{
    match member(v, key) {
        Some(x) => as_items(x),
        None => None,
    }
}

fn same_double_bits(a: u64, b: u64) -> (r: bool)
    ensures
        r == same_double(a, b),
{
    a == b || (a & 0x7fff_ffff_ffff_ffffu64 == 0 && b & 0x7fff_ffff_ffff_ffffu64 == 0)
}

fn same_number_of(a: &JsonNumber, b: &JsonNumber) -> (r: bool)
    ensures
        r == same_number(*a, *b),
{
    match (a, b) {
        (JsonNumber::Unsigned(x), JsonNumber::Unsigned(y)) => *x == *y,
        (JsonNumber::Negative(x), JsonNumber::Negative(y)) => *x == *y,
        (JsonNumber::Float(x), JsonNumber::Float(y)) => same_double_bits(*x, *y),
        _ => false,
    }
}

/// `a == b` on JSON values.
pub fn json_eq(a: &Json, b: &Json) -> (r: bool)
    ensures
        r == same(*a, *b),
    decreases *a,
{
    match (a, b) {
        (Json::Null, Json::Null) => true,
        (Json::Bool(x), Json::Bool(y)) => *x == *y,
        (Json::Number(x), Json::Number(y)) => same_number_of(x, y),
        (Json::Text(x), Json::Text(y)) => str_eq(x.as_str(), y.as_str()),
        (Json::Array(x), Json::Array(y)) => {
            if x.len() != y.len() {
                return false;
            }
            let mut i: usize = 0;
            while i < x.len()
                invariant
                    x@.len() == y@.len(),
                    i <= x@.len(),
                    *a == Json::Array(*x),
                    *b == Json::Array(*y),
                    forall|j: int| 0 <= j < i ==> same(#[trigger] x@[j], y@[j]),
                decreases x.len() - i,
            {
                assert(decreases_to!(*a => (*a)->Array_0));
                assert(decreases_to!(*x => x@));
                assert(decreases_to!(x@ => x@[i as int]));
                if !json_eq(&x[i], &y[i]) {
                    assert(!same(x@[i as int], y@[i as int]));
                    return false;
                }
                i = i + 1;
            }
            true
        },
        (Json::Object(x), Json::Object(y)) => {
            if x.len() != y.len() {
                return false;
            }
            let mut i: usize = 0;
            while i < x.len()
                invariant
                    x@.len() == y@.len(),
                    i <= x@.len(),
                    *a == Json::Object(*x),
                    *b == Json::Object(*y),
                    forall|j: int|
                        0 <= j < i ==> (#[trigger] x@[j]).0@ == y@[j].0@ && same(x@[j].1, y@[j].1),
                decreases x.len() - i,
            {
                assert(decreases_to!(*a => (*a)->Object_0));
                assert(decreases_to!(*x => x@));
                assert(decreases_to!(x@ => x@[i as int]));
                assert(decreases_to!(x@[i as int] => x@[i as int].1));
                if !str_eq(x[i].0.as_str(), y[i].0.as_str()) {
                    assert(x@[i as int].0@ != y@[i as int].0@);
                    return false;
                }
                if !json_eq(&x[i].1, &y[i].1) {
                    assert(!same(x@[i as int].1, y@[i as int].1));
                    return false;
                }
                i = i + 1;
            }
            true
        },
        _ => false,
    }
}

/// Equal values have the same text, the same unsigned number, and equal items.
pub proof fn lemma_same_reads(a: Json, b: Json)
    requires
        same(a, b),
    ensures
        json_text(a) == json_text(b),
        json_u64(a) == json_u64(b),
        json_small(a) == json_small(b),
        json_items(a) is Some <==> json_items(b) is Some,
        json_items(a) matches Some(x) ==> (json_items(b) matches Some(y) && x.len() == y.len() && forall|i: int|
            0 <= i < x.len() ==> same(#[trigger] x[i], y[i])),
{
}

/// Fields of equal values are equal.
pub proof fn lemma_same_field(a: Json, b: Json, key: Seq<char>)
    requires
        same(a, b),
    ensures
        same(field(a, key), field(b, key)),
{
    lemma_same_members(a, b, key);
}

/// `first_match` finds something exactly when some value satisfies the predicate.
pub proof fn lemma_first_match_some(s: Seq<Json>, p: spec_fn(Json) -> bool)
    ensures
        first_match(s, p) is Some <==> exists|i: int| 0 <= i < s.len() && #[trigger] p(s[i]),
{
    if exists|i: int| 0 <= i < s.len() && #[trigger] p(s[i]) {
        let w = choose|i: int| 0 <= i < s.len() && #[trigger] p(s[i]);
        lemma_least_witness(s, p, w);
    }
}

proof fn lemma_least_witness(s: Seq<Json>, p: spec_fn(Json) -> bool, w: int)
    requires
        0 <= w < s.len(),
        p(s[w]),
    ensures
        exists|i: int| is_first(s, p, i),
    decreases w,
{
    if forall|j: int| 0 <= j < w ==> !p(#[trigger] s[j]) {
        assert(is_first(s, p, w));
    } else {
        let v = choose|j: int| 0 <= j < w && #[trigger] p(s[j]);
        lemma_least_witness(s, p, v);
    }
}

/// The member after a first member of another name.
pub proof fn lemma_lookup_at(m: Seq<(String, Json)>, key: Seq<char>, k: int)
    requires
        0 <= k < m.len(),
        m[k].0@ == key,
        forall|j: int| 0 <= j < k ==> (#[trigger] m[j]).0@ != key,
    ensures
        lookup(m, key) == Some(m[k].1),
    decreases k,
{
    if k > 0 {
        assert(m[0].0@ != key);
        assert forall|j: int| 0 <= j < k - 1 implies (#[trigger] m.drop_first()[j]).0@ != key by {
            assert(m.drop_first()[j] == m[j + 1]);
        }
        lemma_lookup_at(m.drop_first(), key, k - 1);
    }
}

} // verus!
