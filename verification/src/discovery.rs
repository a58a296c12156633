//! Recognising a game installation on this machine: its declared version, its operator
//! family, its locales, and the install paths that the Riot Client records.
use vstd::prelude::*;
use crate::files::{patch, spec_patch};
use crate::json::{Json, field, json_text, member, as_text};
use crate::play::{contains, contains_chars};
use crate::sessions::{trim, trim_chars};
use crate::text::{
    find_char, position_of, tail, ascii_lower, chars_of, chars_sort_before, eq_ignore_ascii_case, has_prefix, has_suffix, lemma_sorts_total,
    lemma_sorts_transitive, lower, owned, same_ignoring_ascii_case, slice_chars, sorts_before, starts_with, string_of,
};

verus! {

/// The version an installation declares: that of its code metadata, else that of its
/// compatibility metadata; only a version with a patch number counts.
pub open spec fn spec_installed_version(code: Option<Json>, compatibility: Option<Json>) -> Option<Seq<char>> {
    let from_code = match code {
        Some(c) => json_text(field(c, "version"@)),
        None => None,
    };
    let v = match from_code {
        Some(v) => Some(v),
        None => match compatibility {
            Some(c) => json_text(field(c, "version"@)),
            None => None,
        },
    };
    match v {
        Some(v) => if spec_patch(v) is Some {
            Some(v)
        } else {
            None
        },
        None => None,
    }
}

fn version_of(doc: Option<&Json>) -> (r: Option<&str>)
    ensures
        match r {
            Some(v) => doc matches Some(d) && json_text(field(*d, "version"@)) == Some(v@),
            None => match doc {
                Some(d) => json_text(field(*d, "version"@)) is None,
                None => true,
            },
        },
{
    match doc {
        Some(d) => match member(d, "version") {
            Some(v) => as_text(v),
            None => None,
        },
        None => None,
    }
}

/// The version of an installation, read from its metadata documents.
pub fn installed_version(code: Option<&Json>, compatibility: Option<&Json>) -> (r: Option<String>)
    ensures
        match r {
            Some(v) => spec_installed_version(
                match code {
                    Some(c) => Some(*c),
                    None => None,
                },
                match compatibility {
                    Some(c) => Some(*c),
                    None => None,
                },
            ) == Some(v@),
            None => spec_installed_version(
                match code {
                    Some(c) => Some(*c),
                    None => None,
                },
                match compatibility {
                    Some(c) => Some(*c),
                    None => None,
                },
            ) is None,
        },
{
    let v = match version_of(code) {
        Some(v) => v,
        None => match version_of(compatibility) {
            Some(v) => v,
            None => return None,
        },
    };
    if patch(v).is_some() {
        Some(owned(v))
    } else {
        None
    }
}

/// `s` with ASCII letters lower-cased.
pub open spec fn lower_ascii(s: Seq<char>) -> Seq<char> {
    s.map_values(|c: char| ascii_lower(c))
}

/// A Tencent installation: its version names Tencent in any ASCII case, or it has a TCLS
/// directory.
pub fn is_tencent(version: &str, has_tcls: bool) -> (r: bool)
    ensures
        r == (contains(lower_ascii(version@), "tencent"@) || has_tcls),
{
    let v = chars_of(version);
    let mut l: Vec<char> = Vec::new();
    let mut i: usize = 0;
    while i < v.len()
        invariant
            i <= v@.len(),
            l@ == lower_ascii(v@.take(i as int)),
        decreases v.len() - i,
    {
        l.push(lower(v[i]));
        assert(l@ =~= lower_ascii(v@.take(i + 1)));
        i = i + 1;
    }
    assert(v@.take(v@.len() as int) =~= v@);
    let key = chars_of("tencent");
    contains_chars(l.as_slice(), key.as_slice()) || has_tcls
}

/// A localization archive `Global.LOCALE.wad.client` names its locale: 1 to 16 ASCII letters
/// or underscores.
pub open spec fn spec_locale_of_file(name: Seq<char>) -> Option<Seq<char>> {
    if name.len() >= 18 && has_prefix(name, "Global."@) && has_suffix(name, ".wad.client"@) {
        let locale = name.subrange(7, name.len() - 11);
        if 0 < locale.len() <= 16 && forall|i: int|
            0 <= i < locale.len() ==> ('a' <= #[trigger] locale[i] <= 'z' || 'A' <= locale[i] <= 'Z' || locale[i]
                == '_') {
            Some(locale)
        } else {
            None
        }
    } else {
        None
    }
}

/// The locale that a localization archive's file name names, if any.
#[verifier::loop_isolation(false)]
pub fn locale_of_file(name: &str) -> (r: Option<String>)
    ensures
        match r {
            Some(l) => spec_locale_of_file(name@) == Some(l@),
            None => spec_locale_of_file(name@) is None,
        },
{
    let v = chars_of(name);
    let prefix = chars_of("Global.");
    let suffix = chars_of(".wad.client");
    proof {
        reveal_strlit("Global.");
        reveal_strlit(".wad.client");
    }
    if v.len() < 18 || !starts_with(v.as_slice(), prefix.as_slice()) {
        return None;
    }
    let tail = slice_chars(v.as_slice(), v.len() - 11, v.len());
    if !crate::text::chars_eq(tail.as_slice(), suffix.as_slice()) {
        assert(!has_suffix(name@, ".wad.client"@));
        return None;
    }
    assert(has_suffix(name@, ".wad.client"@));
    let locale = slice_chars(v.as_slice(), 7, v.len() - 11);
    if locale.len() == 0 || locale.len() > 16 {
        return None;
    }
    let mut i: usize = 0;
    while i < locale.len()
        invariant
            i <= locale@.len(),
            forall|j: int|
                0 <= j < i ==> ('a' <= #[trigger] locale@[j] <= 'z' || 'A' <= locale@[j] <= 'Z' || locale@[j] == '_'),
        decreases locale.len() - i,
    {
        let c = locale[i];
        if !(('a' <= c && c <= 'z') || ('A' <= c && c <= 'Z') || c == '_') {
            assert(!('a' <= locale@[i as int] <= 'z' || 'A' <= locale@[i as int] <= 'Z' || locale@[i as int] == '_'));
            return None;
        }
        i = i + 1;
    }
    Some(string_of(locale.as_slice()))
}

/// The locale a family's installations prefer.
pub open spec fn preferred_locale(tencent: bool) -> Seq<char> {
    if tencent {
        "zh_CN"@
    } else {
        "en_US"@
    }
}

/// `x` is the least of the texts of `s` that satisfy `p`, in the order of `String`.
pub open spec fn least_where(s: Seq<Seq<char>>, p: spec_fn(Seq<char>) -> bool, x: Seq<char>) -> bool {
    &&& exists|i: int| 0 <= i < s.len() && p(s[i]) && #[trigger] s[i] == x
    &&& forall|i: int| 0 <= i < s.len() && p(#[trigger] s[i]) ==> sorts_before(x, s[i])
}

/// The locale an installation plays in: among its locales sorted as texts, the first that is
/// the family's preferred locale ignoring ASCII case, else the first.
pub fn choose_locale(locales: &Vec<String>, tencent: bool) -> (r: Option<String>)
    ensures
        ({
            let s = locales@.map_values(|l: String| l@);
            let prefers = |l: Seq<char>| eq_ignore_ascii_case(l, preferred_locale(tencent));
            let any = |l: Seq<char>| true;
            match r {
                Some(x) => if exists|i: int| 0 <= i < s.len() && prefers(#[trigger] s[i]) {
                    least_where(s, prefers, x@)
                } else {
                    least_where(s, any, x@)
                },
                None => s.len() == 0,
            }
        }),
{
    let ghost s = locales@.map_values(|l: String| l@);
    let ghost prefers = |l: Seq<char>| eq_ignore_ascii_case(l, preferred_locale(tencent));
    let ghost any = |l: Seq<char>| true;
    let preferred = if tencent {
        "zh_CN"
    } else {
        "en_US"
    };
    assert(preferred@ == preferred_locale(tencent));
    let mut best_any: Option<usize> = None;
    let mut best_preferred: Option<usize> = None;
    let mut i: usize = 0;
    while i < locales.len()
        invariant
            i <= locales@.len(),
            s == locales@.map_values(|l: String| l@),
            preferred@ == preferred_locale(tencent),
            prefers == (|l: Seq<char>| eq_ignore_ascii_case(l, preferred_locale(tencent))),
            any == (|l: Seq<char>| true),
            match best_any {
                Some(b) => b < i && forall|j: int| 0 <= j < i ==> sorts_before(#[trigger] s[b as int], s[j]),
                None => i == 0,
            },
            match best_preferred {
                Some(b) => b < i && prefers(s[b as int]) && forall|j: int|
                    0 <= j < i && prefers(#[trigger] s[j]) ==> sorts_before(s[b as int], s[j]),
                None => forall|j: int| 0 <= j < i ==> !prefers(#[trigger] s[j]),
            },
        decreases locales.len() - i,
    {
        let here = chars_of(locales[i].as_str());
        assert(here@ == s[i as int]);
        match best_any {
            Some(b) => {
                let current = chars_of(locales[b].as_str());
                if !chars_sort_before(current.as_slice(), here.as_slice()) {
                    proof {
                        lemma_sorts_total(s[b as int], s[i as int]);
                        assert forall|j: int| 0 <= j < i + 1 implies sorts_before(#[trigger] s[i as int], s[j]) by {
                            if j < i {
                                lemma_sorts_transitive(s[i as int], s[b as int], s[j]);
                            } else {
                                lemma_sorts_total(s[i as int], s[i as int]);
                            }
                        }
                    }
                    best_any = Some(i);
                } else {
                    proof {
                        assert forall|j: int| 0 <= j < i + 1 implies sorts_before(#[trigger] s[b as int], s[j]) by {}
                    }
                }
            },
            None => {
                proof {
                    lemma_sorts_total(s[i as int], s[i as int]);
                    assert forall|j: int| 0 <= j < i + 1 implies sorts_before(#[trigger] s[i as int], s[j]) by {}
                }
                best_any = Some(i);
            },
        }
        if same_ignoring_ascii_case(locales[i].as_str(), preferred) {
            assert(prefers(s[i as int]));
            match best_preferred {
                Some(b) => {
                    let current = chars_of(locales[b].as_str());
                    if !chars_sort_before(current.as_slice(), here.as_slice()) {
                        proof {
                            lemma_sorts_total(s[b as int], s[i as int]);
                            assert forall|j: int| 0 <= j < i + 1 && prefers(#[trigger] s[j]) implies sorts_before(
                                s[i as int],
                                s[j],
                            ) by {
                                if j < i {
                                    lemma_sorts_transitive(s[i as int], s[b as int], s[j]);
                                } else {
                                    lemma_sorts_total(s[i as int], s[i as int]);
                                }
                            }
                        }
                        best_preferred = Some(i);
                    }
                },
                None => {
                    proof {
                        lemma_sorts_total(s[i as int], s[i as int]);
                    }
                    best_preferred = Some(i);
                },
            }
        } else {
            assert(!prefers(s[i as int]));
        }
        i = i + 1;
    }
    match best_preferred {
        Some(b) => {
            assert(prefers(s[b as int]) && s[b as int] == s[b as int]);
            Some(owned(locales[b].as_str()))
        },
        None => match best_any {
            Some(b) => {
                assert(any(s[b as int]));
                Some(owned(locales[b].as_str()))
            },
            None => None,
        },
    }
}

/// A line without the carriage return of a `\r\n` line break.
pub open spec fn drop_cr(l: Seq<char>) -> Seq<char> {
    if l.len() > 0 && l.last() == '\r' {
        l.drop_last()
    } else {
        l
    }
}

/// The lines of a text as `str::lines` gives them: split at each `\n`, with the `\r` of a
/// `\r\n` dropped; a final line break starts no empty line.
pub open spec fn text_lines(s: Seq<char>) -> Seq<Seq<char>>
    decreases s.len(),
{
    if s.len() == 0 {
        Seq::empty()
    } else {
        match position_of(s, '\n') {
            None => seq![s],
            Some(p) => if 0 <= p < s.len() {
                seq![drop_cr(s.subrange(0, p))] + text_lines(s.subrange(p + 1, s.len() as int))
            } else {
                seq![s]
            },
        }
    }
}

pub open spec fn is_quote(c: char) -> bool {
    c == '\'' || c == '"'
}

/// `s` without leading quotes.
pub open spec fn trim_quotes_start(s: Seq<char>) -> Seq<char>
    decreases s.len(),
{
    if s.len() > 0 && is_quote(s[0]) {
        trim_quotes_start(s.drop_first())
    } else {
        s
    }
}

/// `s` without trailing quotes.
pub open spec fn trim_quotes_end(s: Seq<char>) -> Seq<char>
    decreases s.len(),
{
    if s.len() > 0 && is_quote(s.last()) {
        trim_quotes_end(s.drop_last())
    } else {
        s
    }
}

/// The key under which the Riot Client records where a product is installed.
pub open spec fn install_key() -> Seq<char> {
    "product_install_full_path:"@
}

/// The install path a product settings line records: the trimmed rest of a line whose trimmed
/// text starts with the key, without surrounding quotes.
pub open spec fn setting_value(line: Seq<char>) -> Option<Seq<char>> {
    let t = trim(line);
    if has_prefix(t, install_key()) {
        Some(trim_quotes_end(trim_quotes_start(trim(t.subrange(install_key().len() as int, t.len() as int)))))
    } else {
        None
    }
}

/// The value of the first line that records an install path.
pub open spec fn first_setting(lines: Seq<Seq<char>>) -> Option<Seq<char>>
    decreases lines.len(),
{
    if lines.len() == 0 {
        None
    } else {
        match setting_value(lines[0]) {
            Some(v) => Some(v),
            None => first_setting(lines.drop_first()),
        }
    }
}

fn trim_quotes(s: &[char]) -> (r: Vec<char>)
    ensures
        r@ == trim_quotes_end(trim_quotes_start(s@)),
{
    let mut a: usize = 0;
    assert(s@.subrange(0, s@.len() as int) =~= s@);
    while a < s.len() && (s[a] == '\'' || s[a] == '"')
        invariant
            a <= s.len(),
            trim_quotes_start(s@.subrange(a as int, s@.len() as int)) == trim_quotes_start(s@),
        decreases s.len() - a,
    {
        assert(s@.subrange(a as int, s@.len() as int).drop_first() =~= s@.subrange(a + 1, s@.len() as int));
        a = a + 1;
    }
    let mut b: usize = s.len();
    while b > a && (s[b - 1] == '\'' || s[b - 1] == '"')
        invariant
            a <= b <= s.len(),
            trim_quotes_end(s@.subrange(a as int, b as int)) == trim_quotes_end(trim_quotes_start(s@)),
        decreases b,
    {
        assert(s@.subrange(a as int, b as int).drop_last() =~= s@.subrange(a as int, b - 1));
        b = b - 1;
    }
    slice_chars(s, a, b)
}

fn setting_of(line: &[char]) -> (r: Option<Vec<char>>)
    ensures
        match r {
            Some(v) => setting_value(line@) == Some(v@),
            None => setting_value(line@) is None,
        },
{
    let t = trim_chars(line);
    let key = chars_of("product_install_full_path:");
    proof {
        reveal_strlit("product_install_full_path:");
    }
    if !starts_with(t.as_slice(), key.as_slice()) {
        return None;
    }
    let rest = tail(t.as_slice(), key.len());
    let value = trim_chars(rest.as_slice());
    Some(trim_quotes(value.as_slice()))
}

/// The install path that a Riot Client product settings file records, if any.
pub fn install_path(contents: &str) -> (r: Option<String>)
    ensures
        match r {
            Some(p) => first_setting(text_lines(contents@)) == Some(p@),
            None => first_setting(text_lines(contents@)) is None,
        },
{
    let v = chars_of(contents);
    let mut start: usize = 0;
    assert(v@.subrange(0, v@.len() as int) =~= v@);
    while start < v.len()
        invariant
            start <= v@.len(),
            v@ == contents@,
            first_setting(text_lines(contents@)) == first_setting(text_lines(v@.subrange(start as int, v@.len() as int))),
        decreases v.len() - start,
    {
        let rest = tail(v.as_slice(), start);
        let ghost lines = text_lines(rest@);
        match find_char(rest.as_slice(), '\n') {
            Some(p) => {
                let raw = slice_chars(rest.as_slice(), 0, p);
                let line = if raw.len() > 0 && raw[raw.len() - 1] == '\r' {
                    slice_chars(raw.as_slice(), 0, raw.len() - 1)
                } else {
                    raw
                };
                assert(line@ =~= drop_cr(rest@.subrange(0, p as int)));
                assert(lines == seq![line@] + text_lines(rest@.subrange(p + 1, rest@.len() as int)));
                assert(lines[0] == line@);
                assert(lines.drop_first() =~= text_lines(rest@.subrange(p + 1, rest@.len() as int)));
                assert(rest@.subrange(p + 1, rest@.len() as int) =~= v@.subrange(start + p + 1, v@.len() as int));
                match setting_of(line.as_slice()) {
                    Some(value) => return Some(string_of(value.as_slice())),
                    None => {},
                }
                start = start + p + 1;
            },
            None => {
                assert(lines == seq![rest@]);
                assert(lines.drop_first() =~= Seq::<Seq<char>>::empty());
                match setting_of(rest.as_slice()) {
                    Some(value) => return Some(string_of(value.as_slice())),
                    None => {},
                }
                assert(first_setting(lines) == first_setting(Seq::<Seq<char>>::empty()));
                return None;
            },
        }
    }
    assert(v@.subrange(start as int, v@.len() as int) =~= Seq::<char>::empty());
    None
}

/// The locales of a localization directory's file names, in order.
pub open spec fn locales_of(names: Seq<Seq<char>>) -> Seq<Seq<char>>
    decreases names.len(),
{
    if names.len() == 0 {
        Seq::empty()
    } else {
        match spec_locale_of_file(names.last()) {
            Some(l) => locales_of(names.drop_last()).push(l),
            None => locales_of(names.drop_last()),
        }
    }
}

/// What inspecting a product directory decides, given what it found on disk: the version
/// from the metadata documents, the family, and the locale; nothing when the version has no
/// patch, when a non-Tencent product has no top-level client executable, or when it has no
/// locale.
pub fn installation_profile(
    code: Option<&Json>,
    compatibility: Option<&Json>,
    has_tcls: bool,
    has_top_level_client: bool,
    file_names: &Vec<String>,
) -> (r: Option<(String, bool, String)>)
    ensures
        ({
            let version = spec_installed_version(
                match code {
                    Some(c) => Some(*c),
                    None => None,
                },
                match compatibility {
                    Some(c) => Some(*c),
                    None => None,
                },
            );
            let locales = locales_of(file_names@.map_values(|n: String| n@));
            match r {
                Some((v, tencent, locale)) => {
                    &&& version == Some(v@)
                    &&& tencent == (contains(lower_ascii(v@), "tencent"@) || has_tcls)
                    &&& tencent || has_top_level_client
                    &&& if exists|i: int|
                        0 <= i < locales.len() && eq_ignore_ascii_case(#[trigger] locales[i], preferred_locale(tencent)) {
                        least_where(locales, |l: Seq<char>| eq_ignore_ascii_case(l, preferred_locale(tencent)), locale@)
                    } else {
                        least_where(locales, |l: Seq<char>| true, locale@)
                    }
                },
                None => match version {
                    None => true,
                    Some(v) => {
                        let tencent = contains(lower_ascii(v), "tencent"@) || has_tcls;
                        (!tencent && !has_top_level_client) || locales.len() == 0
                    },
                },
            }
        }),
{
    let version = installed_version(code, compatibility)?;
    let tencent = is_tencent(version.as_str(), has_tcls);
    if !tencent && !has_top_level_client {
        return None;
    }
    let mut locales: Vec<String> = Vec::new();
    let ghost names = file_names@.map_values(|n: String| n@);
    let mut i: usize = 0;
    assert(names.take(0) =~= Seq::<Seq<char>>::empty());
    while i < file_names.len()
        invariant
            i <= file_names@.len(),
            names == file_names@.map_values(|n: String| n@),
            locales@.map_values(|l: String| l@) == locales_of(names.take(i as int)),
        decreases file_names.len() - i,
    {
        let ghost before = locales@;
        assert(names.take(i + 1).drop_last() =~= names.take(i as int));
        assert(names.take(i + 1).last() == file_names@[i as int]@);
        match locale_of_file(file_names[i].as_str()) {
            Some(l) => {
                locales.push(l);
                assert(locales@.map_values(|l: String| l@) =~= before.map_values(|l: String| l@).push(l@));
            },
            None => {},
        }
        i = i + 1;
    }
    assert(names.take(file_names@.len() as int) =~= names);
    let locale = choose_locale(&locales, tencent)?;
    Some((version, tencent, locale))
}

} // verus!
