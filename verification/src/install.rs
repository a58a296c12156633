//! Choosing the local game installation that can play a replay.
use vstd::prelude::*;
use crate::files::{patch, spec_patch};
use crate::text::owned;

verus! {

/// A local game installation found on this machine.
#[derive(Debug)]
pub struct Installation {
    /// The canonical game directory.
    pub root: String,
    /// The canonical game executable.
    pub executable: String,
    pub version: String,
    pub tencent: bool,
    pub locale: String,
    /// Whether a client process of this installation was running when it was found.
    pub running: bool,
}

/// The installation belongs to the operator family and plays the given patch.
pub open spec fn fits(i: Installation, tencent: bool, p: (u32, u32)) -> bool {
    i.tencent == tencent && spec_patch(i.version@) == Some(p)
}

/// The installations, in order, that fit.
pub open spec fn compatible(s: Seq<Installation>, tencent: bool, p: (u32, u32)) -> Seq<Installation>
    decreases s.len(),
{
    if s.len() == 0 {
        Seq::empty()
    } else {
        let r = compatible(s.drop_last(), tencent, p);
        if fits(s.last(), tencent, p) {
            r.push(s.last())
        } else {
            r
        }
    }
}

/// The number of installations with a running client.
pub open spec fn running_count(s: Seq<Installation>) -> nat
    decreases s.len(),
{
    if s.len() == 0 {
        0
    } else {
        running_count(s.drop_last()) + if s.last().running {
            1nat
        } else {
            0nat
        }
    }
}

/// The marks of the installations that `compatible` keeps, in the same order.
pub open spec fn compatible_marks(s: Seq<Installation>, marks: Seq<bool>, tencent: bool, p: (u32, u32)) -> Seq<bool>
    decreases s.len(),
{
    if s.len() == 0 {
        Seq::empty()
    } else {
        let r = compatible_marks(s.drop_last(), marks.drop_last(), tencent, p);
        if fits(s.last(), tencent, p) {
            r.push(marks.last())
        } else {
            r
        }
    }
}

/// `k` is the first marked position.
pub open spec fn first_mark(m: Seq<bool>, k: int) -> bool {
    0 <= k < m.len() && m[k] && forall|j: int| 0 <= j < k ==> !m[j]
}

proof fn lemma_first_mark_unique(m: Seq<bool>, a: int, b: int)
    requires
        first_mark(m, a),
        first_mark(m, b),
    ensures
        a == b,
{
}

/// The first marked candidate, if any.
pub open spec fn preferred_index(m: Seq<bool>) -> Option<int> {
    if exists|k: int| first_mark(m, k) {
        Some(choose|k: int| first_mark(m, k))
    } else {
        None
    }
}

proof fn lemma_preferred_index(m: Seq<bool>, i: int)
    requires
        first_mark(m, i),
    ensures
        preferred_index(m) == Some(i),
{
    let k = choose|k: int| first_mark(m, k);
    lemma_first_mark_unique(m, k, i);
}

/// The installation a replay is played with, or the code that says why none can be chosen:
/// the version must name a patch; only installations of the operator family and of that
/// patch are candidates; the first marked candidate (the preferred root) wins, then the only
/// running candidate, then the only candidate. `marks` holds one mark per installation.
pub open spec fn spec_select(s: Seq<Installation>, marks: Seq<bool>, tencent: bool, version: Seq<char>) -> Result<
    Installation,
    Seq<char>,
> {
    match spec_patch(version) {
        None => Err("replay.versionMismatch"@),
        Some(p) => if !(exists|k: int| 0 <= k < s.len() && #[trigger] s[k].tencent == tencent) {
            Err("replay.installMissing"@)
        } else {
            let c = compatible(s, tencent, p);
            if c.len() == 0 {
                Err("replay.versionMismatch"@)
            } else if preferred_index(compatible_marks(s, marks, tencent, p)) is Some {
                Ok(c[preferred_index(compatible_marks(s, marks, tencent, p))->0])
            } else if running_count(c) == 1 {
                Ok(c[choose|k: int| 0 <= k < c.len() && #[trigger] c[k].running])
            } else if c.len() != 1 {
                Err("replay.installAmbiguous"@)
            } else {
                Ok(c[0])
            }
        },
    }
}

proof fn lemma_running_one(c: Seq<Installation>, k: int)
    requires
        running_count(c) == 1,
        0 <= k < c.len(),
        c[k].running,
    ensures
        forall|j: int| 0 <= j < c.len() && j != k ==> !(#[trigger] c[j].running),
    decreases c.len(),
{
    if k < c.len() - 1 {
        assert(c.drop_last()[k] == c[k]);
        lemma_running_pos(c.drop_last(), k);
        lemma_running_one(c.drop_last(), k);
        assert forall|j: int| 0 <= j < c.len() && j != k implies !(#[trigger] c[j].running) by {
            if j < c.len() - 1 {
                assert(c.drop_last()[j] == c[j]);
            } else {
                lemma_running_pos(c.drop_last(), k);
            }
        }
    } else {
        assert forall|j: int| 0 <= j < c.len() && j != k implies !(#[trigger] c[j].running) by {
            if c[j].running {
                assert(c.drop_last()[j] == c[j]);
                lemma_running_pos(c.drop_last(), j);
            }
        }
    }
}

proof fn lemma_running_pos(c: Seq<Installation>, k: int)
    requires
        0 <= k < c.len(),
        c[k].running,
    ensures
        running_count(c) >= 1,
    decreases c.len(),
{
    if k < c.len() - 1 {
        assert(c.drop_last()[k] == c[k]);
        lemma_running_pos(c.drop_last(), k);
    }
}

fn version_patch(i: &Installation) -> (r: Option<(u32, u32)>)
    ensures
        r == spec_patch(i.version@),
{
    patch(i.version.as_str())
}

proof fn lemma_marks_len(s: Seq<Installation>, marks: Seq<bool>, tencent: bool, p: (u32, u32))
    requires
        marks.len() == s.len(),
    ensures
        compatible_marks(s, marks, tencent, p).len() == compatible(s, tencent, p).len(),
    decreases s.len(),
{
    if s.len() > 0 {
        lemma_marks_len(s.drop_last(), marks.drop_last(), tencent, p);
    }
}

#[verifier::loop_isolation(false)]
/// Chooses the installation that plays a replay of `version` for the operator family, where
/// `marks[i]` tells whether installation `i` is in the preferred directory; see `spec_select`.
pub fn select_marked(installs: Vec<Installation>, marks: Vec<bool>, tencent: bool, version: &str) -> (r: Result<
    Installation,
    String,
>)
    requires
        marks@.len() == installs@.len(),
    ensures
        match r {
            Ok(i) => spec_select(installs@, marks@, tencent, version@) == Ok::<Installation, Seq<char>>(i),
            Err(e) => spec_select(installs@, marks@, tencent, version@) == Err::<Installation, Seq<char>>(e@),
        },
{
    let p = match patch(version) {
        Some(p) => p,
        None => return Err(owned("replay.versionMismatch")),
    };
    let ghost all = installs@;
    let mut rest = installs;
    let mut family = false;
    let mut c: Vec<Installation> = Vec::new();
    let mut cm: Vec<bool> = Vec::new();
    let mut i: usize = 0;
    let n = rest.len();
    while i < n
        invariant
            n == all.len(),
            marks@.len() == n,
            i <= n,
            rest@ == all.subrange(i as int, n as int),
            c@ == compatible(all.subrange(0, i as int), tencent, p),
            cm@ == compatible_marks(all.subrange(0, i as int), marks@.subrange(0, i as int), tencent, p),
            family == exists|k: int| 0 <= k < i && #[trigger] all[k].tencent == tencent,
        decreases n - i,
    {
        let item = rest.remove(0);
        assert(item == all[i as int]);
        assert(all.subrange(0, i + 1).drop_last() =~= all.subrange(0, i as int));
        assert(marks@.subrange(0, i + 1).drop_last() =~= marks@.subrange(0, i as int));
        if item.tencent == tencent {
            family = true;
        }
        let fits_now = item.tencent == tencent && match version_patch(&item) {
            Some(q) => q.0 == p.0 && q.1 == p.1,
            None => false,
        };
        if fits_now {
            c.push(item);
            cm.push(marks[i]);
        }
        assert(rest@ =~= all.subrange(i + 1, n as int));
        i = i + 1;
    }
    assert(all.subrange(0, n as int) =~= all);
    assert(marks@.subrange(0, n as int) =~= marks@);
    proof {
        lemma_marks_len(all, marks@, tencent, p);
    }
    if !family {
        return Err(owned("replay.installMissing"));
    }
    if c.len() == 0 {
        return Err(owned("replay.versionMismatch"));
    }
    let mut k: usize = 0;
    while k < cm.len()
        invariant
            k <= cm@.len(),
            cm@.len() == c@.len(),
            forall|j: int| 0 <= j < k ==> !cm@[j],
            all == installs@,
            c@ == compatible(all, tencent, p),
            cm@ == compatible_marks(all, marks@, tencent, p),
            spec_patch(version@) == Some(p),
            exists|j: int| 0 <= j < all.len() && #[trigger] all[j].tencent == tencent,
            c@.len() != 0,
        decreases cm.len() - k,
    {
        if cm[k] {
            let ghost cc = c@;
            proof {
                lemma_preferred_index(cm@, k as int);
            }
            let chosen = c.remove(k);
            assert(chosen == cc[k as int]);
            return Ok(chosen);
        }
        k = k + 1;
    }
    assert(!(exists|k: int| first_mark(cm@, k)));
    assert(cm@ == compatible_marks(all, marks@, tencent, p));
    assert(preferred_index(compatible_marks(all, marks@, tencent, p)) is None);
    assert(c@ == compatible(all, tencent, p));
    let mut running: usize = 0;
    let mut at: usize = 0;
    let mut k: usize = 0;
    while k < c.len()
        invariant
            k <= c@.len(),
            running == running_count(c@.subrange(0, k as int)),
            running > 0 ==> at < k && c@[at as int].running,
            running <= k,
        decreases c.len() - k,
    {
        assert(c@.subrange(0, k + 1).drop_last() =~= c@.subrange(0, k as int));
        if c[k].running {
            running = running + 1;
            at = k;
        }
        k = k + 1;
    }
    assert(c@.subrange(0, c@.len() as int) =~= c@);
    if running == 1 {
        proof {
            lemma_running_one(c@, at as int);
            let w = choose|w: int| 0 <= w < c@.len() && #[trigger] c@[w].running;
            if w != at {
                assert(!c@[w].running);
            }
        }
        return Ok(c.remove(at));
    }
    if c.len() != 1 {
        return Err(owned("replay.installAmbiguous"));
    }
    Ok(c.remove(0))
}

/// `Path::new(a) == Path::new(b)` of the standard library: whether the two texts name the same
/// path, component by component as this platform splits paths. Identical texts always do;
/// which other texts do (a trailing separator, another separator character) depends on the
/// platform's path syntax and is not stated.
#[verifier::external_body]
fn same_path(a: &str, b: &str) -> (r: bool)
    ensures
        a@ == b@ ==> r,
{
    std::path::Path::new(a) == std::path::Path::new(b)
}

/// Chooses the installation that plays a replay of `version` for the operator family, an
/// installation whose root is the `preferred` directory first: it marks the installations
/// whose root is that directory as paths compare, then chooses as `select_marked` does. An
/// installation whose root is the very text given is always marked, and none is without a
/// preferred directory.
pub fn select(installs: Vec<Installation>, tencent: bool, version: &str, preferred: Option<&str>) -> (r: Result<
    Installation,
    String,
>)
    ensures
        exists|marks: Seq<bool>|
            #![trigger spec_select(installs@, marks, tencent, version@)]
            {
                &&& marks.len() == installs@.len()
                &&& forall|i: int| 0 <= i < marks.len() ==> (#[trigger] marks[i] ==> preferred is Some)
                    && (preferred matches Some(root) && installs@[i].root@ == root@ ==> marks[i])
                &&& match r {
                    Ok(i) => spec_select(installs@, marks, tencent, version@) == Ok::<Installation, Seq<char>>(i),
                    Err(e) => spec_select(installs@, marks, tencent, version@) == Err::<Installation, Seq<char>>(e@),
                }
            },
{
    let mut marks: Vec<bool> = Vec::new();
    let mut i: usize = 0;
    while i < installs.len()
        invariant
            i <= installs@.len(),
            marks@.len() == i,
            forall|j: int| 0 <= j < i ==> (#[trigger] marks@[j] ==> preferred is Some)
                && (preferred matches Some(root) && installs@[j].root@ == root@ ==> marks@[j]),
        decreases installs.len() - i,
    {
        let mark = match preferred {
            Some(root) => same_path(installs[i].root.as_str(), root),
            None => false,
        };
        marks.push(mark);
        i = i + 1;
    }
    let ghost m = marks@;
    let ghost all = installs@;
    let r = select_marked(installs, marks, tencent, version);
    assert(m.len() == all.len());
    r
}

} // verus!
