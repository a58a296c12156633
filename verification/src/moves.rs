//! Moving matches between sessions: which matches may move, and how the segments they leave
//! are re-created in the destination.
use vstd::prelude::*;
use crate::text::{owned, str_eq};

verus! {

/// A match to move, where it is recorded now: its segment, the segment's session and account,
/// and the participation's state.
#[derive(Debug)]
pub struct MoveRecord {
    pub observation: String,
    pub segment: String,
    pub session: String,
    pub account: String,
    pub state: String,
}

/// The matches of one segment that move together into one new segment of the destination.
#[derive(Debug)]
pub struct SegmentMove {
    /// The segment they leave.
    pub segment: String,
    pub account: String,
    pub observations: Vec<String>,
}

impl View for SegmentMove {
    type V = (Seq<char>, Seq<char>, Seq<Seq<char>>);

    open spec fn view(&self) -> Self::V {
        (self.segment@, self.account@, self.observations@.map_values(|o: String| o@))
    }
}

/// Only matches whose results are in may move.
pub open spec fn all_ready(records: Seq<MoveRecord>) -> bool {
    forall|i: int| 0 <= i < records.len() ==> (#[trigger] records[i]).state@ == "ready"@
}

/// The position of the group of segment `segment`, if there is one.
pub open spec fn group_of(groups: Seq<(Seq<char>, Seq<char>, Seq<Seq<char>>)>, segment: Seq<char>) -> Option<int>
    decreases groups.len(),
{
    if groups.len() == 0 {
        None
    } else if groups.last().0 == segment {
        Some(groups.len() - 1)
    } else {
        group_of(groups.drop_last(), segment)
    }
}

/// The groups after one more record: a record already in the destination stays; another joins
/// the group of its segment, or starts one.
pub open spec fn add_record(
    groups: Seq<(Seq<char>, Seq<char>, Seq<Seq<char>>)>,
    r: MoveRecord,
    target: Seq<char>,
) -> Seq<(Seq<char>, Seq<char>, Seq<Seq<char>>)> {
    if r.session@ == target {
        groups
    } else {
        match group_of(groups, r.segment@) {
            Some(k) => groups.update(k, (groups[k].0, groups[k].1, groups[k].2.push(r.observation@))),
            None => groups.push((r.segment@, r.account@, seq![r.observation@])),
        }
    }
}

/// The segments that a move re-creates, in the order their first match appears, each with
/// the matches that leave it.
pub open spec fn move_groups(records: Seq<MoveRecord>, target: Seq<char>) -> Seq<(Seq<char>, Seq<char>, Seq<Seq<char>>)>
    decreases records.len(),
{
    if records.len() == 0 {
        Seq::empty()
    } else {
        add_record(move_groups(records.drop_last(), target), records.last(), target)
    }
}

fn find_group(groups: &Vec<SegmentMove>, segment: &str) -> (r: Option<usize>)
    ensures
        match r {
            Some(k) => group_of(groups@.map_values(|g: SegmentMove| g@), segment@) == Some(k as int) && k < groups@.len(),
            None => group_of(groups@.map_values(|g: SegmentMove| g@), segment@) is None,
        },
{
    let ghost v = groups@.map_values(|g: SegmentMove| g@);
    let mut k: usize = groups.len();
    assert(v.take(k as int) =~= v);
    while k > 0
        invariant
            k <= groups@.len(),
            v == groups@.map_values(|g: SegmentMove| g@),
            group_of(v, segment@) == group_of(v.take(k as int), segment@),
        decreases k,
    {
        if str_eq(groups[k - 1].segment.as_str(), segment) {
            assert(v.take(k as int).last() == v[k - 1]);
            return Some(k - 1);
        }
        assert(v.take(k as int).drop_last() =~= v.take(k - 1));
        k = k - 1;
    }
    None
}

/// The plan of a move into session `target`: `session.matchActive` when a match's results are
/// not in yet; else the segments to re-create, see `move_groups`.
pub fn plan_move(records: &Vec<MoveRecord>, target: &str) -> (r: Result<Vec<SegmentMove>, String>)
    ensures
        match r {
            Ok(groups) => all_ready(records@) && groups@.map_values(|g: SegmentMove| g@) == move_groups(records@, target@),
            Err(e) => !all_ready(records@) && e@ == "session.matchActive"@,
        },
{
    let mut i: usize = 0;
    while i < records.len()
        invariant
            i <= records@.len(),
            forall|j: int| 0 <= j < i ==> (#[trigger] records@[j]).state@ == "ready"@,
        decreases records.len() - i,
    {
        if !str_eq(records[i].state.as_str(), "ready") {
            return Err(owned("session.matchActive"));
        }
        i = i + 1;
    }
    let mut groups: Vec<SegmentMove> = Vec::new();
    let mut i: usize = 0;
    assert(records@.take(0) =~= Seq::<MoveRecord>::empty());
    assert(groups@.map_values(|g: SegmentMove| g@) =~= Seq::<(Seq<char>, Seq<char>, Seq<Seq<char>>)>::empty());
    while i < records.len()
        invariant
            i <= records@.len(),
            all_ready(records@),
            groups@.map_values(|g: SegmentMove| g@) == move_groups(records@.take(i as int), target@),
        decreases records.len() - i,
    {
        let r = &records[i];
        proof {
            assert(records@.take(i + 1).drop_last() =~= records@.take(i as int));
            assert(records@.take(i + 1).last() == records@[i as int]);
        }
        let ghost before = groups@.map_values(|g: SegmentMove| g@);
        if !str_eq(r.session.as_str(), target) {
            match find_group(&groups, r.segment.as_str()) {
                Some(k) => {
                    let mut g = groups.remove(k);
                    let ghost old_g = g@;
                    g.observations.push(owned(r.observation.as_str()));
                    assert(g@.2 =~= old_g.2.push(r.observation@));
                    groups.insert(k, g);
                    assert(groups@.map_values(|g: SegmentMove| g@) =~= before.update(
                        k as int,
                        (before[k as int].0, before[k as int].1, before[k as int].2.push(r.observation@)),
                    ));
                },
                None => {
                    let mut observations: Vec<String> = Vec::new();
                    observations.push(owned(r.observation.as_str()));
                    let g = SegmentMove {
                        segment: owned(r.segment.as_str()),
                        account: owned(r.account.as_str()),
                        observations,
                    };
                    assert(g@.2 =~= seq![r.observation@]);
                    groups.push(g);
                    assert(groups@.map_values(|g: SegmentMove| g@) =~= before.push(
                        (r.segment@, r.account@, seq![r.observation@]),
                    ));
                },
            }
        }
        i = i + 1;
    }
    assert(records@.take(records@.len() as int) =~= records@);
    Ok(groups)
}

} // verus!
