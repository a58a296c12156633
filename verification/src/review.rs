//! The review of a stored game: its summary and the events of its timeline that the review
//! shows.
use vstd::prelude::*;
use crate::domain::{Account, EventKind, EventLabel, GameParticipant, LibraryEntry, ReviewEvent, ReviewGame, StoredReview};
use crate::matches::{spec_validate_detail, validate_detail};
use crate::projection::creation_time;
use crate::matches::{account_in_game, spec_account_in_game};
use crate::regions::{server_for_platform, spec_server_for_platform};
use crate::json::{Json, field, json_bool, json_items, json_small, json_text, json_u64, field_bool, field_items, field_small, field_text, field_u64, member};
use crate::matches::{nonempty, nonempty_text};
use crate::projection::{lemma_summary_ids, project, roster_has_id, spec_project_ok, summary_of};
use crate::text::{decimal, decimal_text, owned, str_eq};

verus! {

/// The kind and label of an event that the review shows, and whether it concerns an item.
/// An undone item event is an undone sale when nothing was there before it, an undone
/// purchase when nothing is there after it.
pub open spec fn classify(event: Json) -> Option<(EventKind, EventLabel, bool)> {
    match json_text(field(event, "type"@)) {
        Some(t) => if t == "ITEM_PURCHASED"@ {
            Some((EventKind::Purchase, EventLabel::Purchase, true))
        } else if t == "ITEM_SOLD"@ {
            Some((EventKind::Sale, EventLabel::Sale, true))
        } else if t == "ITEM_UNDO"@ {
            Some((
                EventKind::Undo,
                if json_small(field(event, "beforeId"@)) == 0 {
                    EventLabel::UndoSale
                } else if json_small(field(event, "afterId"@)) == 0 {
                    EventLabel::UndoPurchase
                } else {
                    EventLabel::Undo
                },
                true,
            ))
        } else if t == "ITEM_DESTROYED"@ {
            Some((EventKind::Destroy, EventLabel::Destroy, true))
        } else if t == "CHAMPION_KILL"@ {
            Some((EventKind::Kill, EventLabel::Kill, false))
        } else if t == "BUILDING_KILL"@ || t == "ELITE_MONSTER_KILL"@ {
            Some((EventKind::Objective, EventLabel::Objective, false))
        } else {
            None
        },
        None => None,
    }
}

/// The item of an item event: the first of `itemId`, `beforeId`, `afterId` that is set.
pub open spec fn item_of(event: Json) -> u32 {
    let a = json_small(field(event, "itemId"@));
    let b = json_small(field(event, "beforeId"@));
    let c = json_small(field(event, "afterId"@));
    if a > 0 {
        a
    } else if b > 0 {
        b
    } else {
        c
    }
}

/// Event `ei` of frame `fi`, as the review shows it: a shown kind, a timestamp, a time (in
/// whole seconds) within the game, and an actor (the participant of an item event, the killer
/// otherwise) who took part.
pub open spec fn review_event(
    raw_id: Seq<char>,
    duration: u32,
    pids: Seq<u32>,
    fi: nat,
    ei: nat,
    event: Json,
) -> Option<(Seq<char>, u32, u32, EventKind, EventLabel, Option<u32>, Option<u32>, Seq<char>)> {
    match classify(event) {
        None => None,
        Some((kind, label, item)) => match json_u64(field(event, "timestamp"@)) {
            None => None,
            Some(ts) => {
                let at = ts / 1000;
                let actor = json_small(field(event, if item { "participantId"@ } else { "killerId"@ }));
                if at > duration || !pids.contains(actor) {
                    None
                } else {
                    Some((
                        raw_id + ":"@ + decimal(fi) + ":"@ + decimal(ei),
                        at as u32,
                        actor,
                        kind,
                        label,
                        if item { Some(item_of(event)) } else { None },
                        if kind == EventKind::Undo { Some(json_small(field(event, "afterId"@))) } else { None },
                        match json_text(field(event, "monsterType"@)) {
                            Some(m) => m,
                            None => Seq::empty(),
                        },
                    ))
                }
            },
        },
    }
}

/// The shown events of frame `fi`, in order.
pub open spec fn frame_events(raw_id: Seq<char>, duration: u32, pids: Seq<u32>, fi: nat, events: Seq<Json>) -> Seq<
    (Seq<char>, u32, u32, EventKind, EventLabel, Option<u32>, Option<u32>, Seq<char>),
>
    decreases events.len(),
{
    if events.len() == 0 {
        Seq::empty()
    } else {
        let rest = frame_events(raw_id, duration, pids, fi, events.drop_last());
        match review_event(raw_id, duration, pids, fi, (events.len() - 1) as nat, events.last()) {
            Some(e) => rest.push(e),
            None => rest,
        }
    }
}

/// The shown events of all frames, frame by frame; a frame without an event list has none.
pub open spec fn timeline_events(raw_id: Seq<char>, duration: u32, pids: Seq<u32>, frames: Seq<Json>) -> Seq<
    (Seq<char>, u32, u32, EventKind, EventLabel, Option<u32>, Option<u32>, Seq<char>),
>
    decreases frames.len(),
{
    if frames.len() == 0 {
        Seq::empty()
    } else {
        timeline_events(raw_id, duration, pids, frames.drop_last()) + match json_items(
            field(frames.last(), "events"@),
        ) {
            Some(events) => frame_events(raw_id, duration, pids, (frames.len() - 1) as nat, events),
            None => Seq::empty(),
        }
    }
}

/// Every event the review shows of a frame happened within the game and names a participant.
pub proof fn lemma_frame_events_bounded(raw_id: Seq<char>, duration: u32, pids: Seq<u32>, fi: nat, events: Seq<Json>)
    ensures
        forall|k: int| 0 <= k < frame_events(raw_id, duration, pids, fi, events).len() ==> {
            let e = #[trigger] frame_events(raw_id, duration, pids, fi, events)[k];
            e.1 <= duration && pids.contains(e.2)
        },
    decreases events.len(),
{
    if events.len() > 0 {
        lemma_frame_events_bounded(raw_id, duration, pids, fi, events.drop_last());
        let rest = frame_events(raw_id, duration, pids, fi, events.drop_last());
        let all = frame_events(raw_id, duration, pids, fi, events);
        assert forall|k: int| 0 <= k < all.len() implies {
            let e = #[trigger] all[k];
            e.1 <= duration && pids.contains(e.2)
        } by {
            if k < rest.len() {
                assert(all[k] == rest[k]);
            }
        }
    }
}

/// Every event the review shows of a timeline happened within the game (its time is at most
/// the game's duration) and names a participant of the game.
pub proof fn lemma_timeline_events_bounded(raw_id: Seq<char>, duration: u32, pids: Seq<u32>, frames: Seq<Json>)
    ensures
        forall|k: int| 0 <= k < timeline_events(raw_id, duration, pids, frames).len() ==> {
            let e = #[trigger] timeline_events(raw_id, duration, pids, frames)[k];
            e.1 <= duration && pids.contains(e.2)
        },
    decreases frames.len(),
{
    if frames.len() > 0 {
        lemma_timeline_events_bounded(raw_id, duration, pids, frames.drop_last());
        let head = timeline_events(raw_id, duration, pids, frames.drop_last());
        let tail = match json_items(field(frames.last(), "events"@)) {
            Some(events) => frame_events(raw_id, duration, pids, (frames.len() - 1) as nat, events),
            None => Seq::empty(),
        };
        if let Some(events) = json_items(field(frames.last(), "events"@)) {
            lemma_frame_events_bounded(raw_id, duration, pids, (frames.len() - 1) as nat, events);
        }
        let all = timeline_events(raw_id, duration, pids, frames);
        assert(all == head + tail);
        assert forall|k: int| 0 <= k < all.len() implies {
            let e = #[trigger] all[k];
            e.1 <= duration && pids.contains(e.2)
        } by {
            if k < head.len() {
                assert(all[k] == head[k]);
            } else {
                assert(all[k] == tail[k - head.len()]);
            }
        }
    }
}

/// The id an event of the review gets: the stored game's id, the frame's position and the
/// event's position in its frame.
pub open spec fn event_id(raw_id: Seq<char>, fi: nat, ei: nat) -> Seq<char> {
    raw_id + ":"@ + decimal(fi) + ":"@ + decimal(ei)
}

/// `id` names an event of frame `fi` at a position below `count`.
pub open spec fn frame_event_id(raw_id: Seq<char>, fi: nat, count: nat, id: Seq<char>) -> bool {
    exists|ei: nat| ei < count && id == #[trigger] event_id(raw_id, fi, ei)
}

/// `id` names an event of a frame at a position below `frames`.
pub open spec fn timeline_event_id(raw_id: Seq<char>, frames: nat, id: Seq<char>) -> bool {
    exists|fi: nat, ei: nat| fi < frames && id == #[trigger] event_id(raw_id, fi, ei)
}

proof fn lemma_frame_event_ids(raw_id: Seq<char>, duration: u32, pids: Seq<u32>, fi: nat, events: Seq<Json>)
    ensures
        forall|k: int| 0 <= k < frame_events(raw_id, duration, pids, fi, events).len() ==> frame_event_id(
            raw_id,
            fi,
            events.len(),
            (#[trigger] frame_events(raw_id, duration, pids, fi, events)[k]).0,
        ),
    decreases events.len(),
{
    if events.len() > 0 {
        lemma_frame_event_ids(raw_id, duration, pids, fi, events.drop_last());
        let rest = frame_events(raw_id, duration, pids, fi, events.drop_last());
        let all = frame_events(raw_id, duration, pids, fi, events);
        assert forall|k: int| 0 <= k < all.len() implies frame_event_id(raw_id, fi, events.len(), (#[trigger] all[k]).0) by {
            if k < rest.len() {
                assert(all[k] == rest[k]);
                assert(frame_event_id(raw_id, fi, events.drop_last().len(), rest[k].0));
                let ei = choose|ei: nat| ei < events.drop_last().len() && rest[k].0 == #[trigger] event_id(raw_id, fi, ei);
                assert(all[k].0 == event_id(raw_id, fi, ei));
            } else {
                let ei = (events.len() - 1) as nat;
                assert(all[k].0 == event_id(raw_id, fi, ei));
            }
        }
    }
}

/// Law: every event the review shows is named by the stored game's id, the position of its
/// frame among the timeline's frames and its position in that frame.
pub proof fn lemma_timeline_event_ids(raw_id: Seq<char>, duration: u32, pids: Seq<u32>, frames: Seq<Json>)
    ensures
        forall|k: int| 0 <= k < timeline_events(raw_id, duration, pids, frames).len() ==> timeline_event_id(
            raw_id,
            frames.len(),
            (#[trigger] timeline_events(raw_id, duration, pids, frames)[k]).0,
        ),
    decreases frames.len(),
{
    if frames.len() > 0 {
        lemma_timeline_event_ids(raw_id, duration, pids, frames.drop_last());
        let head = timeline_events(raw_id, duration, pids, frames.drop_last());
        let fi = (frames.len() - 1) as nat;
        let tail = match json_items(field(frames.last(), "events"@)) {
            Some(events) => frame_events(raw_id, duration, pids, fi, events),
            None => Seq::empty(),
        };
        if let Some(events) = json_items(field(frames.last(), "events"@)) {
            lemma_frame_event_ids(raw_id, duration, pids, fi, events);
        }
        let all = timeline_events(raw_id, duration, pids, frames);
        assert(all == head + tail);
        assert forall|k: int| 0 <= k < all.len() implies timeline_event_id(raw_id, frames.len(), (#[trigger] all[k]).0) by {
            if k < head.len() {
                assert(all[k] == head[k]);
                assert(timeline_event_id(raw_id, frames.drop_last().len(), head[k].0));
                let (f, ei) = choose|f: nat, ei: nat| f < frames.drop_last().len() && head[k].0 == #[trigger] event_id(raw_id, f, ei);
                assert(all[k].0 == event_id(raw_id, f, ei));
            } else {
                assert(all[k] == tail[k - head.len()]);
                let events = json_items(field(frames.last(), "events"@))->0;
                assert(frame_event_id(raw_id, fi, events.len(), tail[k - head.len()].0));
                let ei = choose|ei: nat| ei < events.len() && tail[k - head.len()].0 == #[trigger] event_id(raw_id, fi, ei);
                assert(all[k].0 == event_id(raw_id, fi, ei));
            }
        }
    }
}

/// The timeline event types of a kind of review event.
pub open spec fn kind_has_type(kind: EventKind, t: Seq<char>) -> bool {
    match kind {
        EventKind::Purchase => t == "ITEM_PURCHASED"@,
        EventKind::Sale => t == "ITEM_SOLD"@,
        EventKind::Undo => t == "ITEM_UNDO"@,
        EventKind::Destroy => t == "ITEM_DESTROYED"@,
        EventKind::Kill => t == "CHAMPION_KILL"@,
        EventKind::Objective => t == "BUILDING_KILL"@ || t == "ELITE_MONSTER_KILL"@,
    }
}

/// The shown event `e` comes from the timeline event `ev`, event `ei` of frame `fi`: it is
/// named after them, its kind matches the event's type, its time is the event's timestamp in
/// whole seconds, and its actor is the event's `killerId` for kills and objectives and its
/// `participantId` for item events.
pub open spec fn shows_event(
    e: (Seq<char>, u32, u32, EventKind, EventLabel, Option<u32>, Option<u32>, Seq<char>),
    ev: Json,
    raw_id: Seq<char>,
    fi: nat,
    ei: nat,
) -> bool {
    &&& e.0 == event_id(raw_id, fi, ei)
    &&& (json_text(field(ev, "type"@)) matches Some(t) && kind_has_type(e.3, t))
    &&& (json_u64(field(ev, "timestamp"@)) matches Some(ts) && e.1 == ts / 1000)
    &&& e.2 == json_small(field(ev, if e.3 == EventKind::Kill || e.3 == EventKind::Objective {
        "killerId"@
    } else {
        "participantId"@
    }))
}

/// Some event of the frame's list is the source of `e`.
pub open spec fn from_frame_event(
    e: (Seq<char>, u32, u32, EventKind, EventLabel, Option<u32>, Option<u32>, Seq<char>),
    events: Seq<Json>,
    raw_id: Seq<char>,
    fi: nat,
) -> bool {
    exists|ei: nat| ei < events.len() && #[trigger] shows_event(e, events[ei as int], raw_id, fi, ei)
}

/// Some event of some frame is the source of `e`.
pub open spec fn from_timeline_event(
    e: (Seq<char>, u32, u32, EventKind, EventLabel, Option<u32>, Option<u32>, Seq<char>),
    frames: Seq<Json>,
    raw_id: Seq<char>,
) -> bool {
    exists|fi: nat, ei: nat|
        fi < frames.len() && ei < frame_items(frames[fi as int]).len()
            && #[trigger] shows_event(e, frame_items(frames[fi as int])[ei as int], raw_id, fi, ei)
}

/// The events a frame lists (none when it lists none).
pub open spec fn frame_items(frame: Json) -> Seq<Json> {
    match json_items(field(frame, "events"@)) {
        Some(events) => events,
        None => Seq::empty(),
    }
}

proof fn lemma_review_event_shows(
    raw_id: Seq<char>,
    duration: u32,
    pids: Seq<u32>,
    fi: nat,
    ei: nat,
    ev: Json,
)
    requires
        review_event(raw_id, duration, pids, fi, ei, ev) is Some,
    ensures
        shows_event(review_event(raw_id, duration, pids, fi, ei, ev)->0, ev, raw_id, fi, ei),
{
}

proof fn lemma_frame_events_show(raw_id: Seq<char>, duration: u32, pids: Seq<u32>, fi: nat, events: Seq<Json>)
    ensures
        forall|k: int| 0 <= k < frame_events(raw_id, duration, pids, fi, events).len() ==> from_frame_event(
            #[trigger] frame_events(raw_id, duration, pids, fi, events)[k],
            events,
            raw_id,
            fi,
        ),
    decreases events.len(),
{
    if events.len() > 0 {
        let rest_events = events.drop_last();
        lemma_frame_events_show(raw_id, duration, pids, fi, rest_events);
        let rest = frame_events(raw_id, duration, pids, fi, rest_events);
        let all = frame_events(raw_id, duration, pids, fi, events);
        assert forall|k: int| 0 <= k < all.len() implies from_frame_event(#[trigger] all[k], events, raw_id, fi) by {
            if k < rest.len() {
                assert(all[k] == rest[k]);
                assert(from_frame_event(rest[k], rest_events, raw_id, fi));
                let ei = choose|ei: nat| ei < rest_events.len() && #[trigger] shows_event(rest[k], rest_events[ei as int], raw_id, fi, ei);
                assert(rest_events[ei as int] == events[ei as int]);
                assert(shows_event(all[k], events[ei as int], raw_id, fi, ei));
            } else {
                let ei = (events.len() - 1) as nat;
                lemma_review_event_shows(raw_id, duration, pids, fi, ei, events.last());
                assert(shows_event(all[k], events[ei as int], raw_id, fi, ei));
            }
        }
    }
}

/// Law: every event the review shows comes from an event of the stored timeline: it is named
/// after the event's frame and position, its kind matches the event's type, its time is the
/// event's timestamp in whole seconds, and its actor is the killer of a kill or objective and
/// the participant of an item event.
pub proof fn lemma_timeline_events_show(raw_id: Seq<char>, duration: u32, pids: Seq<u32>, frames: Seq<Json>)
    ensures
        forall|k: int| 0 <= k < timeline_events(raw_id, duration, pids, frames).len() ==> from_timeline_event(
            #[trigger] timeline_events(raw_id, duration, pids, frames)[k],
            frames,
            raw_id,
        ),
    decreases frames.len(),
{
    if frames.len() > 0 {
        let rest_frames = frames.drop_last();
        lemma_timeline_events_show(raw_id, duration, pids, rest_frames);
        let head = timeline_events(raw_id, duration, pids, rest_frames);
        let fi = (frames.len() - 1) as nat;
        let tail = match json_items(field(frames.last(), "events"@)) {
            Some(events) => frame_events(raw_id, duration, pids, fi, events),
            None => Seq::empty(),
        };
        if let Some(events) = json_items(field(frames.last(), "events"@)) {
            lemma_frame_events_show(raw_id, duration, pids, fi, events);
        }
        let all = timeline_events(raw_id, duration, pids, frames);
        assert(all == head + tail);
        assert forall|k: int| 0 <= k < all.len() implies from_timeline_event(#[trigger] all[k], frames, raw_id) by {
            if k < head.len() {
                assert(all[k] == head[k]);
                assert(from_timeline_event(head[k], rest_frames, raw_id));
                let (f, ei) = choose|f: nat, ei: nat|
                    f < rest_frames.len() && ei < frame_items(rest_frames[f as int]).len()
                        && #[trigger] shows_event(head[k], frame_items(rest_frames[f as int])[ei as int], raw_id, f, ei);
                assert(rest_frames[f as int] == frames[f as int]);
                assert(shows_event(all[k], frame_items(frames[f as int])[ei as int], raw_id, f, ei));
            } else {
                assert(all[k] == tail[k - head.len()]);
                let events = json_items(field(frames.last(), "events"@))->0;
                assert(from_frame_event(tail[k - head.len()], events, raw_id, fi));
                let ei = choose|ei: nat| ei < events.len() && #[trigger] shows_event(tail[k - head.len()], events[ei as int], raw_id, fi, ei);
                assert(frames[fi as int] == frames.last());
                assert(frame_items(frames[fi as int]) == events);
                assert(shows_event(all[k], frame_items(frames[fi as int])[ei as int], raw_id, fi, ei));
            }
        }
    }
}

/// Law: each event the review of a game shows names a participant of the game's roster, at a
/// time within the game; a timeline whose frame list is empty shows no event.
pub proof fn lemma_review_events_on_roster(g: crate::domain::GameSummary, detail: Json, raw_id: Seq<char>, frames: Seq<Json>)
    requires
        spec_project_ok(detail),
        summary_of(g, detail),
    ensures
        forall|k: int| 0 <= k < timeline_events(raw_id, g.duration, participant_ids(g.participants@), frames).len() ==> {
            let e = #[trigger] timeline_events(raw_id, g.duration, participant_ids(g.participants@), frames)[k];
            e.1 <= g.duration && roster_has_id(json_items(field(detail, "participants"@))->0, e.2)
        },
        frames.len() == 0 ==> timeline_events(raw_id, g.duration, participant_ids(g.participants@), frames).len() == 0,
{
    let pids = participant_ids(g.participants@);
    let evs = timeline_events(raw_id, g.duration, pids, frames);
    lemma_timeline_events_bounded(raw_id, g.duration, pids, frames);
    lemma_summary_ids(g, detail);
    assert forall|k: int| 0 <= k < evs.len() implies {
        let e = #[trigger] evs[k];
        e.1 <= g.duration && roster_has_id(json_items(field(detail, "participants"@))->0, e.2)
    } by {
        let e = evs[k];
        assert(pids.contains(e.2));
        let m = choose|m: int| 0 <= m < pids.len() && pids[m] == e.2;
        assert(g.participants@[m].id == e.2);
    }
}

/// The `frames` of a stored timeline, when there is one and it lists frames.
pub open spec fn frames_of(timeline: Option<Json>) -> Option<Seq<Json>> {
    match timeline {
        Some(t) => json_items(field(t, "frames"@)),
        None => None,
    }
}

/// The name of the queue: the game mode, else the game type.
pub open spec fn queue_name_of(detail: Json) -> Seq<char> {
    match nonempty(json_text(field(detail, "gameMode"@))) {
        Some(m) => m,
        None => match json_text(field(detail, "gameType"@)) {
            Some(t) => t,
            None => Seq::empty(),
        },
    }
}

/// The ids of the participants.
pub open spec fn participant_ids(ps: Seq<GameParticipant>) -> Seq<u32> {
    ps.map_values(|p: GameParticipant| p.id)
}

fn takes_part(ps: &Vec<GameParticipant>, id: u32) -> (r: bool)
    ensures
        r == participant_ids(ps@).contains(id),
{
    let mut k: usize = 0;
    while k < ps.len()
        invariant
            k <= ps@.len(),
            forall|m: int| 0 <= m < k ==> ps@[m].id != id,
        decreases ps.len() - k,
    {
        if ps[k].id == id {
            assert(participant_ids(ps@)[k as int] == id);
            return true;
        }
        k = k + 1;
    }
    assert forall|m: int| 0 <= m < participant_ids(ps@).len() implies participant_ids(ps@)[m] != id by {
        assert(ps@[m].id != id);
    }
    false
}

fn classify_of(event: &Json) -> (r: Option<(EventKind, EventLabel, bool)>)
    ensures
        r == classify(*event),
{
    let t = match field_text(event, "type") {
        Some(t) => t,
        None => return None,
    };
    if str_eq(t, "ITEM_PURCHASED") {
        Some((EventKind::Purchase, EventLabel::Purchase, true))
    } else if str_eq(t, "ITEM_SOLD") {
        Some((EventKind::Sale, EventLabel::Sale, true))
    } else if str_eq(t, "ITEM_UNDO") {
        let label = if field_small(event, "beforeId") == 0 {
            EventLabel::UndoSale
        } else if field_small(event, "afterId") == 0 {
            EventLabel::UndoPurchase
        } else {
            EventLabel::Undo
        };
        Some((EventKind::Undo, label, true))
    } else if str_eq(t, "ITEM_DESTROYED") {
        Some((EventKind::Destroy, EventLabel::Destroy, true))
    } else if str_eq(t, "CHAMPION_KILL") {
        Some((EventKind::Kill, EventLabel::Kill, false))
    } else if str_eq(t, "BUILDING_KILL") || str_eq(t, "ELITE_MONSTER_KILL") {
        Some((EventKind::Objective, EventLabel::Objective, false))
    } else {
        None
    }
}

fn event_of(
    raw_id: &str,
    duration: u32,
    ps: &Vec<GameParticipant>,
    fi: usize,
    ei: usize,
    event: &Json,
) -> (r: Option<ReviewEvent>)
    ensures
        match r {
            Some(e) => review_event(raw_id@, duration, participant_ids(ps@), fi as nat, ei as nat, *event) == Some(e@),
            None => review_event(raw_id@, duration, participant_ids(ps@), fi as nat, ei as nat, *event) is None,
        },
{
    let (kind, label, item) = match classify_of(event) {
        Some(c) => c,
        None => return None,
    };
    let ts = match field_u64(event, "timestamp") {
        Some(ts) => ts,
        None => return None,
    };
    let at = ts / 1000;
    let actor = if item {
        field_small(event, "participantId")
    } else {
        field_small(event, "killerId")
    };
    if at > duration as u64 || !takes_part(ps, actor) {
        return None;
    }
    let item_id = if item {
        let a = field_small(event, "itemId");
        let b = field_small(event, "beforeId");
        let c = field_small(event, "afterId");
        Some(if a > 0 {
            a
        } else if b > 0 {
            b
        } else {
            c
        })
    } else {
        None
    };
    let restored = if kind == EventKind::Undo {
        Some(field_small(event, "afterId"))
    } else {
        None
    };
    let monster = match field_text(event, "monsterType") {
        Some(m) => owned(m),
        None => String::new(),
    };
    let mut id = owned(raw_id);
    id.append(":");
    id.append(decimal_text(fi as u64).as_str());
    id.append(":");
    id.append(decimal_text(ei as u64).as_str());
    Some(ReviewEvent {
        id,
        at: at as u32,
        participant_id: actor,
        kind,
        label,
        item_id,
        restored_item_id: restored,
        monster,
    })
}

fn events_of(raw_id: &str, duration: u32, ps: &Vec<GameParticipant>, frames: &Vec<Json>) -> (r: Vec<ReviewEvent>)
    ensures
        r@.map_values(|e: ReviewEvent| e@) == timeline_events(raw_id@, duration, participant_ids(ps@), frames@),
{
    let ghost pids = participant_ids(ps@);
    let mut out: Vec<ReviewEvent> = Vec::new();
    let mut fi: usize = 0;
    while fi < frames.len()
        invariant
            fi <= frames@.len(),
            pids == participant_ids(ps@),
            out@.map_values(|e: ReviewEvent| e@) == timeline_events(raw_id@, duration, pids, frames@.take(fi as int)),
        decreases frames.len() - fi,
    {
        let ghost before = out@.map_values(|e: ReviewEvent| e@);
        assert(frames@.take(fi + 1).drop_last() =~= frames@.take(fi as int));
        match field_items(&frames[fi], "events") {
            Some(rows) => {
                let mut ei: usize = 0;
                assert(frame_events(raw_id@, duration, pids, fi as nat, rows@.take(0)) =~= Seq::empty());
                assert(before + Seq::empty() =~= before);
                while ei < rows.len()
                    invariant
                        ei <= rows@.len(),
                        pids == participant_ids(ps@),
                        out@.map_values(|e: ReviewEvent| e@) == before + frame_events(
                            raw_id@,
                            duration,
                            pids,
                            fi as nat,
                            rows@.take(ei as int),
                        ),
                    decreases rows.len() - ei,
                {
                    assert(rows@.take(ei + 1).drop_last() =~= rows@.take(ei as int));
                    let ghost prev = out@.map_values(|e: ReviewEvent| e@);
                    match event_of(raw_id, duration, ps, fi, ei, &rows[ei]) {
                        Some(e) => {
                            out.push(e);
                            assert(out@.map_values(|e: ReviewEvent| e@) =~= prev.push(e@));
                        },
                        None => {},
                    }
                    ei = ei + 1;
                }
                assert(rows@.take(ei as int) =~= rows@);
            },
            None => {
                assert(before + Seq::empty() =~= before);
            },
        }
        fi = fi + 1;
    }
    assert(frames@.take(fi as int) =~= frames@);
    out
}

/// A stored game as the review shows it. Fails with `game.invalidData` when its document
/// cannot be projected, else with `game.invalidId` when it has no positive `gameId`. The
/// timeline is absent when none is stored or it lists no frames.
pub fn review_game(raw: StoredReview) -> (r: Result<ReviewGame, String>)
    ensures
        match r {
            Ok(g) => {
                &&& spec_project_ok(raw.detail)
                &&& json_u64(field(raw.detail, "gameId"@)) matches Some(n) && n > 0 && g.game_id@ == decimal(n as nat)
                &&& summary_of(g.game, raw.detail)
                &&& g.id == raw.id && g.server == raw.server && g.account == raw.account
                &&& g.queue_name@ == queue_name_of(raw.detail)
                &&& g.source == raw.source && g.timeline_error == raw.timeline_error && g.bookmarked == raw.bookmarked
                &&& match frames_of(raw.timeline) {
                    None => g.timeline is None,
                    Some(frames) => g.timeline matches Some(t) && t@.map_values(|e: ReviewEvent| e@)
                        == timeline_events(raw.id@, g.game.duration, participant_ids(g.game.participants@), frames),
                }
            },
            Err(e) => if !spec_project_ok(raw.detail) {
                e@ == "game.invalidData"@
            } else {
                e@ == "game.invalidId"@ && !(json_u64(field(raw.detail, "gameId"@)) matches Some(n) && n > 0)
            },
        },
{
    let game = project(&raw.detail)?;
    let n = match field_u64(&raw.detail, "gameId") {
        Some(n) => n,
        None => return Err(owned("game.invalidId")),
    };
    if n == 0 {
        return Err(owned("game.invalidId"));
    }
    let timeline = match &raw.timeline {
        Some(t) => match field_items(t, "frames") {
            Some(frames) => Some(events_of(raw.id.as_str(), game.duration, &game.participants, frames)),
            None => None,
        },
        None => None,
    };
    let queue_name = match nonempty_text(field_text(&raw.detail, "gameMode")) {
        Some(m) => owned(m),
        None => match field_text(&raw.detail, "gameType") {
            Some(t) => owned(t),
            None => String::new(),
        },
    };
    Ok(ReviewGame {
        id: raw.id,
        game_id: decimal_text(n),
        server: raw.server,
        account: raw.account,
        game,
        queue_name,
        timeline,
        source: raw.source,
        timeline_error: raw.timeline_error,
        bookmarked: raw.bookmarked,
    })
}

/// A count of the library: an unsigned number cut to 32 bits, or 0.
pub open spec fn count_of(v: Json) -> u32 {
    (match json_u64(v) {
        Some(n) => n,
        None => 0,
    }) as u32
}

fn count_field(v: &Json, key: &str) -> (r: u32)
    ensures
        r == count_of(field(*v, key@)),
{
    let n = match field_u64(v, key) {
        Some(n) => n,
        None => 0,
    };
    #[verifier::truncate]
    (n as u32)
}

/// The library's entry for a reviewed game: the account's participant with its champion,
/// result, kills, deaths, assists and seven item slots, and the game's start, duration,
/// queue and version.
pub open spec fn library_entry_of(entry: LibraryEntry, game: StoredReview, participant: Json) -> bool {
    let stats = field(participant, "stats"@);
    &&& entry.id@ == game.id@ && entry.server@ == game.server@ && entry.account@ == game.account@
    &&& entry.bookmarked == game.bookmarked
    &&& entry.champion_id == count_of(field(participant, "championId"@))
    &&& entry.started_at == creation_time(field(game.detail, "gameCreation"@))
    &&& entry.duration == count_of(field(game.detail, "gameDuration"@))
    &&& json_bool(field(stats, "win"@)) == Some(entry.win)
    &&& entry.kills == count_of(field(stats, "kills"@))
    &&& entry.deaths == count_of(field(stats, "deaths"@))
    &&& entry.assists == count_of(field(stats, "assists"@))
    &&& entry.items@ == Seq::new(7, |i: int| count_of(field(stats, "item"@ + decimal(i as nat))))
    &&& entry.queue_id == count_of(field(game.detail, "queueId"@))
    &&& entry.version@ == match json_text(field(game.detail, "gameVersion"@)) {
        Some(v) => v,
        None => Seq::empty(),
    }
}

/// The library entry of a stored review; `library.invalidData` unless the stored document is
/// the account's finished game.
pub fn library_entry(game: StoredReview) -> (r: Result<LibraryEntry, String>)
    ensures
        match r {
            Ok(entry) => spec_validate_detail(game.id@, game.account.platform@, game.account.puuid@, game.detail) matches Ok(
                participant,
            ) && library_entry_of(entry, game, participant),
            Err(e) => spec_validate_detail(game.id@, game.account.platform@, game.account.puuid@, game.detail) is Err
                && e@ == "library.invalidData"@,
        },
{
    let participant = match validate_detail(game.id.as_str(), &game.account, &game.detail) {
        Ok(p) => p,
        Err(_) => return Err(owned("library.invalidData")),
    };
    let stats = match member(participant, "stats") {
        Some(s) => s,
        None => &Json::Null,
    };
    let win = match field_bool(stats, "win") {
        Some(w) => w,
        None => return Err(owned("library.invalidData")),
    };
    let ghost full = Seq::new(7, |i: int| count_of(field(*stats, "item"@ + decimal(i as nat))));
    let mut items: Vec<u32> = Vec::new();
    let mut i: u64 = 0;
    while i < 7
        invariant
            i <= 7,
            full == Seq::new(7, |i: int| count_of(field(*stats, "item"@ + decimal(i as nat)))),
            items@ == full.take(i as int),
        decreases 7 - i,
    {
        let mut key = owned("item");
        key.append(decimal_text(i).as_str());
        let v = count_field(stats, key.as_str());
        items.push(v);
        assert(items@ =~= full.take(i + 1));
        i = i + 1;
    }
    assert(full.take(7) =~= full);
    let version = match field_text(&game.detail, "gameVersion") {
        Some(v) => owned(v),
        None => String::new(),
    };
    let started_at = match member(&game.detail, "gameCreation") {
        Some(Json::Number(crate::json::JsonNumber::Unsigned(n))) => if *n <= 9223372036854775807u64 {
            *n as i64
        } else {
            0
        },
        Some(Json::Number(crate::json::JsonNumber::Negative(n))) => *n,
        _ => 0,
    };
    let entry = LibraryEntry {
        champion_id: count_field(participant, "championId"),
        started_at,
        duration: count_field(&game.detail, "gameDuration"),
        win,
        kills: count_field(stats, "kills"),
        deaths: count_field(stats, "deaths"),
        assists: count_field(stats, "assists"),
        items,
        queue_id: count_field(&game.detail, "queueId"),
        version,
        bookmarked: game.bookmarked,
        id: game.id,
        server: game.server,
        account: game.account,
    };
    Ok(entry)
}

/// Whose perspective a game of the archive is read from: the requested player, else the
/// first account that was observed playing it, else the first identity of the document.
pub open spec fn spec_perspective(puuid: Option<Seq<char>>, observed: Option<Seq<char>>, detail: Json) -> Option<
    Seq<char>,
> {
    match puuid {
        Some(p) => Some(p),
        None => match observed {
            Some(o) => Some(o),
            None => match json_items(field(detail, "participantIdentities"@)) {
                Some(ids) => if ids.len() > 0 {
                    json_text(field(field(ids[0], "player"@), "puuid"@))
                } else {
                    None
                },
                None => None,
            },
        },
    }
}

/// A game of the archive, reviewed from a perspective; see `spec_archived_review`.
pub open spec fn spec_archived_review(
    platform: Seq<char>,
    puuid: Option<Seq<char>>,
    observed: Option<Seq<char>>,
    detail: Json,
) -> Result<((Seq<char>, Seq<char>, Seq<char>, Seq<char>, Seq<char>), Seq<char>), Seq<char>> {
    match spec_perspective(puuid, observed, detail) {
        None => Err("game.playerMissing"@),
        Some(p) => match spec_account_in_game(platform, p, detail) {
            Err(e) => Err(e),
            Ok(a) => match spec_server_for_platform(platform) {
                None => Err("region.unsupported"@),
                Some(server) => Ok((a, server)),
            },
        },
    }
}

/// A game the archive holds without a review record, read as a review: from the perspective
/// above, on the server of its platform, with the stored timeline error only while there is
/// no timeline.
pub fn archived_review(
    id: &str,
    platform: &str,
    detail: Json,
    timeline: Option<Json>,
    data_error: Option<String>,
    puuid: Option<&str>,
    observed: Option<&str>,
) -> (r: Result<StoredReview, String>)
    ensures
        match r {
            Ok(game) => spec_archived_review(platform@, crate::resume::str_view(puuid), crate::resume::str_view(observed), detail)
                == Ok::<((Seq<char>, Seq<char>, Seq<char>, Seq<char>, Seq<char>), Seq<char>), Seq<char>>(
                (game.account@, game.server@),
            ) && game.id@ == id@ && game.detail == detail && game.timeline == timeline && game.source@ == "archive"@
                && !game.bookmarked && game.timeline_error == (if timeline is None {
                data_error
            } else {
                None
            }),
            Err(e) => spec_archived_review(platform@, crate::resume::str_view(puuid), crate::resume::str_view(observed), detail)
                == Err::<((Seq<char>, Seq<char>, Seq<char>, Seq<char>, Seq<char>), Seq<char>), Seq<char>>(e@),
        },
{
    let first = match field_items(&detail, "participantIdentities") {
        Some(ids) => if ids.len() > 0 {
            match member(&ids[0], "player") {
                Some(p) => field_text(p, "puuid"),
                None => None,
            }
        } else {
            None
        },
        None => None,
    };
    let perspective = match puuid {
        Some(p) => p,
        None => match observed {
            Some(o) => o,
            None => match first {
                Some(f) => f,
                None => return Err(owned("game.playerMissing")),
            },
        },
    };
    let account = account_in_game(platform, perspective, &detail)?;
    let server = server_for_platform(platform)?;
    let timeline_error = if timeline.is_none() {
        data_error
    } else {
        None
    };
    Ok(StoredReview {
        id: owned(id),
        server,
        account,
        detail,
        timeline,
        source: owned("archive"),
        timeline_error,
        bookmarked: false,
    })
}

/// The account a saved review is shown for: the requested player's account in the game, or
/// the account it was saved for.
pub fn review_account(saved: Account, puuid: Option<&str>, detail: &Json) -> (r: Result<Account, String>)
    ensures
        match puuid {
            Some(p) => match r {
                Ok(a) => spec_account_in_game(saved.platform@, p@, *detail) == Ok::<
                    (Seq<char>, Seq<char>, Seq<char>, Seq<char>, Seq<char>),
                    Seq<char>,
                >(a@),
                Err(e) => spec_account_in_game(saved.platform@, p@, *detail) == Err::<
                    (Seq<char>, Seq<char>, Seq<char>, Seq<char>, Seq<char>),
                    Seq<char>,
                >(e@),
            },
            None => r == Ok::<Account, String>(saved),
        },
{
    match puuid {
        Some(p) => account_in_game(saved.platform.as_str(), p, detail),
        None => Ok(saved),
    }
}

/// The review library lists the recent, saved or downloaded games from offsets up to ten
/// thousand, searched by at most two hundred characters.
pub open spec fn valid_library_query(start: u32, filter: Seq<char>, query: Seq<char>) -> bool {
    &&& start <= 10000
    &&& (filter == "recent"@ || filter == "saved"@ || filter == "downloaded"@)
    &&& query.len() <= 200
}

pub fn check_library_query(start: u32, filter: &str, query: &str) -> (r: Result<(), String>)
    ensures
        r is Ok <==> valid_library_query(start, filter@, query@),
        r matches Err(e) ==> e@ == "query.invalidPage"@,
{
    if start > 10000 || !(str_eq(filter, "recent") || str_eq(filter, "saved") || str_eq(filter, "downloaded")) {
        return Err(owned("query.invalidPage"));
    }
    if crate::text::chars_of(query).len() > 200 {
        return Err(owned("query.invalidPage"));
    }
    Ok(())
}

} // verus!
