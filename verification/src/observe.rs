//! The decisions that recording a client sample, and importing a finished game, make about
//! sessions, segments and participations.
use vstd::prelude::*;
use crate::domain::{ClientStatus, Sample, StoredReview, copy_account, spec_is_playing};
use crate::lcu::{LcuError, public_state, public_text};
use crate::sessions::{name_ok, trim, trim_chars, valid_name};
use crate::text::{chars_of, owned, string_of};
use crate::json::{Json, JsonNumber, field, member};

verus! {

/// A session ends after an hour without queue activity.
pub const IDLE_MS: i64 = 3600000;

/// The state a participation is recorded in while its game is observed.
#[derive(Clone, Copy, Debug, PartialEq, Eq, Structural)]
pub enum ObservedState {
    Playing,
    Pending,
}

/// The name under which the archive stores a state.
pub open spec fn state_name(s: ObservedState) -> Seq<char> {
    match s {
        ObservedState::Playing => "playing"@,
        ObservedState::Pending => "pending"@,
    }
}

impl ObservedState {
    /// The name under which the archive stores the state.
    pub fn name(self) -> (r: &'static str)
        ensures
            r@ == state_name(self),
    {
        match self {
            ObservedState::Playing => "playing",
            ObservedState::Pending => "pending",
        }
    }
}

/// What recording one sample does, apart from marking every playing participation pending.
pub struct ObservePlan {
    /// A settlement was just confirmed: clear the observed game's retry backoff.
    pub reset_retry: bool,
    /// End the open session, idle since its last activity, at this time.
    pub end_idle_session: Option<(String, i64)>,
    /// Record the sample's account.
    pub record_account: bool,
    /// The state to record the observed game's participation in.
    pub state: Option<ObservedState>,
    /// The account's existing participation in the observed game, to refresh.
    pub refresh: Option<String>,
    /// Refresh the open session's activity clock.
    pub touch_activity: bool,
    /// Open a new session for the observed game's new participation: there is no open
    /// session, or the open one ends as idle now. Otherwise the participation joins the open
    /// session.
    pub new_session: bool,
}

/// The sample continues a game that belongs to the open session.
pub open spec fn continuing(sample: Option<Sample>, open: Option<(String, i64)>, existing: Option<(String, String)>) -> bool {
    &&& sample matches Some(s) && spec_is_playing(s)
    &&& open matches Some(o) && existing matches Some(e) && e.1@ == o.0@
}

/// The plan for one sample, given the open session (its id and last activity) and the
/// account's existing participation in the observed game (its id and session).
pub open spec fn spec_plan(
    sample: Option<Sample>,
    open: Option<(String, i64)>,
    existing: Option<(String, String)>,
    now: i64,
    plan: ObservePlan,
) -> bool {
    &&& plan.reset_retry == (sample matches Some(s) && !spec_is_playing(s) && s.observed_game is Some)
    &&& match open {
        Some((session, last)) => if saturate(now - last) >= IDLE_MS && !continuing(sample, open, existing) {
            plan.end_idle_session matches Some((s, t)) && s@ == session@ && t == last + IDLE_MS
        } else {
            plan.end_idle_session is None
        },
        None => plan.end_idle_session is None,
    }
    &&& plan.record_account == sample is Some
    &&& plan.state == match sample {
        Some(s) => if s.observed_game is None {
            None
        } else if spec_is_playing(s) {
            Some(ObservedState::Playing)
        } else {
            Some(ObservedState::Pending)
        },
        None => None,
    }
    &&& match plan.refresh {
        Some(id) => (sample matches Some(s) && s.observed_game is Some) && (existing matches Some(e) && id@ == e.0@),
        None => !(sample matches Some(s) && s.observed_game is Some && existing is Some),
    }
    &&& plan.touch_activity == (sample matches Some(s) && s.queue_active)
    &&& plan.new_session == (plan.state is Some && plan.refresh is None && (open is None || plan.end_idle_session is Some))
}

/// Decides what recording a sample does to the open session and the observed game.
pub fn plan_observation(
    sample: Option<&Sample>,
    open: Option<(String, i64)>,
    existing: Option<(String, String)>,
    now: i64,
) -> (plan: ObservePlan)
    ensures
        spec_plan(
            match sample {
                Some(s) => Some(*s),
                None => None,
            },
            open,
            existing,
            now,
            plan,
        ),
{
    let playing = match sample {
        Some(s) => s.is_playing(),
        None => false,
    };
    let reset_retry = match sample {
        Some(s) => !playing && s.observed_game.is_some(),
        None => false,
    };
    let continuing = playing && match (&open, &existing) {
        (Some(o), Some(e)) => e.1 == o.0,
        _ => false,
    };
    let end_idle_session = match &open {
        Some((session, last)) => {
            let idle = saturating_sub(now, *last);
            if idle >= IDLE_MS && !continuing {
                Some((session.clone(), *last + IDLE_MS))
            } else {
                None
            }
        },
        None => None,
    };
    let (state, refresh) = match sample {
        Some(s) => match &s.observed_game {
            Some(_) => {
                let state = if playing {
                    ObservedState::Playing
                } else {
                    ObservedState::Pending
                };
                let refresh = match &existing {
                    Some(e) => Some(e.0.clone()),
                    None => None,
                };
                (Some(state), refresh)
            },
            None => (None, None),
        },
        None => (None, None),
    };
    let new_session = state.is_some() && refresh.is_none() && (open.is_none() || end_idle_session.is_some());
    ObservePlan {
        reset_retry,
        end_idle_session,
        record_account: sample.is_some(),
        state,
        refresh,
        touch_activity: match sample {
            Some(s) => s.queue_active,
            None => false,
        },
        new_session,
    }
}

/// Law: a plan adds no game twice and nothing without a sample. Without a sample nothing is
/// recorded, refreshed or touched (only an idle session may end); a game the account already
/// takes part in is refreshed, never recorded anew.
pub proof fn lemma_plan_adds_no_duplicate(
    sample: Option<Sample>,
    open: Option<(String, i64)>,
    existing: Option<(String, String)>,
    now: i64,
    plan: ObservePlan,
)
    requires
        spec_plan(sample, open, existing, now, plan),
    ensures
        sample is None ==> !plan.record_account && plan.state is None && plan.refresh is None && !plan.touch_activity
            && !plan.reset_retry,
        (sample matches Some(s) && s.observed_game is Some) ==> match existing {
            Some(e) => plan.refresh matches Some(id) && id@ == e.0@,
            None => plan.refresh is None,
        },
{
}

/// Law: recording a sample never leaves two sessions open. A new session is opened only when
/// none is open or the open one ends as idle; a session that ends is the open one.
pub proof fn lemma_one_open_session(
    sample: Option<Sample>,
    open: Option<(String, i64)>,
    existing: Option<(String, String)>,
    now: i64,
    plan: ObservePlan,
)
    requires
        spec_plan(sample, open, existing, now, plan),
    ensures
        plan.new_session ==> open is None || plan.end_idle_session is Some,
        plan.end_idle_session matches Some((s, _)) ==> open matches Some(o) && s@ == o.0@,
        plan.new_session ==> sample is Some && plan.state is Some,
{
}

/// The segment a new participation joins: the session's latest segment when it is the same
/// account's; `None` when a new segment must be opened.
pub fn segment_for(latest: Option<(String, String)>, account_id: &str) -> (r: Option<String>)
    ensures
        match r {
            Some(id) => latest matches Some(l) && l.1@ == account_id@ && id@ == l.0@,
            None => !(latest matches Some(l) && l.1@ == account_id@),
        },
{
    match latest {
        Some((id, account)) => if crate::text::str_eq(account.as_str(), account_id) {
            Some(id)
        } else {
            None
        },
        None => None,
    }
}

fn saturating_add(a: i64, b: i64) -> (r: i64)
    ensures
        r == saturate(a + b),
{
    match a.checked_add(b) {
        Some(x) => x,
        None => if b > 0 {
            i64::MAX
        } else {
            i64::MIN
        },
    }
}

fn saturating_sub(a: i64, b: i64) -> (r: i64)
    ensures
        r == saturate(a - b),
{
    match a.checked_sub(b) {
        Some(x) => x,
        None => if b < 0 {
            i64::MAX
        } else {
            i64::MIN
        },
    }
}

fn saturating_mul(a: i64, b: i64) -> (r: i64)
    requires
        b > 0,
    ensures
        r == saturate(a * b),
{
    match a.checked_mul(b) {
        Some(x) => x,
        None => {
            if a > 0 {
                assert(a * b > 0) by (nonlinear_arith)
                    requires
                        a > 0,
                        b > 0,
                ;
                i64::MAX
            } else {
                assert(a * b <= 0) by (nonlinear_arith)
                    requires
                        a <= 0,
                        b > 0,
                ;
                i64::MIN
            }
        },
    }
}

/// `as_i64` of a JSON value.
pub open spec fn json_i64(v: Json) -> Option<i64> {
    match v {
        Json::Number(JsonNumber::Unsigned(n)) => if n <= i64::MAX {
            Some(n as i64)
        } else {
            None
        },
        Json::Number(JsonNumber::Negative(n)) => Some(n),
        _ => None,
    }
}

pub fn as_i64(v: Option<&Json>) -> (r: Option<i64>)
    ensures
        r == json_i64(
            match v {
                Some(x) => *x,
                None => Json::Null,
            },
        ),
{
    match v {
        Some(Json::Number(JsonNumber::Unsigned(n))) => if *n <= 9223372036854775807u64 {
            Some(*n as i64)
        } else {
            None
        },
        Some(Json::Number(JsonNumber::Negative(n))) => Some(*n),
        _ => None,
    }
}

/// `a + b` saturated to the range of `i64`.
pub open spec fn saturate(x: int) -> i64 {
    if x > i64::MAX {
        i64::MAX
    } else if x < i64::MIN {
        i64::MIN
    } else {
        x as i64
    }
}

/// When an imported game ran: from its positive creation time to that plus its duration in
/// seconds, saturating.
pub open spec fn spec_import_span(detail: Json) -> Result<(i64, i64), Seq<char>> {
    match json_i64(field(detail, "gameCreation"@)) {
        Some(start) => if start > 0 {
            let seconds = match json_i64(field(detail, "gameDuration"@)) {
                Some(d) => d,
                None => 0,
            };
            Ok((start, saturate(start + saturate(seconds * 1000))))
        } else {
            Err("game.missingStartTime"@)
        },
        None => Err("game.missingStartTime"@),
    }
}

/// The time span of an imported game; see `spec_import_span`.
pub fn import_span(detail: &Json) -> (r: Result<(i64, i64), String>)
    ensures
        match r {
            Ok(span) => spec_import_span(*detail) == Ok::<(i64, i64), Seq<char>>(span),
            Err(e) => spec_import_span(*detail) == Err::<(i64, i64), Seq<char>>(e@),
        },
{
    let start = match as_i64(member(detail, "gameCreation")) {
        Some(s) => if s > 0 {
            s
        } else {
            return Err(crate::text::owned("game.missingStartTime"));
        },
        None => return Err(crate::text::owned("game.missingStartTime")),
    };
    let seconds = match as_i64(member(detail, "gameDuration")) {
        Some(d) => d,
        None => 0,
    };
    Ok((start, saturating_add(start, saturating_mul(seconds, 1000))))
}

/// An idle session ends an hour after its last activity, never later than the sample that
/// ends it, and a sample that continues the open session's game never ends it.
pub proof fn lemma_idle_end(
    sample: Option<Sample>,
    open: Option<(String, i64)>,
    existing: Option<(String, String)>,
    now: i64,
    plan: ObservePlan,
)
    requires
        spec_plan(sample, open, existing, now, plan),
    ensures
        plan.end_idle_session matches Some((s, t)) ==> open matches Some(o) && t == o.1 + IDLE_MS && t <= now,
        continuing(sample, open, existing) ==> plan.end_idle_session is None,
{
}

/// A batch import adds one to fifty games.
pub fn check_import_batch(count: usize) -> (r: Result<(), String>)
    ensures
        r is Ok <==> 0 < count <= 50,
        r matches Err(e) ==> e@ == "session.changed"@,
{
    if count == 0 || count > 50 {
        Err(owned("session.changed"))
    } else {
        Ok(())
    }
}

/// The title a batch import saves its new session under: the trimmed name, when it is a
/// valid name.
pub fn import_title(name: &str) -> (r: Result<String, String>)
    ensures
        match r {
            Ok(t) => valid_name(name@) && t@ == trim(name@),
            Err(e) => !valid_name(name@) && e@ == "session.invalidTitle"@,
        },
{
    if !name_ok(name) {
        return Err(owned("session.invalidTitle"));
    }
    Ok(string_of(trim_chars(chars_of(name).as_slice()).as_slice()))
}

/// The earliest creation time among the games of a batch that state one.
pub open spec fn earliest_start(games: Seq<StoredReview>) -> Option<i64>
    decreases games.len(),
{
    if games.len() == 0 {
        None
    } else {
        let rest = earliest_start(games.drop_last());
        match (rest, json_i64(field(games.last().detail, "gameCreation"@))) {
            (Some(a), Some(b)) => Some(if a <= b {
                a
            } else {
                b
            }),
            (Some(a), None) => Some(a),
            (None, b) => b,
        }
    }
}

/// When the session a batch import creates starts: the earliest creation time of its games;
/// `game.invalidData` when none states one.
pub fn batch_start(games: &Vec<StoredReview>) -> (r: Result<i64, String>)
    ensures
        match r {
            Ok(t) => earliest_start(games@) == Some(t),
            Err(e) => earliest_start(games@) is None && e@ == "game.invalidData"@,
        },
{
    let mut best: Option<i64> = None;
    let mut i: usize = 0;
    while i < games.len()
        invariant
            i <= games@.len(),
            best == earliest_start(games@.take(i as int)),
        decreases games.len() - i,
    {
        proof {
            assert(games@.take(i + 1).drop_last() =~= games@.take(i as int));
            assert(games@.take(i + 1).last() == games@[i as int]);
        }
        let t = as_i64(member(&games[i].detail, "gameCreation"));
        best = match (best, t) {
            (Some(a), Some(b)) => Some(if a <= b {
                a
            } else {
                b
            }),
            (Some(a), None) => Some(a),
            (None, b) => b,
        };
        i = i + 1;
    }
    proof {
        assert(games@.take(games@.len() as int) =~= games@);
    }
    match best {
        Some(t) => Ok(t),
        None => Err(owned("game.invalidData")),
    }
}

/// The status shown after a sample: connected, and recording while the sample counts as
/// play, with its phase, account and the recorded game; or the public state and sentence of
/// the client error.
pub fn client_status(sample: &Result<Sample, LcuError>, time: i64) -> (r: ClientStatus)
    ensures
        r.last_checked_at == time,
        match sample {
            Ok(s) => {
                &&& r.state@ == "connected"@
                &&& r.message@ == if spec_is_playing(*s) {
                    "正在记录游玩"@
                } else {
                    "客户端已连接"@
                }
                &&& r.phase matches Some(p) && p@ == s.phase@
                &&& r.account matches Some(a) && a@ == s.account@
                &&& if spec_is_playing(*s) {
                    r.active_game_id matches Some(g) && s.observed_game matches Some(o) && g@ == o.id@
                } else {
                    r.active_game_id is None
                }
            },
            Err(e) => r.state@ == public_state(*e) && r.message@ == public_text(*e) && r.phase is None
                && r.account is None && r.active_game_id is None,
        },
{
    match sample {
        Ok(s) => {
            let playing = s.is_playing();
            let active = if playing {
                match &s.observed_game {
                    Some(g) => Some(owned(g.id.as_str())),
                    None => None,
                }
            } else {
                None
            };
            ClientStatus {
                state: owned("connected"),
                message: if playing {
                    owned("正在记录游玩")
                } else {
                    owned("客户端已连接")
                },
                phase: Some(owned(s.phase.as_str())),
                account: Some(copy_account(&s.account)),
                active_game_id: active,
                last_checked_at: time,
            }
        },
        Err(e) => {
            let (state, message) = e.public_message();
            ClientStatus::unavailable(state, message, time)
        },
    }
}

/// A sample that the archive could not record shows the storage error instead.
pub fn storage_failed(status: &mut ClientStatus, error: String)
    ensures
        final(status).state@ == "storage-error"@,
        final(status).message == error,
        final(status).phase == old(status).phase,
        final(status).account == old(status).account,
        final(status).active_game_id == old(status).active_game_id,
        final(status).last_checked_at == old(status).last_checked_at,
{
    status.state = owned("storage-error");
    status.message = error;
}

} // verus!
