//! The replay download queue's rules: which requests a job's state allows, the state a job
//! is in after a restart or after its task ends, and how a download may grow.
use vstd::prelude::*;
use crate::files::{max_replay_bytes, spec_valid_match_id, valid_match_id};
use crate::resume::str_view;
use crate::text::{chars_of, owned, str_eq};

verus! {

/// A job in one of these states has a download task that owns it.
pub open spec fn active(state: Seq<char>) -> bool {
    state == "queued"@ || state == "downloading"@ || state == "validating"@ || state == "cancelling"@
}

/// A job in one of these states can be asked to stop.
pub open spec fn cancellable(state: Seq<char>) -> bool {
    state == "queued"@ || state == "downloading"@ || state == "cancelling"@
}

fn is_active(state: &str) -> (r: bool)
    ensures
        r == active(state@),
{
    str_eq(state, "queued") || str_eq(state, "downloading") || str_eq(state, "validating") || str_eq(state, "cancelling")
}

/// The state a saved job is in after a restart: a job that was queued, downloading,
/// validating or waiting waits to be resumed, a job being cancelled is cancelled, and any other
/// keeps its state.
pub open spec fn spec_restart_state(state: Seq<char>) -> Seq<char> {
    if state == "queued"@ || state == "downloading"@ || state == "validating"@ || state == "waiting"@ {
        "waiting"@
    } else if state == "cancelling"@ {
        "cancelled"@
    } else {
        state
    }
}

/// The state a saved job is in after a restart; see `spec_restart_state`.
pub fn restart_state(state: &str) -> (r: String)
    ensures
        r@ == spec_restart_state(state@),
{
    if str_eq(state, "queued") || str_eq(state, "downloading") || str_eq(state, "validating") || str_eq(
        state,
        "waiting",
    ) {
        owned("waiting")
    } else if str_eq(state, "cancelling") {
        owned("cancelled")
    } else {
        owned(state)
    }
}

/// Checks a saved job against the key it was saved under: the key must name a replay and be
/// the job's id.
pub fn check_saved_job(key: &str, job_id: &str) -> (r: Result<(), String>)
    ensures
        match r {
            Ok(()) => spec_valid_match_id(key@) && key@ == job_id@,
            Err(e) => if !spec_valid_match_id(key@) {
                e@ == "game.invalidId"@
            } else {
                key@ != job_id@ && e@ == "replay.storageError"@
            },
        },
{
    if !valid_match_id(chars_of(key).as_slice()) {
        return Err(owned("game.invalidId"));
    }
    if !str_eq(key, job_id) {
        return Err(owned("replay.storageError"));
    }
    Ok(())
}

/// Whether a download of a replay is started: not while its task still runs (`running`) or
/// its job (in `state`, if there is one) is active; a second request is then a no-op.
pub fn should_start(running: bool, state: Option<&str>) -> (r: bool)
    ensures
        r == !(running || (str_view(state) matches Some(s) && active(s))),
{
    if running {
        return false;
    }
    match state {
        Some(s) => !is_active(s),
        None => true,
    }
}

/// Whether a download task may report progress on its job: the job must exist and not be
/// being cancelled.
pub fn check_progress(state: Option<&str>) -> (r: Result<(), String>)
    ensures
        match str_view(state) {
            None => r matches Err(e) && e@ == "replay.unavailable"@,
            Some(s) => if s == "cancelling"@ {
                r matches Err(e) && e@ == "replay.cancelled"@
            } else {
                r is Ok
            },
        },
{
    match state {
        None => Err(owned("replay.unavailable")),
        Some(s) => if str_eq(s, "cancelling") {
            Err(owned("replay.cancelled"))
        } else {
            Ok(())
        },
    }
}

/// What a cancellation request does next.
#[derive(Clone, Copy, Debug, PartialEq, Eq, Structural)]
pub enum CancelStep {
    /// The job was waiting to be resumed: it is now cancelled.
    Cancelled,
    /// The job's task must be told to stop; the job is then being cancelled.
    Signal,
}

/// What cancelling a job does: a missing job cannot be cancelled, a waiting one is cancelled
/// at once, a queued, downloading or cancelling one has its task told to stop, and any other
/// cannot be cancelled.
pub fn cancel_step(state: Option<&str>) -> (r: Result<CancelStep, String>)
    ensures
        match str_view(state) {
            None => r matches Err(e) && e@ == "replay.missing"@,
            Some(s) => if s == "waiting"@ {
                r == Ok::<CancelStep, String>(CancelStep::Cancelled)
            } else if cancellable(s) {
                r == Ok::<CancelStep, String>(CancelStep::Signal)
            } else {
                r matches Err(e) && e@ == "replay.notCancellable"@
            },
        },
{
    match state {
        None => Err(owned("replay.missing")),
        Some(s) => if str_eq(s, "waiting") {
            Ok(CancelStep::Cancelled)
        } else if str_eq(s, "queued") || str_eq(s, "downloading") || str_eq(s, "cancelling") {
            Ok(CancelStep::Signal)
        } else {
            Err(owned("replay.notCancellable"))
        },
    }
}

/// Whether a replay may be removed: not while its task runs or its job is active.
pub fn check_removal(running: bool, state: Option<&str>) -> (r: Result<(), String>)
    ensures
        match r {
            Ok(()) => !(running || (str_view(state) matches Some(s) && active(s))),
            Err(e) => (running || (str_view(state) matches Some(s) && active(s))) && e@ == "replay.notCancellable"@,
        },
{
    if should_start(running, state) {
        Ok(())
    } else {
        Err(owned("replay.notCancellable"))
    }
}

/// The state and the error a job keeps when its task fails with `error`: a cancellation
/// leaves it cancelled without an error.
pub fn failed_job(error: String) -> (r: (String, Option<String>))
    ensures
        if error@ == "replay.cancelled"@ {
            r.0@ == "cancelled"@ && r.1 is None
        } else {
            r.0@ == "error"@ && r.1 == Some(error)
        },
{
    if str_eq(error.as_str(), "replay.cancelled") {
        (owned("cancelled"), None)
    } else {
        (owned("error"), Some(error))
    }
}

/// The bytes received once a chunk arrives, unless the replay would grow past the largest
/// container accepted.
pub fn accept_chunk(received: u64, chunk: u64) -> (r: Result<u64, String>)
    ensures
        match r {
            Ok(n) => n == received + chunk && n <= max_replay_bytes(),
            Err(e) => received + chunk > max_replay_bytes() && e@ == "replay.tooLarge"@,
        },
{
    let next = match received.checked_add(chunk) {
        Some(n) => n,
        None => return Err(owned("replay.tooLarge")),
    };
    crate::files::check_size(next)?;
    Ok(next)
}

/// A finished download has every byte the server announced.
pub fn check_complete(total: Option<u64>, received: u64) -> (r: Result<(), String>)
    ensures
        match r {
            Ok(()) => !(total matches Some(t) && t != received),
            Err(e) => (total matches Some(t) && t != received) && e@ == "replay.incomplete"@,
        },
{
    match total {
        Some(t) => if t != received {
            Err(owned("replay.incomplete"))
        } else {
            Ok(())
        },
        None => Ok(()),
    }
}

/// After a restart no job is active: every job waits to be resumed, or has ended.
pub proof fn lemma_restart_leaves_nothing_active(state: Seq<char>)
    ensures
        !active(spec_restart_state(state)),
{
    reveal_strlit("waiting");
    reveal_strlit("cancelled");
    reveal_strlit("queued");
    reveal_strlit("downloading");
    reveal_strlit("validating");
    reveal_strlit("cancelling");
    assert("waiting"@.len() == 7 && "cancelled"@.len() == 9);
    assert("queued"@.len() == 6 && "downloading"@.len() == 11);
    assert("validating"@.len() == 10 && "cancelling"@.len() == 10);
}

/// A job as the replay list sees it: its match, its state, and whether its replay file is
/// in managed storage.
#[derive(Debug)]
pub struct JobView {
    pub id: String,
    pub state: String,
    pub file_present: bool,
}

/// One line of the replay list: a saved replay (`live` false) or a job of the queue (`live`
/// true), by its position in its list, and the state shown.
#[derive(Debug)]
pub struct ListedJob {
    pub live: bool,
    pub index: usize,
    pub state: String,
}

/// A saved replay whose file is gone is shown missing.
pub open spec fn saved_state(j: JobView) -> Seq<char> {
    if j.file_present {
        j.state@
    } else {
        "missing"@
    }
}

/// A job of the queue that is ready but whose file is gone is shown missing.
pub open spec fn live_state(j: JobView) -> Seq<char> {
    if j.state@ == "ready"@ && !j.file_present {
        "missing"@
    } else {
        j.state@
    }
}

/// The queue has a job for match `id`.
pub open spec fn queued(live: Seq<JobView>, id: Seq<char>) -> bool {
    exists|k: int| 0 <= k < live.len() && (#[trigger] live[k]).id@ == id
}

/// The lines for the first `n` saved replays: those that the queue has no job for.
pub open spec fn saved_lines(saved: Seq<JobView>, live: Seq<JobView>, n: int) -> Seq<(bool, int, Seq<char>)>
    decreases n,
{
    if n <= 0 {
        Seq::empty()
    } else if queued(live, saved[n - 1].id@) {
        saved_lines(saved, live, n - 1)
    } else {
        saved_lines(saved, live, n - 1).push((false, n - 1, saved_state(saved[n - 1])))
    }
}

/// The replay list: the saved replays the queue has no job for, then every job of the queue.
pub open spec fn spec_list_jobs(saved: Seq<JobView>, live: Seq<JobView>) -> Seq<(bool, int, Seq<char>)> {
    saved_lines(saved, live, saved.len() as int) + Seq::new(live.len(), |k: int| (true, k, live_state(live[k])))
}

pub open spec fn line_view(l: ListedJob) -> (bool, int, Seq<char>) {
    (l.live, l.index as int, l.state@)
}

fn show_missing(state: &str, missing: bool) -> (r: String)
    ensures
        r@ == (if missing { "missing"@ } else { state@ }),
{
    if missing {
        owned("missing")
    } else {
        owned(state)
    }
}

fn is_queued(live: &Vec<JobView>, id: &str) -> (r: bool)
    ensures
        r == queued(live@, id@),
{
    let mut k: usize = 0;
    while k < live.len()
        invariant
            k <= live@.len(),
            forall|m: int| 0 <= m < k ==> (#[trigger] live@[m]).id@ != id@,
        decreases live.len() - k,
    {
        if str_eq(live[k].id.as_str(), id) {
            return true;
        }
        k = k + 1;
    }
    false
}

/// The replay list; see `spec_list_jobs`.
pub fn list_jobs(saved: &Vec<JobView>, live: &Vec<JobView>) -> (r: Vec<ListedJob>)
    ensures
        r@.map_values(|l: ListedJob| line_view(l)) == spec_list_jobs(saved@, live@),
{
    let mut out: Vec<ListedJob> = Vec::new();
    let mut i: usize = 0;
    assert(out@.map_values(|l: ListedJob| line_view(l)) =~= Seq::<(bool, int, Seq<char>)>::empty());
    while i < saved.len()
        invariant
            i <= saved@.len(),
            out@.map_values(|l: ListedJob| line_view(l)) == saved_lines(saved@, live@, i as int),
        decreases saved.len() - i,
    {
        let j = &saved[i];
        if !is_queued(live, j.id.as_str()) {
            let ghost before = out@.map_values(|l: ListedJob| line_view(l));
            let line = ListedJob { live: false, index: i, state: show_missing(j.state.as_str(), !j.file_present) };
            out.push(line);
            assert(out@.map_values(|l: ListedJob| line_view(l)) =~= before.push((false, i as int, saved_state(saved@[i as int]))));
        }
        i = i + 1;
    }
    let ghost head = out@.map_values(|l: ListedJob| line_view(l));
    let ghost tail_lines = Seq::new(live@.len(), |k: int| (true, k, live_state(live@[k])));
    let mut k: usize = 0;
    while k < live.len()
        invariant
            k <= live@.len(),
            head == saved_lines(saved@, live@, saved@.len() as int),
            tail_lines == Seq::new(live@.len(), |k: int| (true, k, live_state(live@[k]))),
            out@.map_values(|l: ListedJob| line_view(l)) == head + tail_lines.take(k as int),
        decreases live.len() - k,
    {
        let j = &live[k];
        let ghost before = out@.map_values(|l: ListedJob| line_view(l));
        let ready = str_eq(j.state.as_str(), "ready");
        let line = ListedJob { live: true, index: k, state: show_missing(j.state.as_str(), ready && !j.file_present) };
        out.push(line);
        k = k + 1;
        assert(tail_lines.take(k as int) =~= tail_lines.take(k - 1).push(tail_lines[k - 1]));
        assert(out@.map_values(|l: ListedJob| line_view(l)) =~= before.push(tail_lines[k - 1]));
    }
    assert(tail_lines.take(live@.len() as int) =~= tail_lines);
    out
}

} // verus!
