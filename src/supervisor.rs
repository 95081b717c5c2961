//! The supervisor's decisions over its PID file: whether `start` may go on,
//! what `status` reports, and the steps of `stop`.
use vstd::prelude::*;
use crate::error::ThunderError;
use crate::text::{chars_of, decimal, is_space, parse_u32, parse_u32_in, push_decimal, space, trim};

verus! {

/// How long `stop` waits after SIGTERM before it sends SIGKILL.
pub const GRACE_MS: u32 = 5000;

/// How long `stop` sleeps between two looks at the process.
pub const POLL_MS: u32 = 100;

/// The PID recorded in the text of a PID file, read as `u32::from_str` reads
/// the trimmed text.
pub fn parse_pid(text: &str) -> (r: Option<u32>)
    ensures
        r == parse_u32(trim(text@)),
{
    let v = chars_of(text);
    let mut b = v.len();
    while b > 0 && space(v[b - 1])
        invariant
            b <= v.len(),
            forall|j: int| b <= j < v.len() ==> is_space(#[trigger] v@[j]),
        decreases b,
    {
        b = b - 1;
    }
    proof {
        crate::text::lemma_trim_end(v@, b as int);
    }
    let mut a: usize = 0;
    while a < b && space(v[a])
        invariant
            a <= b <= v.len(),
            forall|j: int| 0 <= j < a ==> is_space(#[trigger] v@[j]),
        decreases b - a,
    {
        a = a + 1;
    }
    proof {
        let t = v@.subrange(0, b as int);
        assert forall|j: int| 0 <= j < a implies is_space(t[j]) by {
            assert(is_space(v@[j]));
        }
        crate::text::lemma_trim_start(t, a as int);
        assert(t.subrange(a as int, t.len() as int) =~= v@.subrange(a as int, b as int));
    }
    parse_u32_in(&v, a, b)
}

/// The text that a PID file holds for `pid`.
pub fn pid_file_text(pid: u32) -> (r: String)
    ensures
        r@ == decimal(pid as nat).push('\n'),
{
    proof {
        reveal_strlit("\n");
    }
    let mut out = String::new();
    push_decimal(&mut out, pid);
    out.append("\n");
    assert(out@ =~= decimal(pid as nat).push('\n'));
    out
}

/// What `status` reports.
#[derive(Clone, Copy, Debug, PartialEq, Eq, Structural)]
pub enum Status {
    /// The recorded process is alive.
    Running(u32),
    /// No live process; `stale` when a PID file was left behind and must go.
    Stopped { stale: bool },
}

/// The status for the recorded PID `pid` and whether that process is alive.
pub open spec fn status_of(pid: Option<u32>, alive: bool) -> Status {
    match pid {
        Some(p) => if alive {
            Status::Running(p)
        } else {
            Status::Stopped { stale: true }
        },
        None => Status::Stopped { stale: false },
    }
}

pub fn status(pid: Option<u32>, alive: bool) -> (r: Status)
    ensures
        r == status_of(pid, alive),
{
    match pid {
        Some(p) => if alive {
            Status::Running(p)
        } else {
            Status::Stopped { stale: true }
        },
        None => Status::Stopped { stale: false },
    }
}

impl Status {
    /// The line that `status` prints.
    pub fn describe(&self) -> (r: String)
        ensures
            self is Running ==> r@ == seq!['r', 'u', 'n', 'n', 'i', 'n', 'g', ' ', '(', 'p', 'i', 'd', ' ']
                + decimal(self->Running_0 as nat) + seq![')'],
            self is Stopped ==> r@ == seq!['s', 't', 'o', 'p', 'p', 'e', 'd'],
    {
        proof {
            reveal_strlit("running (pid ");
            reveal_strlit(")");
            reveal_strlit("stopped");
        }
        let mut out = String::new();
        match self {
            Status::Running(p) => {
                out.append("running (pid ");
                push_decimal(&mut out, *p);
                out.append(")");
            },
            Status::Stopped { .. } => {
                out.append("stopped");
            },
        }
        assert(self is Running ==> out@ =~= seq!['r', 'u', 'n', 'n', 'i', 'n', 'g', ' ', '(', 'p', 'i', 'd', ' ']
                + decimal(self->Running_0 as nat) + seq![')']);
        assert(self is Stopped ==> out@ =~= seq!['s', 't', 'o', 'p', 'p', 'e', 'd']);
        out
    }
}

/// The PID file and the outcome after `start` with the recorded PID `pid`,
/// whether it is alive, and the PID `child` of the detached process: refused
/// while the recorded process lives, else the file records `child`.
pub open spec fn start_outcome(pid: Option<u32>, alive: bool, child: u32) -> (
    Option<u32>,
    Result<(), ThunderError>,
) {
    if pid is Some && alive {
        (pid, Err(ThunderError::AlreadyRunning))
    } else {
        (Some(child), Ok(()))
    }
}

/// Whether `start` may detach a new process: refused as `AlreadyRunning`
/// while the recorded process lives; a stale record is reclaimed.
pub fn check_start(pid: Option<u32>, alive: bool) -> (r: Result<(), ThunderError>)
    ensures
        r is Err <==> (pid is Some && alive),
        r is Err ==> r == Err::<(), ThunderError>(ThunderError::AlreadyRunning),
{
    if pid.is_some() && alive {
        Err(ThunderError::AlreadyRunning)
    } else {
        Ok(())
    }
}

/// Records `child` after a start that `check_start` allowed.
pub fn record_start(pid: &mut Option<u32>, alive: bool, child: u32) -> (r: Result<(), ThunderError>)
    ensures
        (*final(pid), r) == start_outcome(*old(pid), alive, child),
{
    match check_start(*pid, alive) {
        Ok(()) => {
            *pid = Some(child);
            Ok(())
        },
        Err(e) => Err(e),
    }
}

/// Once `start` has succeeded, a second `start`, while the process it
/// recorded still lives, is refused as `AlreadyRunning`.
pub proof fn lemma_start_twice(pid: Option<u32>, alive: bool, child: u32, next: u32)
    requires
        start_outcome(pid, alive, child).1 is Ok,
    ensures
        start_outcome(start_outcome(pid, alive, child).0, true, next).1 == Err::<(), ThunderError>(
            ThunderError::AlreadyRunning,
        ),
{
}

} // verus!

verus! {

/// Where `stop` stands.
#[derive(Clone, Copy, Debug, PartialEq, Eq, Structural)]
pub enum StopState {
    /// Nothing done yet.
    Begin,
    /// SIGTERM sent to `pid`, `waited_ms` spent waiting since.
    Signalled { pid: u32, waited_ms: u32 },
    /// SIGKILL sent to `pid`.
    Killed { pid: u32 },
    /// Finished: the process is gone and its PID file removed, or there was none.
    Done,
}

/// What the caller of `stop_step` does next.
#[derive(Clone, Copy, Debug, PartialEq, Eq, Structural)]
pub enum StopAction {
    /// Tell the operator that nothing runs.
    Notice,
    /// Send SIGTERM.
    Terminate(u32),
    /// Sleep so many milliseconds.
    Sleep(u32),
    /// Send SIGKILL.
    Kill(u32),
    /// Remove the PID file.
    RemovePidFile,
}

/// One step of `stop`, from the recorded PID and whether that process is
/// alive now.
pub open spec fn stop_next(s: StopState, pid: Option<u32>, alive: bool) -> (StopState, StopAction) {
    match s {
        StopState::Begin => match pid {
            None => (StopState::Done, StopAction::Notice),
            Some(p) => if alive {
                (StopState::Signalled { pid: p, waited_ms: 0 }, StopAction::Terminate(p))
            } else {
                (StopState::Done, StopAction::RemovePidFile)
            },
        },
        StopState::Signalled { pid: p, waited_ms: w } => if !alive {
            (StopState::Done, StopAction::RemovePidFile)
        } else if w < GRACE_MS {
            (StopState::Signalled { pid: p, waited_ms: (w + POLL_MS) as u32 }, StopAction::Sleep(POLL_MS))
        } else {
            (StopState::Killed { pid: p }, StopAction::Kill(p))
        },
        StopState::Killed { .. } => (StopState::Done, StopAction::RemovePidFile),
        StopState::Done => (StopState::Done, StopAction::Notice),
    }
}

/// The states that `stop` passes through: a wait is a whole number of polls
/// within the grace period.
pub open spec fn stop_state_ok(s: StopState) -> bool {
    match s {
        StopState::Signalled { waited_ms: w, .. } => w <= GRACE_MS && w % POLL_MS == 0,
        _ => true,
    }
}

pub fn stop_step(s: StopState, pid: Option<u32>, alive: bool) -> (r: (StopState, StopAction))
    requires
        stop_state_ok(s),
    ensures
        r == stop_next(s, pid, alive),
        stop_state_ok(r.0),
{
    match s {
        StopState::Begin => match pid {
            None => (StopState::Done, StopAction::Notice),
            Some(p) => if alive {
                (StopState::Signalled { pid: p, waited_ms: 0 }, StopAction::Terminate(p))
            } else {
                (StopState::Done, StopAction::RemovePidFile)
            },
        },
        StopState::Signalled { pid: p, waited_ms: w } => if !alive {
            (StopState::Done, StopAction::RemovePidFile)
        } else if w < GRACE_MS {
            (StopState::Signalled { pid: p, waited_ms: w + POLL_MS }, StopAction::Sleep(POLL_MS))
        } else {
            (StopState::Killed { pid: p }, StopAction::Kill(p))
        },
        StopState::Killed { .. } => (StopState::Done, StopAction::RemovePidFile),
        StopState::Done => (StopState::Done, StopAction::Notice),
    }
}

/// The state after `stop` has taken one step per observation in `obs`, or
/// fewer if it finished.
pub open spec fn stop_run(s: StopState, pid: Option<u32>, obs: Seq<bool>) -> StopState
    decreases obs.len(),
{
    if obs.len() == 0 || s is Done {
        s
    } else {
        stop_run(stop_next(s, pid, obs[0]).0, pid, obs.drop_first())
    }
}

/// The milliseconds that `stop` sleeps along the same steps.
pub open spec fn stop_slept(s: StopState, pid: Option<u32>, obs: Seq<bool>) -> nat
    decreases obs.len(),
{
    if obs.len() == 0 || s is Done {
        0
    } else {
        let (n, a) = stop_next(s, pid, obs[0]);
        (if a is Sleep { a->Sleep_0 as nat } else { 0nat }) + stop_slept(n, pid, obs.drop_first())
    }
}

/// The most steps that `stop` takes from `s`.
pub open spec fn stop_steps_left(s: StopState) -> nat {
    match s {
        StopState::Begin => (GRACE_MS / POLL_MS + 3) as nat,
        StopState::Signalled { waited_ms: w, .. } => ((GRACE_MS - w) as int / POLL_MS as int + 2) as nat,
        StopState::Killed { .. } => 1,
        StopState::Done => 0,
    }
}

/// The last action that `stop` takes along the same steps.
pub open spec fn stop_last(s: StopState, pid: Option<u32>, obs: Seq<bool>) -> Option<StopAction>
    decreases obs.len(),
{
    if obs.len() == 0 || s is Done {
        None
    } else {
        let (n, a) = stop_next(s, pid, obs[0]);
        match stop_last(n, pid, obs.drop_first()) {
            Some(b) => Some(b),
            None => Some(a),
        }
    }
}

proof fn lemma_stop_from(s: StopState, pid: Option<u32>, obs: Seq<bool>)
    requires
        stop_state_ok(s),
        obs.len() >= stop_steps_left(s),
        pid is Some || !(s is Begin),
    ensures
        stop_run(s, pid, obs) is Done,
        stop_slept(s, pid, obs) <= match s {
            StopState::Signalled { waited_ms: w, .. } => (GRACE_MS - w) as nat,
            StopState::Done => 0,
            StopState::Killed { .. } => 0,
            StopState::Begin => GRACE_MS as nat,
        },
        !(s is Done) ==> stop_last(s, pid, obs) == Some(StopAction::RemovePidFile),
    decreases obs.len(),
{
    if obs.len() > 0 && !(s is Done) {
        let n = stop_next(s, pid, obs[0]).0;
        assert(stop_state_ok(n));
        assert(stop_steps_left(n) < stop_steps_left(s));
        lemma_stop_from(n, pid, obs.drop_first());
    }
}

/// Once `status` has reported a running process, `stop` finishes within
/// `GRACE_MS / POLL_MS + 3` steps, whatever the process does meanwhile, after
/// sleeping no longer than the grace period in all, and its last action
/// removes the PID file, after which `status` reports the service stopped.
pub proof fn lemma_stop_finishes(pid: Option<u32>, alive: bool, obs: Seq<bool>)
    requires
        status_of(pid, alive) is Running,
        obs.len() >= GRACE_MS / POLL_MS + 3,
    ensures
        stop_run(StopState::Begin, pid, obs) is Done,
        stop_slept(StopState::Begin, pid, obs) <= GRACE_MS,
        stop_last(StopState::Begin, pid, obs) == Some(StopAction::RemovePidFile),
{
    lemma_stop_from(StopState::Begin, pid, obs);
}

/// `stop` counts in `waited_ms` each sleep since SIGTERM, and sends SIGKILL
/// only to a process that still lives once the whole grace period is used up.
pub proof fn lemma_kill_after_grace(s: StopState, pid: Option<u32>, alive: bool)
    requires
        stop_state_ok(s),
    ensures
        stop_next(s, pid, alive).1 is Kill ==> (alive && s is Signalled && s->waited_ms
            == GRACE_MS),
        stop_next(s, pid, alive).1 is Terminate ==> (stop_next(s, pid, alive).0 is Signalled
            && stop_next(s, pid, alive).0->waited_ms == 0),
        (s is Signalled && stop_next(s, pid, alive).1 is Sleep) ==> (stop_next(s, pid, alive).0 is Signalled
            && stop_next(s, pid, alive).0->waited_ms == s->waited_ms + stop_next(
            s,
            pid,
            alive,
        ).1->Sleep_0),
{
}

} // verus!
