use thunder::error::ThunderError;
use thunder::supervisor::{
    check_start, parse_pid, pid_file_text, record_start, status, stop_step, Status, StopAction,
    StopState, GRACE_MS, POLL_MS,
};

#[test]
fn pid_file_text_and_back() {
    assert_eq!(pid_file_text(4321), "4321\n");
    assert_eq!(parse_pid(&pid_file_text(4321)), Some(4321));
    assert_eq!(parse_pid("  17 \n"), Some(17));
    assert_eq!(parse_pid(""), None);
    assert_eq!(parse_pid("x1"), None);
}

#[test]
fn status_reports_running_and_stopped() {
    assert_eq!(status(Some(42), true), Status::Running(42));
    assert_eq!(status(Some(42), true).describe(), "running (pid 42)");
    assert_eq!(status(Some(42), false), Status::Stopped { stale: true });
    assert_eq!(status(None, false), Status::Stopped { stale: false });
    assert_eq!(status(None, true).describe(), "stopped");
}

#[test]
fn start_twice_is_already_running() {
    let mut pid = None;
    assert_eq!(record_start(&mut pid, false, 100), Ok(()));
    assert_eq!(pid, Some(100));
    assert_eq!(record_start(&mut pid, true, 200), Err(ThunderError::AlreadyRunning));
    assert_eq!(pid, Some(100));
    assert_eq!(check_start(Some(100), true), Err(ThunderError::AlreadyRunning));
}

#[test]
fn start_reclaims_stale_pid_file() {
    let mut pid = Some(55);
    assert_eq!(check_start(pid, false), Ok(()));
    assert_eq!(record_start(&mut pid, false, 77), Ok(()));
    assert_eq!(pid, Some(77));
}

fn run_stop(pid: Option<u32>, mut alive: impl FnMut(usize) -> bool) -> (Vec<StopAction>, u32) {
    let mut s = StopState::Begin;
    let mut actions = Vec::new();
    let mut slept = 0;
    let mut i = 0;
    while s != StopState::Done {
        let (n, a) = stop_step(s, pid, alive(i));
        if let StopAction::Sleep(ms) = a {
            slept += ms;
        }
        actions.push(a);
        s = n;
        i += 1;
        assert!(i <= (GRACE_MS / POLL_MS + 3) as usize);
    }
    (actions, slept)
}

#[test]
fn stop_kills_after_grace_period() {
    let (actions, slept) = run_stop(Some(9), |_| true);
    assert_eq!(actions[0], StopAction::Terminate(9));
    assert_eq!(slept, 5000);
    assert_eq!(actions[actions.len() - 2], StopAction::Kill(9));
    assert_eq!(actions[actions.len() - 1], StopAction::RemovePidFile);
    assert_eq!(actions.len(), 53);
}

#[test]
fn stop_after_term_exits() {
    let (actions, slept) = run_stop(Some(9), |i| i < 3);
    assert_eq!(
        actions,
        vec![
            StopAction::Terminate(9),
            StopAction::Sleep(100),
            StopAction::Sleep(100),
            StopAction::RemovePidFile
        ]
    );
    assert_eq!(slept, 200);
    assert_eq!(status(None, false), Status::Stopped { stale: false });
}

#[test]
fn stop_without_pid_file_is_a_notice() {
    let (actions, _) = run_stop(None, |_| false);
    assert_eq!(actions, vec![StopAction::Notice]);
    let (actions, _) = run_stop(Some(3), |_| false);
    assert_eq!(actions, vec![StopAction::RemovePidFile]);
}

#[test]
fn supervisor_lifecycle() {
    let mut pid = None;
    assert_eq!(record_start(&mut pid, false, 321), Ok(()));
    let st = status(pid, true);
    assert_eq!(st.describe(), "running (pid 321)");
    // the process was killed from outside
    let st = status(pid, false);
    assert_eq!(st, Status::Stopped { stale: true });
    assert_eq!(st.describe(), "stopped");
    pid = None;
    assert_eq!(record_start(&mut pid, false, 654), Ok(()));
    assert_eq!(pid, Some(654));
}
