//! Whether a process exists, and what that means for the daemon.

use vstd::prelude::*;

use crate::text::{concat3, decimal, law_a_part_occurs_in_the_whole, occurs_in, push_u64};

verus! {

/// What probing a process with the null signal said.
#[derive(Debug, Clone, Copy, PartialEq, Eq, Structural)]
pub enum Probe {
    /// The signal could be sent.
    Sent,
    /// There is such a process, but it may not be signalled.
    NotPermitted,
    /// There is no such process, or the probe failed.
    Failed,
}

/// Whether a process can have this number: zero means the caller's group, and numbers that are
/// negative to the system mean groups too.
pub open spec fn names_a_process(pid: u32) -> bool {
    0 < pid <= 0x7fff_ffff
}

/// Whether the number can be probed.
pub fn can_be_probed(pid: u32) -> (b: bool)
    ensures
        b == names_a_process(pid),
{
    0 < pid && pid <= 0x7fff_ffff
}

/// Whether the process exists, given what the probe said. A process that may not be signalled
/// exists.
pub fn pid_is_alive(pid: u32, probe: Probe) -> (b: bool)
    ensures
        b == (names_a_process(pid) && probe != Probe::Failed),
{
    if !can_be_probed(pid) {
        return false;
    }
    match probe {
        Probe::Sent => true,
        Probe::NotPermitted => true,
        Probe::Failed => false,
    }
}

/// What is known of the daemon.
#[derive(Debug, Clone, Copy, PartialEq, Eq, Structural)]
pub enum DaemonState {
    /// There is no PID file.
    NoPidFile,
    Running(u32),
    /// The PID file names a process that is gone.
    Stale(u32),
}

/// What is known of the daemon, given its PID file and the probe of the process it names.
pub fn daemon_state(recorded: Option<u32>, probe: Probe) -> (s: DaemonState)
    ensures
        s == match recorded {
            None => DaemonState::NoPidFile,
            Some(pid) => if names_a_process(pid) && probe != Probe::Failed {
                DaemonState::Running(pid)
            } else {
                DaemonState::Stale(pid)
            },
        },
{
    match recorded {
        None => DaemonState::NoPidFile,
        Some(pid) => {
            if pid_is_alive(pid, probe) {
                DaemonState::Running(pid)
            } else {
                DaemonState::Stale(pid)
            }
        },
    }
}

fn with_pid(before: &str, pid: u32, after: &str) -> (m: String)
    ensures
        m@ == before@ + decimal(pid as nat) + after@,
{
    let mut m = before.to_owned();
    push_u64(&mut m, pid as u64);
    m.append(after);
    m
}

/// What `status` prints, and its exit code: 0 only while the daemon runs.
pub fn status(state: DaemonState, pid_path: &str) -> (r: (String, u8))
    ensures
        r.0@ == match state {
            DaemonState::NoPidFile => "loop-engine: not running (no PID file at "@ + pid_path@
                + ")"@,
            DaemonState::Running(pid) => "loop-engine: running (pid="@ + decimal(pid as nat)
                + ")"@,
            DaemonState::Stale(pid) => "loop-engine: not running (stale PID file at "@ + pid_path@
                + ", pid="@ + decimal(pid as nat) + ")"@,
        },
        r.1 == if state is Running {
            0u8
        } else {
            1
        },
{
    match state {
        DaemonState::NoPidFile => (
            concat3("loop-engine: not running (no PID file at ", pid_path, ")"),
            1,
        ),
        DaemonState::Running(pid) => (with_pid("loop-engine: running (pid=", pid, ")"), 0),
        DaemonState::Stale(pid) => {
            let before = concat3(
                "loop-engine: not running (stale PID file at ",
                pid_path,
                ", pid=",
            );
            (with_pid(before.as_str(), pid, ")"), 1)
        },
    }
}

/// What `stop` does.
#[derive(Debug, Clone, PartialEq, Eq)]
pub enum StopPlan {
    /// There is nothing to stop.
    Nothing { message: String },
    /// Remove the PID file.
    ClearPidFile { message: String },
    /// Ask the process to terminate, then print the message.
    Terminate { pid: u32, message: String },
}

/// Plans how to stop the daemon. Only a process that exists is signalled.
pub fn stop(state: DaemonState) -> (plan: StopPlan)
    ensures
        match state {
            DaemonState::NoPidFile => plan matches StopPlan::Nothing { message } && message@
                == "loop-engine: not running (no PID file)"@,
            DaemonState::Stale(pid) => plan matches StopPlan::ClearPidFile { message } && message@
                == "loop-engine: PID file present (pid="@ + decimal(pid as nat)
                + ") but process not alive; clearing"@,
            DaemonState::Running(pid) => plan matches StopPlan::Terminate { pid: p, message } && p
                == pid && message@ == "loop-engine: sent SIGTERM to pid="@ + decimal(pid as nat),
        },
{
    match state {
        DaemonState::NoPidFile => StopPlan::Nothing {
            message: "loop-engine: not running (no PID file)".to_owned(),
        },
        DaemonState::Stale(pid) => StopPlan::ClearPidFile {
            message: with_pid(
                "loop-engine: PID file present (pid=",
                pid,
                ") but process not alive; clearing",
            ),
        },
        DaemonState::Running(pid) => {
            let mut message = "loop-engine: sent SIGTERM to pid=".to_owned();
            push_u64(&mut message, pid as u64);
            StopPlan::Terminate { pid, message }
        },
    }
}

// ---- Laws --------------------------------------------------------------------

/// A recorded process runs where its number names one and it answers the probe, even if it may not
/// be signalled; otherwise its record is stale. Only a running one is reported as success.
pub proof fn law_a_daemon_runs_while_its_process_answers(
    recorded: Option<u32>,
    probe: Probe,
    s: DaemonState,
    pid_path: &str,
    report: (String, u8),
)
    requires
        call_ensures(daemon_state, (recorded, probe), s),
        call_ensures(status, (s, pid_path), report),
    ensures
        recorded is None <==> s == DaemonState::NoPidFile,
        recorded matches Some(pid) ==> {
            let runs = pid != 0 && pid <= 0x7fff_ffff && (probe == Probe::Sent || probe
                == Probe::NotPermitted);
            &&& runs <==> s == DaemonState::Running(pid)
            &&& !runs <==> s == DaemonState::Stale(pid)
        },
        report.1 == 0 <==> s is Running,
        s is Running ==> occurs_in(report.0@, decimal(s->Running_0 as nat)),
        !(s is Running) ==> occurs_in(report.0@, pid_path@),
{
    match s {
        DaemonState::Running(pid) => {
            law_a_part_occurs_in_the_whole(
                "loop-engine: running (pid="@,
                decimal(pid as nat),
                ")"@,
                report.0@,
            );
        },
        DaemonState::NoPidFile => {
            law_a_part_occurs_in_the_whole(
                "loop-engine: not running (no PID file at "@,
                pid_path@,
                ")"@,
                report.0@,
            );
        },
        DaemonState::Stale(pid) => {
            let a = "loop-engine: not running (stale PID file at "@;
            let b = ", pid="@ + decimal(pid as nat) + ")"@;
            assert(report.0@ =~= a + pid_path@ + b);
            law_a_part_occurs_in_the_whole(a, pid_path@, b, report.0@);
        },
    }
}

/// Only a running process is asked to terminate, and only a stale record is removed.
pub proof fn law_only_the_running_are_stopped(state: DaemonState, plan: StopPlan)
    requires
        call_ensures(stop, (state,), plan),
    ensures
        state is Running <==> plan is Terminate,
        state is Running ==> plan->pid == state->Running_0,
        state is Stale <==> plan is ClearPidFile,
        state is NoPidFile <==> plan is Nothing,
{
}

} // verus!
