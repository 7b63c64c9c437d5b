//! Which process is the running gateway.
use vstd::prelude::*;
use vstd::string::*;

use crate::text::{
    contains, decimal, decimal_u64, is_digit, law_decimals_read_back, lemma_in_turn_contains,
    lemma_one, opt_view, parse_nat, parse_u64, same,
    trim, trimmed,
};

verus! {

pub const PID_FILE: &'static str = "kumo.pid";

pub const LOG_FILE: &'static str = "kumo.log";

/// How long `stop` waits for a graceful shutdown before escalating to a hard kill, in seconds.
pub const STOP_GRACE_PERIOD: u64 = 10;

/// What `stop` does next, once it has asked the gateway to shut down.
#[derive(Clone, Copy, Debug, PartialEq, Eq, Structural)]
pub enum StopStep {
    /// The gateway is gone.
    Stopped,
    /// Look again in a moment.
    Wait,
    /// The gateway did not go in time.
    Kill,
}

/// What to do about a process that was told to stop.
pub open spec fn stopping(waited_ms: u64, alive: bool) -> StopStep {
    if !alive {
        StopStep::Stopped
    } else if waited_ms < STOP_GRACE_PERIOD * 1000 {
        StopStep::Wait
    } else {
        StopStep::Kill
    }
}

/// What `stop` does next, having waited this long for a gateway that is or is not there any more.
pub fn stop_step(waited_ms: u64, alive: bool) -> (r: StopStep)
    ensures
        r == stopping(waited_ms, alive),
{
    if !alive {
        StopStep::Stopped
    } else if waited_ms < STOP_GRACE_PERIOD * 1000 {
        StopStep::Wait
    } else {
        StopStep::Kill
    }
}

/// How long shutdown waits for a scheduled task that is already running, in seconds.
pub const SCHEDULER_SHUTDOWN_GRACE: u64 = 30;

/// What shutdown found when it went to stop the scheduler.
#[derive(Clone, Copy, Debug, PartialEq, Eq, Structural)]
pub struct SchedulerShutdown {
    /// False when the grace period ran out with a task still in flight.
    pub idle: bool,
    /// Rows left `running` that shutdown put back to `pending` itself.
    pub recovered: usize,
}

/// Finishes a shutdown of the scheduler: nothing that was claimed stays claimed, so that the next
/// start picks it up again.
pub fn finish_shutdown(database: &mut crate::storage::Database, idle: bool) -> (r: SchedulerShutdown)
    requires
        old(database).wf(),
    ensures
        final(database).wf(),
        *final(database) == (crate::storage::Database {
            tasks: final(database).tasks,
            ..*old(database)
        }),
        r.idle == idle,
        r.recovered == crate::order::positions(
            old(database).task_rows(),
            |row: crate::storage::tasks::TaskRowView|
                row.status == crate::storage::TaskStatus::Running,
        ).len(),
        final(database).task_rows() == old(database).task_rows().map_values(
            |row: crate::storage::tasks::TaskRowView| crate::storage::tasks::unstuck(row),
        ),
        forall|i: int|
            0 <= i < final(database).task_rows().len() ==> (#[trigger] final(database).task_rows()[i]).status != crate::storage::TaskStatus::Running,
{
    let recovered = database.reset_stuck_running_tasks();
    SchedulerShutdown { idle, recovered }
}

/// The process id that a PID file gives.
pub open spec fn recorded(contents: Seq<char>) -> Option<u32> {
    match parse_nat(trim(contents)) {
        Some(n) => if n <= u32::MAX {
            Some(n as u32)
        } else {
            None
        },
        None => None,
    }
}

/// The process id that a PID file gives; a file that gives none is of no use.
pub fn recorded_pid(contents: &str) -> (r: Option<u32>)
    ensures
        r == recorded(contents@),
{
    match parse_u64(trimmed(contents).as_str()) {
        Some(n) => if n <= 4294967295u64 {
            Some(n as u32)
        } else {
            None
        },
        None => None,
    }
}

/// A process and the program that it runs, where that is known.
#[derive(Debug)]
pub struct ProcessInfo {
    pub pid: u32,
    pub exe: Option<String>,
}

/// Whether a process is another one of the same program.
pub open spec fn is_instance(process: ProcessInfo, own_pid: u32, exe: Seq<char>) -> bool {
    process.pid != own_pid && process.exe is Some && process.exe->0@ == exe
}

/// The first other process of the same program.
pub open spec fn first_instance(
    processes: Seq<ProcessInfo>,
    own_pid: u32,
    exe: Seq<char>,
    from: int,
) -> Option<u32>
    decreases processes.len() - from,
{
    if from < 0 || from >= processes.len() {
        None
    } else if is_instance(processes[from], own_pid, exe) {
        Some(processes[from].pid)
    } else {
        first_instance(processes, own_pid, exe, from + 1)
    }
}

/// The first other process of the same program, where the program is known.
pub open spec fn other_instance(
    processes: Seq<ProcessInfo>,
    own_pid: u32,
    exe: Option<Seq<char>>,
) -> Option<u32> {
    match exe {
        Some(exe) => first_instance(processes, own_pid, exe, 0),
        None => None,
    }
}

/// Looks for another process of the same program: this is how an instance is found that a service
/// manager started, since nothing wrote a PID file for it. Every other command runs to completion
/// at once, so such a process is the gateway. None is found where this program's own path is not
/// known.
pub fn find_running_instance(processes: &Vec<ProcessInfo>, own_pid: u32, exe: Option<&str>) -> (r:
    Option<u32>)
    ensures
        r == other_instance(processes@, own_pid, opt_view(exe)),
{
    let own_exe = match exe {
        Some(exe) => exe,
        None => {
            return None;
        },
    };
    let mut i: usize = 0;
    while i < processes.len()
        invariant
            i <= processes@.len(),
            exe == Some(own_exe),
            other_instance(processes@, own_pid, opt_view(exe)) == first_instance(
                processes@,
                own_pid,
                own_exe@,
                i as int,
            ),
        decreases processes@.len() - i,
    {
        if processes[i].pid != own_pid {
            if let Some(other) = &processes[i].exe {
                if same(other.as_str(), own_exe) {
                    return Some(processes[i].pid);
                }
            }
        }
        i = i + 1;
    }
    None
}

pub open spec fn is_alive(processes: Seq<ProcessInfo>, pid: u32) -> bool {
    exists|i: int| 0 <= i < processes.len() && (#[trigger] processes[i]).pid == pid
}

fn alive(processes: &Vec<ProcessInfo>, pid: u32) -> (r: bool)
    ensures
        r == is_alive(processes@, pid),
{
    let mut i: usize = 0;
    while i < processes.len()
        invariant
            i <= processes@.len(),
            forall|k: int| 0 <= k < i ==> (#[trigger] processes@[k]).pid != pid,
        decreases processes@.len() - i,
    {
        if processes[i].pid == pid {
            return true;
        }
        i = i + 1;
    }
    false
}

/// The process that a PID file names, where it is alive.
pub open spec fn noted_pid(pid_file: Option<Seq<char>>, processes: Seq<ProcessInfo>) -> Option<u32> {
    match pid_file {
        Some(contents) => match recorded(contents) {
            Some(pid) if is_alive(processes, pid) => Some(pid),
            _ => None,
        },
        None => None,
    }
}

/// What is known of a running gateway.
#[derive(Clone, Copy, Debug, PartialEq, Eq, Structural)]
pub struct Running {
    pub pid: Option<u32>,
    /// Whether the PID file no longer reflects reality and is to be dropped.
    pub stale_file: bool,
}

/// The gateway's process: the one in the PID file where it is alive, or else another process of
/// the same program. `pid_file` is what the PID file holds, if there is one.
pub fn running_pid(
    pid_file: Option<&str>,
    processes: &Vec<ProcessInfo>,
    own_pid: u32,
    exe: Option<&str>,
) -> (r: Running)
    ensures
        ({
            let noted = noted_pid(opt_view(pid_file), processes@);
            &&& r.stale_file == (pid_file is Some && noted is None)
            &&& r.pid == (if noted is Some {
                noted
            } else {
                other_instance(processes@, own_pid, opt_view(exe))
            })
        }),
{
    if let Some(contents) = pid_file {
        if let Some(pid) = recorded_pid(contents) {
            if alive(processes, pid) {
                return Running { pid: Some(pid), stale_file: false };
            }
        }
    }
    Running {
        pid: find_running_instance(processes, own_pid, exe),
        stale_file: pid_file.is_some(),
    }
}

/// A running gateway as a second one is told of it.
pub open spec fn running_text(pid: u32) -> Seq<char> {
    "Kumo is already running (pid "@ + decimal(pid as nat)
        + "). Use `kumo stop` first, or `kumo restart`."@
}

/// Why a second gateway is not started.
pub fn already_running(pid: u32) -> (r: String)
    ensures
        r@ == running_text(pid),
{
    let mut r = "Kumo is already running (pid ".to_owned();
    r.push_str(decimal_u64(pid as u64).as_str());
    r.push_str("). Use `kumo stop` first, or `kumo restart`.");
    r
}

/// A noted process number is read back.
pub proof fn law_noted_processes_are_read_back(pid: u32)
    ensures
        recorded(decimal(pid as nat)) == Some(pid),
{
    let text = decimal(pid as nat);
    law_decimals_read_back(pid as nat);
    assert(is_digit(text[0]));
    assert(is_digit(text[text.len() - 1]));
    assert(trim(text) == text);
}

/// Another instance is another process of the same program, the first one of them, and there is none
/// only where no other process is one.
pub proof fn law_another_instance_runs_the_same_program(
    processes: Seq<ProcessInfo>,
    own_pid: u32,
    exe: Seq<char>,
)
    ensures
        other_instance(processes, own_pid, Some(exe)) matches Some(pid) ==> pid != own_pid
            && exists|i: int|
            0 <= i < processes.len() && (#[trigger] processes[i]).pid == pid
                && processes[i].exe is Some && processes[i].exe->0@ == exe,
        other_instance(processes, own_pid, Some(exe)) is None ==> forall|i: int|
            0 <= i < processes.len() && (#[trigger] processes[i]).exe is Some
                && processes[i].exe->0@ == exe ==> processes[i].pid == own_pid,
        other_instance(processes, own_pid, None) is None,
{
    lemma_first_instance(processes, own_pid, exe, 0);
}

proof fn lemma_first_instance(
    processes: Seq<ProcessInfo>,
    own_pid: u32,
    exe: Seq<char>,
    from: int,
)
    requires
        0 <= from,
    ensures
        first_instance(processes, own_pid, exe, from) matches Some(pid) ==> pid != own_pid
            && exists|i: int|
            from <= i < processes.len() && (#[trigger] processes[i]).pid == pid
                && processes[i].exe is Some && processes[i].exe->0@ == exe,
        first_instance(processes, own_pid, exe, from) is None ==> forall|i: int|
            from <= i < processes.len() && (#[trigger] processes[i]).exe is Some
                && processes[i].exe->0@ == exe ==> processes[i].pid == own_pid,
    decreases processes.len() - from,
{
    if from < processes.len() {
        if is_instance(processes[from], own_pid, exe) {
            assert(processes[from].pid != own_pid);
        } else {
            lemma_first_instance(processes, own_pid, exe, from + 1);
        }
    }
}

/// A process that is being stopped is left alone once it is gone, waited for as long as it may take,
/// and only then killed.
pub proof fn law_stopping_is_patient(waited_ms: u64)
    ensures
        stopping(waited_ms, false) == StopStep::Stopped,
        waited_ms < STOP_GRACE_PERIOD * 1000 ==> stopping(waited_ms, true) == StopStep::Wait,
        waited_ms >= STOP_GRACE_PERIOD * 1000 ==> stopping(waited_ms, true) == StopStep::Kill,
{
}

/// A PID file is believed as long as the process it names is alive, and no longer.
pub proof fn law_only_living_processes_are_believed(pid: u32, processes: Seq<ProcessInfo>)
    ensures
        (exists|i: int| 0 <= i < processes.len() && (#[trigger] processes[i]).pid == pid)
            ==> noted_pid(Some(decimal(pid as nat)), processes) == Some(pid),
        (forall|i: int| 0 <= i < processes.len() ==> (#[trigger] processes[i]).pid != pid)
            ==> noted_pid(Some(decimal(pid as nat)), processes) is None,
        noted_pid(None, processes) is None,
{
    law_noted_processes_are_read_back(pid);
}

/// A second gateway is told which process runs already.
pub proof fn law_the_running_process_is_named(pid: u32)
    ensures
        contains(running_text(pid), decimal(pid as nat)),
{
    let number = decimal(pid as nat);
    let foot = "). Use `kumo stop` first, or `kumo restart`."@;
    lemma_one("Kumo is already running (pid "@, number, foot);
    lemma_in_turn_contains(running_text(pid), seq![number], 0);
}

} // verus!
