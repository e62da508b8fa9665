//! What the kernel probes compute from what the kernel hands them: the pid
//! and parent pid they report and the event records they submit.
use vstd::prelude::*;

use crate::common::{
    exec_payload_bytes, open_payload_bytes, Event, EventKind, EventPayload, ExecPayload,
    OpenPayload, COMM_LEN, PATH_LEN,
};

verus! {

/// The process id in a combined pid/thread-group word: its upper half.
pub open spec fn pid_of_spec(pid_tgid: u64) -> u32 {
    (pid_tgid / 0x1_0000_0000) as u32
}

/// The process id in a combined pid/thread-group word, as the kernel's
/// `bpf_get_current_pid_tgid` hands it: its upper 32 bits.
pub fn pid_of(pid_tgid: u64) -> (r: u32)
    ensures
        r == pid_of_spec(pid_tgid),
{
    proof {
        vstd::bits::lemma_u64_shr_is_div(pid_tgid, 32);
        vstd::arithmetic::power2::lemma2_to64();
    }
    let upper: u64 = pid_tgid >> 32u64;
    assert(upper < 0x1_0000_0000) by (nonlinear_arith)
        requires
            upper == pid_tgid / 0x1_0000_0000,
            pid_tgid <= u64::MAX,
    ;
    upper as u32
}

/// The parent pid that an exec event reports for a parent thread-group id
/// that could be read (`None` where there is no task, no parent, or a read
/// failed).
pub open spec fn ppid_spec(parent_tgid: Option<i32>) -> u32 {
    match parent_tgid {
        None => 0,
        Some(t) => (if t >= 0 { t as int } else { t + 0x1_0000_0000 }) as u32,
    }
}

/// The parent pid that an exec event reports: the parent's thread-group id
/// as an unsigned word, or 0 where there is no task, no parent, or the
/// parent could not be read.
pub fn ppid_of(parent_tgid: Option<i32>) -> (r: u32)
    ensures
        match parent_tgid {
            None => r == 0,
            Some(t) => r == (if t >= 0 { t as int } else { t + 0x1_0000_0000 }),
        },
        r == ppid_spec(parent_tgid),
{
    match parent_tgid {
        None => 0,
        Some(t) => {
            if t >= 0 {
                t as u32
            } else {
                let wide: i64 = t as i64 + 0x1_0000_0000i64;
                wide as u32
            }
        },
    }
}

/// The event that the exec probe submits: the current task's pid, its
/// parent's pid and its command name.
pub fn exec_event(pid_tgid: u64, ppid: u32, comm: [u8; COMM_LEN]) -> (e: Event)
    ensures
        e.kind == EventKind::Exec,
        e.payload.bytes@ == exec_payload_bytes(
            ExecPayload { pid: pid_of_spec(pid_tgid), ppid, comm },
        ),
{
    let pid = pid_of(pid_tgid);
    Event { kind: EventKind::Exec, payload: EventPayload::from_exec(ExecPayload { pid, ppid, comm }) }
}

/// The event that the open probe submits: the current task's pid and
/// command name, and the path it opened.
pub fn open_event(pid_tgid: u64, comm: [u8; COMM_LEN], filename: [u8; PATH_LEN]) -> (e: Event)
    ensures
        e.kind == EventKind::Open,
        e.payload.bytes@ == open_payload_bytes(
            OpenPayload { pid: pid_of_spec(pid_tgid), comm, filename },
        ),
{
    let pid = pid_of(pid_tgid);
    Event { kind: EventKind::Open, payload: EventPayload::from_open(OpenPayload { pid, comm, filename }) }
}

/// What the exec probe submits, given what the kernel helpers returned: the
/// current task's command name (`None` where it could not be read), the
/// pid/thread-group word, and the parent's thread-group id (`None` where there
/// is no task, no parent, or a read failed). Without a command name nothing
/// is submitted; else the exec event of the task.
pub fn exec_probe_event(comm: Option<[u8; COMM_LEN]>, pid_tgid: u64, parent_tgid: Option<i32>) -> (r:
    Option<Event>)
    ensures
        r is Some <==> comm is Some,
        r matches Some(e) ==> {
            &&& e.kind == EventKind::Exec
            &&& e.payload.bytes@ == exec_payload_bytes(
                ExecPayload {
                    pid: pid_of_spec(pid_tgid),
                    ppid: ppid_spec(parent_tgid),
                    comm: comm.unwrap(),
                },
            )
        },
{
    match comm {
        None => None,
        Some(name) => {
            let ppid = ppid_of(parent_tgid);
            Some(exec_event(pid_tgid, ppid, name))
        },
    }
}

/// What the open probe submits, given what the kernel helpers returned: the
/// current task's command name (`None` where it could not be read), the
/// pid/thread-group word, and the opened path as a zero-filled buffer (`None`
/// where the path's address or the path itself could not be read). Without a
/// name or a path nothing is submitted; else the open event of the task.
pub fn open_probe_event(
    comm: Option<[u8; COMM_LEN]>,
    pid_tgid: u64,
    filename: Option<[u8; PATH_LEN]>,
) -> (r: Option<Event>)
    ensures
        r is Some <==> comm is Some && filename is Some,
        r matches Some(e) ==> {
            &&& e.kind == EventKind::Open
            &&& e.payload.bytes@ == open_payload_bytes(
                OpenPayload {
                    pid: pid_of_spec(pid_tgid),
                    comm: comm.unwrap(),
                    filename: filename.unwrap(),
                },
            )
        },
{
    match (comm, filename) {
        (Some(name), Some(path)) => Some(open_event(pid_tgid, name, path)),
        _ => None,
    }
}

} // verus!
