//! The small part of the Linux ptrace and wait ABI we use.

#[allow(unused_imports)]
use crate::status::{detail, fate};
use vstd::prelude::*;

verus! {

pub const TRACEME: u32 = 0;

pub const PEEKDATA: u32 = 2;

pub const CONT: u32 = 7;

pub const SYSCALL: u32 = 24;

pub const SETOPTIONS: u32 = 0x4200;

pub const GETEVENTMSG: u32 = 0x4201;

pub const GET_SYSCALL_INFO: u32 = 0x420e;

pub const O_TRACESYSGOOD: usize = 0x1;

pub const O_TRACEFORK: usize = 0x2;

pub const O_TRACEVFORK: usize = 0x4;

pub const O_TRACECLONE: usize = 0x8;

pub const O_TRACEEXEC: usize = 0x10;

pub const O_TRACEEXIT: usize = 0x40;

pub const O_TRACESECCOMP: usize = 0x80;

pub const O_EXITKILL: usize = 0x0010_0000;

pub const EVENT_FORK: u32 = 1;

pub const EVENT_VFORK: u32 = 2;

pub const EVENT_CLONE: u32 = 3;

pub const EVENT_EXEC: u32 = 4;

pub const EVENT_EXIT: u32 = 6;

pub const EVENT_SECCOMP: u32 = 7;

pub const WAIT_WALL: i32 = 0x4000_0000;

pub const SYSCALL_INFO_EXIT: u8 = 2;

pub const SYSCALL_INFO_SECCOMP: u8 = 3;

pub const EINTR: i32 = 4;

pub const ESRCH: i32 = 3;

pub const ECHILD: i32 = 10;

pub const SIGTRAP: i32 = 5;

pub const SIGSTOP: i32 = 19;

/// A stop for a system call, told apart from other traps.
pub const SYSCALL_STOP: i32 = 0x85;

/// What came of a ptrace operation, with nothing for a tracee that is gone.
pub open spec fn unless_dead<T>(result: Result<T, i32>) -> Result<Option<T>, i32> {
    match result {
        Ok(value) => Ok(Some(value)),
        Err(error) => if error == ESRCH {
            Ok(None)
        } else {
            Err(error)
        },
    }
}

/// Convert ESRCH into `None` when a tracee exits between ptrace operations.
/// Errors are given by their error number.
pub fn allow_dead<T>(result: Result<T, i32>) -> (allowed: Result<Option<T>, i32>)
    ensures
        allowed == unless_dead(result),
{
    match result {
        Ok(value) => Ok(Some(value)),
        Err(error) => if error == ESRCH {
            Ok(None)
        } else {
            Err(error)
        },
    }
}

/// Takes it as done when a tracee is gone.
pub fn ignore_dead(result: Result<i64, i32>) -> (ignored: Result<(), i32>)
    ensures
        ignored == (match unless_dead(result) {
            Ok(_) => Ok::<(), i32>(()),
            Err(error) => Err(error),
        }),
{
    match result {
        Ok(_) => Ok(()),
        Err(error) => if error == ESRCH {
            Ok(())
        } else {
            Err(error)
        },
    }
}

/// Whether a wait status stands for a stop.
pub open spec fn stopped(status: i32) -> bool {
    status % 256 == 0x7f
}

/// Whether a wait status stands for an end by a signal.
pub open spec fn signaled(status: i32) -> bool {
    1 <= fate(status) <= 126
}

/// A task that was waited for has exited, was ended by a signal, or stopped,
/// and no two of these. What is none of them has its lowest byte all ones.
pub proof fn lemma_fates_exclusive(status: i32)
    ensures
        !(fate(status) == 0 && signaled(status)),
        !(fate(status) == 0 && stopped(status)),
        !(signaled(status) && stopped(status)),
        fate(status) == 0 || signaled(status) || stopped(status) || status % 256 == 0xff,
{
}

pub fn wifexited(status: i32) -> (exited: bool)
    ensures
        exited == (fate(status) == 0),
{
    assert(status & 0x7f == status % 128) by (bit_vector);
    status & 0x7f == 0
}

pub fn wexitstatus(status: i32) -> (code: i32)
    ensures
        code == detail(status),
{
    assert((status >> 8) & 0xff == (status / 256) % 256) by (bit_vector);
    (status >> 8) & 0xff
}

pub fn wifsignaled(status: i32) -> (ended: bool)
    ensures
        ended == signaled(status),
{
    assert(status & 0x7f == status % 128) by (bit_vector);
    // For a ptrace stop the low seven bits are 0x7f; one more only reads as
    // negative once it is narrowed to a signed byte.
    let low: i32 = status & 0x7f;
    let narrowed: i8 = #[verifier::truncate] ((low + 1) as i8);
    assert((((low + 1) as i8) >> 1) > 0 <==> 1 <= low <= 126) by (bit_vector)
        requires
            0 <= low < 128,
    ;
    (narrowed >> 1) > 0
}

pub fn wtermsig(status: i32) -> (signal: i32)
    ensures
        signal == fate(status),
{
    assert(status & 0x7f == status % 128) by (bit_vector);
    status & 0x7f
}

pub fn wifstopped(status: i32) -> (found: bool)
    ensures
        found == stopped(status),
{
    assert(status & 0xff == status % 256) by (bit_vector);
    status & 0xff == 0x7f
}

pub fn wstopsig(status: i32) -> (signal: i32)
    ensures
        signal == detail(status),
{
    wexitstatus(status)
}

/// The ptrace event that a stop is for, or zero.
pub open spec fn stop_event(status: i32) -> u32 {
    ((status as int / 65536) % 65536) as u32
}

pub fn wstopevent(status: i32) -> (event: u32)
    ensures
        event == stop_event(status),
{
    assert((status as u32) >> 16 == (status / 65536) % 65536) by (bit_vector);
    (status as u32) >> 16
}

} // verus!
