//! What `wait(2)` says of a process that ended.

use vstd::prelude::*;

verus! {

pub const SIGNAL_EXIT_STATUS_OFFSET: u32 = 128;

/// The part of a wait status that says what became of the task: zero for an
/// exit, 127 for a stop, else the signal that ended it.
pub open spec fn fate(status: i32) -> int {
    (status as int) % 128
}

/// The second byte of a wait status: the exit status, or the signal that
/// stopped the task.
pub open spec fn detail(status: i32) -> int {
    (status as int / 256) % 256
}

/// The exit code that a wait status stands for.
pub open spec fn exit_code(status: i32) -> u32 {
    if fate(status) == 0 {
        detail(status) as u32
    } else {
        (128 + fate(status)) as u32
    }
}

/// `libc::WIFEXITED`: whether a status stands for an exit, that is whether
/// its low seven bits are zero.
pub assume_specification[ libc::WIFEXITED ](status: i32) -> (exited: bool)
    ensures
        exited == (status & 0x7f == 0),
;

/// `libc::WEXITSTATUS`: the second byte of a status.
pub assume_specification[ libc::WEXITSTATUS ](status: i32) -> (code: i32)
    ensures
        code == (status >> 8) & 0xff,
;

/// `libc::WTERMSIG`: the low seven bits of a status.
pub assume_specification[ libc::WTERMSIG ](status: i32) -> (signal: i32)
    ensures
        signal == status & 0x7f,
;

/// The exit code of a process, as a shell would give it.
pub fn exit_code_of(status: i32) -> (code: u32)
    ensures
        code == exit_code(status),
{
    assert(status & 0x7f == status % 128) by (bit_vector);
    assert((status >> 8) & 0xff == (status / 256) % 256) by (bit_vector);
    if libc::WIFEXITED(status) {
        libc::WEXITSTATUS(status) as u32
    } else {
        SIGNAL_EXIT_STATUS_OFFSET + libc::WTERMSIG(status) as u32
    }
}

/// An exit code, no further than a process can hand on.
pub open spec fn clamped(code: u32) -> u8 {
    if code > 255 {
        255
    } else {
        code as u8
    }
}

/// An exit code that a process can hand on is handed on, and a larger one is
/// the largest that it can.
pub proof fn lemma_clamped(code: u32)
    ensures
        code <= 255 ==> clamped(code) == code,
        code > 255 ==> clamped(code) == 255,
{
}

pub fn clamp_code(code: u32) -> (clamp: u8)
    ensures
        clamp == clamped(code),
{
    if code > 255 {
        255
    } else {
        code as u8
    }
}

} // verus!
