//! Seccomp filter used to turn selected filesystem calls into ptrace events.

use vstd::prelude::*;

verus! {

pub const SET_MODE_FILTER: u32 = 1;

pub const RET_TRACE: u32 = 0x7ff0_0000;

pub const RET_ALLOW: u32 = 0x7fff_0000;

pub const BPF_LD_W_ABS: u16 = 0x20;

pub const BPF_JMP_JEQ_K: u16 = 0x15;

pub const BPF_RET_K: u16 = 0x06;

/// The numbers that the machine at hand gives to the calls of interest.
#[derive(Clone, Copy, Debug)]
pub struct SyscallNumbers {
    pub openat: i64,
    pub openat2: i64,
    pub renameat: i64,
    pub renameat2: i64,
    /// The two-argument call, which not every architecture has.
    pub rename: Option<i64>,
}

/// One instruction of a filter.
#[derive(Clone, Copy, Debug, PartialEq, Eq, Structural)]
pub struct SockFilter {
    pub code: u16,
    pub jt: u8,
    pub jf: u8,
    pub k: u32,
}

impl SockFilter {
    pub fn statement(code: u16, k: u32) -> (instruction: Self)
        ensures
            instruction == (SockFilter { code, jt: 0, jf: 0, k }),
    {
        SockFilter { code, jt: 0, jf: 0, k }
    }

    pub fn jump(code: u16, k: u32, jt: u8, jf: u8) -> (instruction: Self)
        ensures
            instruction == (SockFilter { code, jt, jf, k }),
    {
        SockFilter { code, jt, jf, k }
    }
}

/// What the kernel does with a call of number `nr`: it runs a filter from
/// `at` on with `loaded` in its register. A filter that reads anything but
/// the call's number, uses another instruction or runs off its end is none.
pub open spec fn verdict(program: Seq<SockFilter>, nr: u32, at: int, loaded: u32) -> Option<u32>
    decreases
        if at < program.len() {
            program.len() - at
        } else {
            0
        },
{
    if at < 0 || at >= program.len() {
        None
    } else {
        let instruction = program[at];
        if instruction.code == BPF_LD_W_ABS && instruction.k == 0 {
            verdict(program, nr, at + 1, nr)
        } else if instruction.code == BPF_JMP_JEQ_K {
            if loaded == instruction.k {
                verdict(program, nr, at + 1 + instruction.jt, loaded)
            } else {
                verdict(program, nr, at + 1 + instruction.jf, loaded)
            }
        } else if instruction.code == BPF_RET_K {
            Some(instruction.k)
        } else {
            None
        }
    }
}

/// A call's number as a filter sees it.
pub open spec fn filter_number(syscall: i64) -> u32 {
    (syscall as int % 0x1_0000_0000) as u32
}

/// The instructions of the filter for some calls.
pub open spec fn filter_program(syscalls: Seq<i64>) -> Seq<SockFilter> {
    Seq::new(
        2 * syscalls.len() + 2,
        |i: int|
            if i == 0 {
                SockFilter { code: BPF_LD_W_ABS, jt: 0, jf: 0, k: 0 }
            } else if i == 2 * syscalls.len() + 1 {
                SockFilter { code: BPF_RET_K, jt: 0, jf: 0, k: RET_ALLOW }
            } else if i % 2 == 1 {
                SockFilter {
                    code: BPF_JMP_JEQ_K,
                    jt: 0,
                    jf: 1,
                    k: filter_number(syscalls[(i - 1) / 2]),
                }
            } else {
                SockFilter { code: BPF_RET_K, jt: 0, jf: 0, k: RET_TRACE }
            },
    )
}

/// Whether a call is one of those listed, as far as a filter can tell.
pub open spec fn listed(syscalls: Seq<i64>, nr: u32) -> bool {
    exists|i: int| 0 <= i < syscalls.len() && #[trigger] filter_number(syscalls[i]) == nr
}

proof fn lemma_verdict_from(syscalls: Seq<i64>, nr: u32, from: int)
    requires
        0 <= from <= syscalls.len(),
        forall|i: int| 0 <= i < from ==> #[trigger] filter_number(syscalls[i]) != nr,
    ensures
        verdict(filter_program(syscalls), nr, 2 * from + 1, nr) == Some(
            if listed(syscalls, nr) {
                RET_TRACE
            } else {
                RET_ALLOW
            },
        ),
    decreases syscalls.len() - from,
{
    let program = filter_program(syscalls);
    let at = 2 * from + 1;
    if from < syscalls.len() {
        assert((at - 1) / 2 == from);
        assert(program[at].k == filter_number(syscalls[from]));
        if filter_number(syscalls[from]) == nr {
            assert(listed(syscalls, nr));
            assert(verdict(program, nr, at + 1, nr) == Some(RET_TRACE));
        } else {
            lemma_verdict_from(syscalls, nr, from + 1);
        }
    } else {
        assert(program[at].code == BPF_RET_K);
    }
}

/// The filter stops a task for exactly the listed calls and lets every other
/// one through.
pub proof fn lemma_filter_exact(syscalls: Seq<i64>, nr: u32)
    ensures
        verdict(filter_program(syscalls), nr, 0, 0) == Some(
            if listed(syscalls, nr) {
                RET_TRACE
            } else {
                RET_ALLOW
            },
        ),
{
    lemma_verdict_from(syscalls, nr, 0);
    assert(verdict(filter_program(syscalls), nr, 0, 0) == verdict(
        filter_program(syscalls),
        nr,
        1,
        nr,
    ));
}

/// The filter that stops a task when it is about to make one of `syscalls`.
pub fn filter_instructions(syscalls: &[i64]) -> (instructions: Vec<SockFilter>)
    ensures
        instructions@ == filter_program(syscalls@),
{
    let mut instructions: Vec<SockFilter> = Vec::new();
    instructions.push(SockFilter::statement(BPF_LD_W_ABS, 0));
    for i in 0..syscalls.len()
        invariant
            instructions@ =~= filter_program(syscalls@).take(2 * i + 1),
    {
        let syscall: i64 = syscalls[i];
        assert(syscall as u32 == syscall % 0x1_0000_0000) by (bit_vector);
        instructions.push(SockFilter::jump(BPF_JMP_JEQ_K, syscall as u32, 0, 1));
        instructions.push(SockFilter::statement(BPF_RET_K, RET_TRACE));
    }
    instructions.push(SockFilter::statement(BPF_RET_K, RET_ALLOW));
    instructions
}

/// The calls that open or move files.
pub open spec fn traced(numbers: SyscallNumbers) -> Seq<i64> {
    seq![numbers.openat, numbers.openat2, numbers.renameat, numbers.renameat2] + match numbers.rename {
        Some(rename) => seq![rename],
        None => seq![],
    }
}

pub fn traced_syscalls(numbers: &SyscallNumbers) -> (syscalls: Vec<i64>)
    ensures
        syscalls@ == traced(*numbers),
{
    let mut syscalls: Vec<i64> = Vec::new();
    syscalls.push(numbers.openat);
    syscalls.push(numbers.openat2);
    // Track artifacts moved into their final paths.
    syscalls.push(numbers.renameat);
    syscalls.push(numbers.renameat2);
    if let Some(rename) = numbers.rename {
        syscalls.push(rename);
    }
    syscalls
}

/// Whether a call moves a file.
pub open spec fn renames(numbers: SyscallNumbers, nr: i64) -> bool {
    numbers.rename == Some(nr) || nr == numbers.renameat || nr == numbers.renameat2
}

pub fn is_rename(numbers: &SyscallNumbers, nr: i64) -> (found: bool)
    ensures
        found == renames(*numbers, nr),
{
    is_bare_rename(numbers, nr) || nr == numbers.renameat || nr == numbers.renameat2
}

/// Whether a call moves a file and takes no directory descriptors.
pub fn is_bare_rename(numbers: &SyscallNumbers, nr: i64) -> (found: bool)
    ensures
        found == (numbers.rename == Some(nr)),
{
    match numbers.rename {
        Some(rename) => rename == nr,
        None => false,
    }
}

/// A task is stopped for the calls that open and move files, and for no other:
/// the filter answers with Linux's number for tracing or for allowing.
pub proof fn lemma_calls_filtered(numbers: SyscallNumbers, nr: u32)
    requires
        0 <= numbers.openat < 0x1_0000_0000,
        0 <= numbers.openat2 < 0x1_0000_0000,
        0 <= numbers.renameat < 0x1_0000_0000,
        0 <= numbers.renameat2 < 0x1_0000_0000,
        numbers.rename matches Some(rename) ==> 0 <= rename < 0x1_0000_0000,
    ensures
        ({
            let answer = verdict(filter_program(traced(numbers)), nr, 0, 0);
            let wanted = nr == numbers.openat || nr == numbers.openat2 || nr == numbers.renameat
                || nr == numbers.renameat2 || (numbers.rename matches Some(rename) && nr == rename);
            &&& wanted ==> answer == Some(0x7ff0_0000u32)
            &&& !wanted ==> answer == Some(0x7fff_0000u32)
        }),
{
    let calls = traced(numbers);
    lemma_filter_exact(calls, nr);
    assert(calls[0] == numbers.openat && calls[1] == numbers.openat2 && calls[2]
        == numbers.renameat && calls[3] == numbers.renameat2);
    assert(filter_number(calls[0]) == numbers.openat);
    assert(filter_number(calls[1]) == numbers.openat2);
    assert(filter_number(calls[2]) == numbers.renameat);
    assert(filter_number(calls[3]) == numbers.renameat2);
    if let Some(rename) = numbers.rename {
        assert(calls[4] == rename);
        assert(filter_number(calls[4]) == rename);
    }
}

/// The instructions of a filter, by the numbers that the kernel knows them by:
/// load the call's number, compare it with each in turn, and return.
pub proof fn lemma_instructions(syscalls: Seq<i64>, i: int)
    requires
        0 <= i < syscalls.len(),
    ensures
        filter_program(syscalls)[0] == (SockFilter { code: 0x20, jt: 0, jf: 0, k: 0 }),
        filter_program(syscalls)[2 * i + 1].code == 0x15,
        filter_program(syscalls)[2 * i + 1].jt == 0,
        filter_program(syscalls)[2 * i + 1].jf == 1,
        0 <= syscalls[i] < 0x1_0000_0000 ==> filter_program(syscalls)[2 * i + 1].k == syscalls[i],
        filter_program(syscalls)[2 * i + 2] == (SockFilter {
            code: 0x06,
            jt: 0,
            jf: 0,
            k: 0x7ff0_0000,
        }),
        filter_program(syscalls)[2 * syscalls.len() as int + 1] == (SockFilter {
            code: 0x06,
            jt: 0,
            jf: 0,
            k: 0x7fff_0000,
        }),
{
    assert((2 * i + 1 - 1) / 2 == i);
}

} // verus!
