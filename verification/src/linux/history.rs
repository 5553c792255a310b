//! What a whole recording on Linux writes of its processes.

#[allow(unused_imports)]
use super::{ptrace, SeccompRead, SyscallReturn, TracerView};
#[allow(unused_imports)]
use crate::model::{Process, SegmentView};
#[allow(unused_imports)]
use crate::perfetto::wire::Field;
#[allow(unused_imports)]
use crate::perfetto::{process_started_packets, segment_packets};
use vstd::prelude::*;

verus! {

/// What a tracer takes note of, one thing at a time.
pub enum Step {
    /// A task created another one.
    NewTask { tid: i32, child: i32, tgid: Option<i32>, now_ns: u64 },
    /// A task began to run a program.
    Exec {
        tid: i32,
        argv: Seq<Seq<char>>,
        cwd: Seq<char>,
        parent_pid: Option<i32>,
        now_ns: u64,
    },
    /// A task ended.
    Exit { tid: i32, code: u32, now_ns: u64 },
    /// A task stopped.
    Stop { tid: i32, status: i32, tgid: Option<i32>, now_ns: u64 },
    /// A task entered a call.
    Call { tid: i32, read: SeccompRead, now_ns: u64 },
    /// A task stopped at a system call.
    Return { tid: i32, returned: Option<SyscallReturn> },
}

/// What is written of a process.
pub enum Note {
    Announced { pid: i32 },
    /// A program that it ran; `last` if it ended with that.
    Segment { process: Process, segment: SegmentView, last: bool },
}

/// The packets of a note.
pub open spec fn note_packets(note: Note) -> Seq<Seq<Field>> {
    match note {
        Note::Announced { pid } => process_started_packets(pid),
        Note::Segment { process, segment, .. } => segment_packets(process, segment),
    }
}

/// The packets of some notes.
pub open spec fn packets_of(notes: Seq<Note>) -> Seq<Seq<Field>>
    decreases notes.len(),
{
    if notes.len() == 0 {
        Seq::empty()
    } else {
        packets_of(notes.drop_last()) + note_packets(notes.last())
    }
}

/// The processes that are announced and have not had their last segment yet.
pub open spec fn running(notes: Seq<Note>) -> Set<i32>
    decreases notes.len(),
{
    if notes.len() == 0 {
        Set::empty()
    } else {
        match notes.last() {
            Note::Announced { pid } => running(notes.drop_last()).insert(pid),
            Note::Segment { process, last, .. } => if last {
                running(notes.drop_last()).remove(process.pid)
            } else {
                running(notes.drop_last())
            },
        }
    }
}

/// Whether a process is announced only while none is running under its pid,
/// and has segments only while it runs.
pub open spec fn orderly(notes: Seq<Note>) -> bool
    decreases notes.len(),
{
    notes.len() > 0 ==> {
        &&& orderly(notes.drop_last())
        &&& match notes.last() {
            Note::Announced { pid } => !running(notes.drop_last()).contains(pid),
            Note::Segment { process, .. } => running(notes.drop_last()).contains(process.pid),
        }
    }
}

impl TracerView {
    /// After one thing was taken note of.
    pub open spec fn stepped(self, step: Step) -> TracerView {
        match step {
            Step::NewTask { tid, child, tgid, now_ns } => TracerView {
                active: self.active.insert(child),
                newborns: self.newborns.insert(child, self.tgid(tid)),
                ..self.registered(child, child_tgid(child, tgid), self.tgid(tid), now_ns)
            },
            Step::Exec { tid, argv, cwd, parent_pid, now_ns } => self.execed(
                tid,
                argv,
                cwd,
                parent_pid,
                now_ns,
            ),
            Step::Exit { tid, code, now_ns } => self.exited(tid, code, now_ns),
            Step::Stop { tid, status, tgid, now_ns } => self.at_stop(tid, status, tgid, now_ns),
            Step::Call { tid, read, now_ns } => self.entered(tid, read, now_ns),
            Step::Return { tid, returned } => self.returned(tid, returned),
        }
    }

    /// What is written of processes meanwhile.
    pub open spec fn step_notes(self, step: Step) -> Seq<Note> {
        match step {
            Step::NewTask { tid, child, tgid, .. } => self.announcement_notes(
                child_tgid(child, tgid),
                self.tgid(tid),
            ),
            Step::Exec { tid, now_ns, .. } => if !self.processes.contains_key(self.tgid(tid)) {
                seq![Note::Announced { pid: self.tgid(tid) }]
            } else {
                match self.replaced(tid, now_ns) {
                    Some((process, segment)) => seq![
                        Note::Segment { process, segment, last: false },
                    ],
                    None => seq![],
                }
            },
            Step::Exit { tid, code, now_ns } => match self.last_segment(tid, code, now_ns) {
                Some((process, segment)) => seq![Note::Segment { process, segment, last: true }],
                None => seq![],
            },
            Step::Stop { tid, tgid, .. } => if self.newborns.contains_key(tid) {
                self.announcement_notes(child_tgid(tid, tgid), self.newborns[tid])
            } else {
                seq![]
            },
            Step::Call { .. } => seq![],
            Step::Return { .. } => seq![],
        }
    }

    pub open spec fn announcement_notes(self, tgid: i32, parent_tgid: i32) -> Seq<Note> {
        if self.announces(tgid, parent_tgid) {
            seq![Note::Announced { pid: tgid }]
        } else {
            seq![]
        }
    }

    /// After several things were taken note of.
    pub open spec fn followed(self, steps: Seq<Step>) -> TracerView
        decreases steps.len(),
    {
        if steps.len() == 0 {
            self
        } else {
            self.followed(steps.drop_last()).stepped(steps.last())
        }
    }

    /// What is written of processes over several steps.
    pub open spec fn notes(self, steps: Seq<Step>) -> Seq<Note>
        decreases steps.len(),
    {
        if steps.len() == 0 {
            Seq::empty()
        } else {
            self.notes(steps.drop_last()) + self.followed(steps.drop_last()).step_notes(
                steps.last(),
            )
        }
    }

    /// What is written of some processes when recording ends, in that order.
    pub open spec fn last_notes(self, order: Seq<i32>, end_ns: u64) -> Seq<Note>
        decreases order.len(),
    {
        if order.len() == 0 {
            Seq::empty()
        } else {
            self.last_notes(order.drop_last(), end_ns) + match self.processes[order.last()].cut_off(
                end_ns,
            ) {
                Some((process, segment)) => seq![Note::Segment { process, segment, last: true }],
                None => seq![],
            }
        }
    }
}

/// The process of a task that may not be known.
pub open spec fn child_tgid(child: i32, tgid: Option<i32>) -> i32 {
    match tgid {
        Some(tgid) => tgid,
        None => child,
    }
}

proof fn lemma_packets_of_one(note: Note)
    ensures
        packets_of(seq![note]) == note_packets(note),
{
    let notes = seq![note];
    assert(notes.drop_last() =~= Seq::<Note>::empty());
    assert(packets_of(Seq::<Note>::empty()) == Seq::<Seq<Field>>::empty());
    assert(packets_of(notes) =~= note_packets(note));
}

proof fn lemma_packets_of_all(first: Seq<Note>, second: Seq<Note>)
    ensures
        packets_of(first + second) == packets_of(first) + packets_of(second),
    decreases second.len(),
{
    if second.len() == 0 {
        assert(first + second =~= first);
        assert(packets_of(first) + packets_of(second) =~= packets_of(first));
    } else {
        lemma_packets_of_all(first, second.drop_last());
        assert((first + second).drop_last() =~= first + second.drop_last());
        assert(packets_of(first + second) =~= packets_of(first) + packets_of(second));
    }
}

/// The notes are what the tracer writes of processes, packet by packet.
pub proof fn lemma_notes_are_written(
    state: TracerView,
    tid: i32,
    child: i32,
    tgid: Option<i32>,
    code: u32,
    status: i32,
    argv: Seq<Seq<char>>,
    cwd: Seq<char>,
    parent_pid: Option<i32>,
    now_ns: u64,
)
    ensures
        packets_of(state.step_notes(Step::NewTask { tid, child, tgid, now_ns }))
            == state.announcement(child_tgid(child, tgid), state.tgid(tid)),
        packets_of(state.step_notes(Step::Exec { tid, argv, cwd, parent_pid, now_ns }))
            == state.exec_packets(tid, now_ns),
        packets_of(state.step_notes(Step::Exit { tid, code, now_ns })) == (match state.last_segment(
            tid,
            code,
            now_ns,
        ) {
            Some((process, segment)) => segment_packets(process, segment),
            None => Seq::empty(),
        }),
        packets_of(state.step_notes(Step::Stop { tid, status, tgid, now_ns }))
            == state.stop_announcement(tid, tgid),
{
    lemma_packets_of_one(Note::Announced { pid: child_tgid(child, tgid) });
    lemma_packets_of_one(Note::Announced { pid: child_tgid(tid, tgid) });
    lemma_packets_of_one(Note::Announced { pid: state.tgid(tid) });
    if let Some((process, segment)) = state.replaced(tid, now_ns) {
        lemma_packets_of_one(Note::Segment { process, segment, last: false });
    }
    if let Some((process, segment)) = state.last_segment(tid, code, now_ns) {
        lemma_packets_of_one(Note::Segment { process, segment, last: true });
    }
}

/// The last notes are what the tracer writes at the end, packet by packet.
pub proof fn lemma_last_notes_are_written(state: TracerView, order: Seq<i32>, end_ns: u64)
    ensures
        packets_of(state.last_notes(order, end_ns)) == state.flushed(order, end_ns),
    decreases order.len(),
{
    if order.len() > 0 {
        let fewer = order.drop_last();
        lemma_last_notes_are_written(state, fewer, end_ns);
        match state.processes[order.last()].cut_off(end_ns) {
            Some((process, segment)) => {
                let note = Note::Segment { process, segment, last: true };
                lemma_packets_of_one(note);
                lemma_packets_of_all(state.last_notes(fewer, end_ns), seq![note]);
            },
            None => {
                assert(state.last_notes(order, end_ns) =~= state.last_notes(fewer, end_ns));
                assert(state.flushed(order, end_ns) =~= state.flushed(fewer, end_ns));
            },
        }
    }
}

/// Whether every process stands under its own pid and has a segment.
pub open spec fn segmented(state: TracerView) -> bool {
    forall|pid: i32| #[trigger]
        state.processes.contains_key(pid) ==> state.processes[pid].process.pid == pid
            && state.processes[pid].segment is Some
}

/// Whether some notes are orderly and tell which processes a tracer knows.
spec fn accounts_for(notes: Seq<Note>, state: TracerView) -> bool {
    orderly(notes) && running(notes) == state.processes.dom()
}

proof fn lemma_one_more(notes: Seq<Note>, note: Note)
    ensures
        (notes + seq![note]).drop_last() == notes,
        (notes + seq![note]).last() == note,
{
    assert((notes + seq![note]).drop_last() =~= notes);
}

proof fn lemma_step(notes: Seq<Note>, state: TracerView, step: Step)
    requires
        segmented(state),
        accounts_for(notes, state),
    ensures
        segmented(state.stepped(step)),
        accounts_for(notes + state.step_notes(step), state.stepped(step)),
{
    let after = state.stepped(step);
    let more = state.step_notes(step);
    if more.len() == 0 {
        assert(notes + more =~= notes);
    } else {
        assert(more =~= seq![more[0]]);
        lemma_one_more(notes, more[0]);
    }
    assert(running(notes + more) =~= after.processes.dom());
}

proof fn lemma_run(notes: Seq<Note>, state: TracerView, steps: Seq<Step>)
    requires
        segmented(state),
        accounts_for(notes, state),
    ensures
        segmented(state.followed(steps)),
        accounts_for(notes + state.notes(steps), state.followed(steps)),
    decreases steps.len(),
{
    if steps.len() == 0 {
        assert(notes + state.notes(steps) =~= notes);
    } else {
        let fewer = steps.drop_last();
        lemma_run(notes, state, fewer);
        lemma_step(notes + state.notes(fewer), state.followed(fewer), steps.last());
        assert(notes + state.notes(steps) =~= notes + state.notes(fewer) + state.followed(
            fewer,
        ).step_notes(steps.last()));
    }
}

proof fn lemma_end(notes: Seq<Note>, state: TracerView, order: Seq<i32>, end_ns: u64)
    requires
        segmented(state),
        accounts_for(notes, state),
        order.no_duplicates(),
        forall|i: int| 0 <= i < order.len() ==> state.processes.contains_key(#[trigger] order[i]),
    ensures
        orderly(notes + state.last_notes(order, end_ns)),
        running(notes + state.last_notes(order, end_ns)) == state.processes.dom().difference(
            order.to_set(),
        ),
    decreases order.len(),
{
    let all = notes + state.last_notes(order, end_ns);
    if order.len() == 0 {
        assert(all =~= notes);
        assert(running(all) =~= state.processes.dom().difference(order.to_set()));
    } else {
        let fewer = order.drop_last();
        let pid = order.last();
        let before = notes + state.last_notes(fewer, end_ns);
        assert forall|i: int| 0 <= i < fewer.len() implies state.processes.contains_key(
            #[trigger] fewer[i],
        ) by {
            assert(fewer[i] == order[i]);
        }
        lemma_end(notes, state, fewer, end_ns);
        assert(order[order.len() - 1] == pid);
        assert(state.processes.contains_key(pid));
        let (process, segment) = state.processes[pid].cut_off(end_ns)->0;
        let note = Note::Segment { process, segment, last: true };
        assert(all =~= before + seq![note]);
        lemma_one_more(before, note);
        assert(!fewer.contains(pid)) by {
            assert forall|i: int| 0 <= i < fewer.len() implies fewer[i] != pid by {
                assert(order[i] != order[order.len() - 1]);
            }
        }
        assert forall|other: i32| #[trigger]
            order.contains(other) <==> fewer.contains(other) || other == pid by {
            if fewer.contains(other) {
                let i = choose|i: int| 0 <= i < fewer.len() && fewer[i] == other;
                assert(order[i] == other);
            }
            if order.contains(other) && other != pid {
                let i = choose|i: int| 0 <= i < order.len() && order[i] == other;
                assert(fewer[i] == other);
            }
        }
        assert(running(all) =~= state.processes.dom().difference(order.to_set())) by {
            assert forall|other: i32| running(all).contains(other)
                == state.processes.dom().difference(order.to_set()).contains(other) by {
                assert(order.contains(other) <==> fewer.contains(other) || other == pid);
            }
        }
    }
}

pub open spec fn is_announcement(note: Note, pid: i32) -> bool {
    note matches Note::Announced { pid: announced } && announced == pid
}

pub open spec fn is_segment(note: Note, pid: i32) -> bool {
    note matches Note::Segment { process, .. } && process.pid == pid
}

pub open spec fn is_last_segment(note: Note, pid: i32) -> bool {
    note matches Note::Segment { process, last, .. } && process.pid == pid && last
}

/// Whether a process announced at `i` has its last segment before another is
/// announced under its pid.
pub open spec fn has_last_segment(notes: Seq<Note>, i: int, pid: i32) -> bool {
    exists|j: int|
        i < j < notes.len() && #[trigger] is_last_segment(notes[j], pid) && forall|k: int|
            i < k < j ==> !#[trigger] is_announcement(notes[k], pid)
}

proof fn lemma_running_is_announced(notes: Seq<Note>, pid: i32)
    requires
        running(notes).contains(pid),
    ensures
        exists|j: int| 0 <= j < notes.len() && #[trigger] is_announcement(notes[j], pid),
    decreases notes.len(),
{
    let fewer = notes.drop_last();
    if is_announcement(notes.last(), pid) {
        assert(is_announcement(notes[notes.len() - 1], pid));
    } else {
        lemma_running_is_announced(fewer, pid);
        let j = choose|j: int| 0 <= j < fewer.len() && #[trigger] is_announcement(fewer[j], pid);
        assert(is_announcement(notes[j], pid));
    }
}

proof fn lemma_announced_runs_or_ended(notes: Seq<Note>, i: int, pid: i32)
    requires
        orderly(notes),
        0 <= i < notes.len(),
        is_announcement(notes[i], pid),
    ensures
        has_last_segment(notes, i, pid) || (running(notes).contains(pid) && forall|k: int|
            i < k < notes.len() ==> !#[trigger] is_announcement(notes[k], pid)),
    decreases notes.len(),
{
    let fewer = notes.drop_last();
    let end = notes.len() - 1;
    if i < end {
        assert(fewer[i] == notes[i]);
        lemma_announced_runs_or_ended(fewer, i, pid);
        if has_last_segment(fewer, i, pid) {
            let j = choose|j: int|
                i < j < fewer.len() && #[trigger] is_last_segment(fewer[j], pid) && forall|k: int|
                    i < k < j ==> !#[trigger] is_announcement(fewer[k], pid);
            assert(is_last_segment(notes[j], pid));
            assert forall|k: int| i < k < j implies !#[trigger] is_announcement(
                notes[k],
                pid,
            ) by {
                assert(fewer[k] == notes[k]);
            }
        } else {
            assert forall|k: int| i < k < end implies !#[trigger] is_announcement(
                notes[k],
                pid,
            ) by {
                assert(fewer[k] == notes[k]);
            }
            if is_last_segment(notes.last(), pid) {
                assert(is_last_segment(notes[end], pid));
            }
        }
    }
}

/// Of orderly notes that leave no process running, every announcement is
/// followed by the last segment of its process before another is announced
/// under the same pid, and every segment follows an announcement.
pub proof fn lemma_orderly(notes: Seq<Note>, i: int, pid: i32)
    requires
        orderly(notes),
        running(notes) == Set::<i32>::empty(),
        0 <= i < notes.len(),
    ensures
        is_announcement(notes[i], pid) ==> has_last_segment(notes, i, pid),
        is_segment(notes[i], pid) ==> exists|j: int|
            0 <= j < i && #[trigger] is_announcement(notes[j], pid),
{
    if is_announcement(notes[i], pid) {
        lemma_announced_runs_or_ended(notes, i, pid);
    }
    if is_segment(notes[i], pid) {
        lemma_orderly_so_far(notes, i + 1);
        let part = notes.take(i + 1);
        assert(part.last() == notes[i]);
        lemma_running_is_announced(part.drop_last(), pid);
        let j = choose|j: int|
            0 <= j < part.drop_last().len() && #[trigger] is_announcement(
                part.drop_last()[j],
                pid,
            );
        assert(is_announcement(notes[j], pid));
    }
}

proof fn lemma_orderly_so_far(notes: Seq<Note>, length: int)
    requires
        orderly(notes),
        0 <= length <= notes.len(),
    ensures
        orderly(notes.take(length)),
    decreases notes.len(),
{
    if length == notes.len() {
        assert(notes.take(length) =~= notes);
    } else {
        lemma_orderly_so_far(notes.drop_last(), length);
        assert(notes.drop_last().take(length) =~= notes.take(length));
    }
}

/// Over a whole recording, from the command alone to the end of what is still
/// running, a process is announced once in its life and before its segments,
/// and has its last segment when the last of its tasks ends or the recording
/// does: in the end none is left without.
pub proof fn lemma_run_is_orderly(
    start: TracerView,
    steps: Seq<Step>,
    order: Seq<i32>,
    end_ns: u64,
)
    requires
        segmented(start),
        start.processes.dom() == set![start.root_pid],
        start.followed(steps).covers(order),
    ensures
        ({
            let notes = seq![Note::Announced { pid: start.root_pid }] + start.notes(steps)
                + start.followed(steps).last_notes(order, end_ns);
            &&& orderly(notes)
            &&& running(notes) == Set::<i32>::empty()
        }),
{
    let first = Note::Announced { pid: start.root_pid };
    let root = seq![first];
    let state = start.followed(steps);
    lemma_one_more(Seq::empty(), first);
    assert(Seq::<Note>::empty() + root =~= root);
    assert(running(Seq::<Note>::empty()) == Set::<i32>::empty());
    assert(orderly(Seq::<Note>::empty()));
    assert(running(root) =~= start.processes.dom());
    lemma_run(root, start, steps);
    assert forall|i: int| 0 <= i < order.len() implies state.processes.contains_key(
        #[trigger] order[i],
    ) by {
        assert(order.to_set().contains(order[i]));
    }
    lemma_end(root + start.notes(steps), state, order, end_ns);
    assert(state.processes.dom().difference(order.to_set()) =~= Set::<i32>::empty());
}

} // verus!
