//! Which running processes came from which others, and which of those ran a
//! program of their own.

use crate::table::keys;
use std::collections::HashMap;
use vstd::prelude::*;

verus! {

broadcast use vstd::std_specs::hash::group_hash_axioms;

/// Where the search for an ancestor goes on above a process.
#[derive(Clone, Copy, Debug, PartialEq, Eq, Structural)]
pub enum Above {
    /// At a process that is running.
    Running { pid: i32 },
    /// Nowhere: this is the ancestor.
    Settled { pid: i32 },
}

/// A running process.
#[derive(Clone, Copy)]
pub struct Member {
    /// Whether it ever ran a program of its own.
    pub execed: bool,
    pub above: Above,
    /// More than that of any process above.
    pub generation: Ghost<nat>,
}

#[verifier::ext_equal]
pub struct MemberView {
    pub execed: bool,
    pub above: Above,
    pub generation: nat,
}

impl View for Member {
    type V = MemberView;

    open spec fn view(&self) -> MemberView {
        MemberView { execed: self.execed, above: self.above, generation: self.generation@ }
    }
}

#[verifier::ext_equal]
pub struct AncestryView {
    pub members: Map<i32, MemberView>,
}

impl AncestryView {
    pub open spec fn nobody() -> AncestryView {
        AncestryView { members: Map::empty() }
    }

    /// Whether each process stands below running ones that are older.
    pub open spec fn linked(self) -> bool {
        forall|pid: i32| #[trigger]
            self.members.contains_key(pid) ==> match self.members[pid].above {
                Above::Running { pid: up } => self.members.contains_key(up)
                    && self.members[up].generation < self.members[pid].generation,
                Above::Settled { .. } => true,
            }
    }

    /// The nearest process known to have run a program of its own, from `pid`
    /// upwards; one of which nothing is known may have.
    pub open spec fn nearest(self, pid: i32) -> i32
        decreases self.members[pid].generation,
    {
        if !self.members.contains_key(pid) || self.members[pid].execed {
            pid
        } else {
            match self.members[pid].above {
                Above::Settled { pid: found } => found,
                Above::Running { pid: up } => if self.members[up].generation
                    < self.members[pid].generation {
                    self.nearest(up)
                } else {
                    pid
                },
            }
        }
    }

    /// After a process was created by another.
    pub open spec fn born(self, pid: i32, parent: i32) -> AncestryView {
        let known = self.members.contains_key(parent);
        AncestryView {
            members: self.members.insert(
                pid,
                MemberView {
                    execed: false,
                    above: if known {
                        Above::Running { pid: parent }
                    } else {
                        Above::Settled { pid: parent }
                    },
                    generation: if known {
                        self.members[parent].generation + 1
                    } else {
                        0
                    },
                },
            ),
        }
    }

    /// After a process ran a program of its own.
    pub open spec fn ran(self, pid: i32) -> AncestryView {
        AncestryView {
            members: self.members.insert(pid, MemberView { execed: true, ..self.members[pid] }),
        }
    }

    /// Where the search goes on above a process once `pid` is gone.
    pub open spec fn past(self, pid: i32, above: Above) -> Above {
        if above != (Above::Running { pid }) {
            above
        } else if self.members[pid].execed {
            Above::Settled { pid }
        } else {
            self.members[pid].above
        }
    }

    /// After a process ended: those below it remember what it was.
    pub open spec fn gone(self, pid: i32) -> AncestryView {
        AncestryView {
            members: self.members.remove(pid).map_values(
                |member: MemberView|
                    MemberView { above: self.past(pid, member.above), ..member },
            ),
        }
    }
}

/// Whatever becomes of a process, each one keeps standing below running ones
/// that are older.
pub proof fn lemma_linked(state: AncestryView, pid: i32, parent: i32)
    requires
        state.linked(),
    ensures
        !state.members.contains_key(pid) ==> state.born(pid, parent).linked(),
        state.members.contains_key(pid) ==> state.ran(pid).linked(),
        state.members.contains_key(pid) ==> state.gone(pid).linked(),
        !state.members.contains_key(pid) ==> state.born(pid, parent).gone(pid) == state,
{
    if state.members.contains_key(pid) {
        let after = state.gone(pid);
        assert forall|q: i32| #[trigger]
            after.members.contains_key(q) implies match after.members[q].above {
            Above::Running { pid: up } => after.members.contains_key(up)
                && after.members[up].generation < after.members[q].generation,
            Above::Settled { .. } => true,
        } by {
            assert(state.members.contains_key(q));
            if let Above::Running { pid: up } = state.members[q].above {
                assert(state.members.contains_key(up));
            }
        }
    } else {
        let after = state.born(pid, parent).gone(pid);
        assert forall|q: i32| #[trigger] state.members.contains_key(q) implies after.members[q]
            == state.members[q] by {
            assert(state.members[q].above != (Above::Running { pid }));
        }
        assert(after.members =~= state.members);
    }
}

/// A new process stands below others, and changes nothing for them.
pub proof fn lemma_birth(state: AncestryView, pid: i32, parent: i32, other: i32)
    requires
        state.linked(),
        !state.members.contains_key(pid),
        state.members.contains_key(other),
    ensures
        state.born(pid, parent).linked(),
        state.born(pid, parent).nearest(other) == state.nearest(other),
        state.born(pid, parent).nearest(pid) == state.nearest(parent),
{
    let after = state.born(pid, parent);
    lemma_linked(state, pid, parent);
    if state.members.contains_key(parent) {
        lemma_birth_of_others(state, pid, parent, parent);
    }
    lemma_birth_of_others(state, pid, parent, other);
    if let Above::Running { pid: up } = after.members[pid].above {
        assert(after.members[up] == state.members[up]);
    }
}

proof fn lemma_birth_of_others(state: AncestryView, pid: i32, parent: i32, other: i32)
    requires
        state.linked(),
        !state.members.contains_key(pid),
        state.members.contains_key(other),
    ensures
        state.born(pid, parent).nearest(other) == state.nearest(other),
    decreases state.members[other].generation,
{
    if let Above::Running { pid: up } = state.members[other].above {
        lemma_birth_of_others(state, pid, parent, up);
    }
}

/// A process that runs a program becomes the nearest such ancestor of itself
/// and of those that stand below it with none between; for the others nothing
/// changes.
pub proof fn lemma_program_run(state: AncestryView, pid: i32, other: i32)
    requires
        state.linked(),
        state.members.contains_key(pid),
        state.members.contains_key(other),
    ensures
        state.ran(pid).linked(),
        state.ran(pid).nearest(pid) == pid,
        state.ran(pid).nearest(other) == pid || state.ran(pid).nearest(other) == state.nearest(other),
        !state.members[other].execed && state.members[other].above == (Above::Running { pid })
            ==> state.ran(pid).nearest(other) == pid,
    decreases state.members[other].generation,
{
    if let Above::Running { pid: up } = state.members[other].above {
        lemma_program_run(state, pid, up);
    }
}

/// The end of a process takes nothing from what is known of the others: who
/// their nearest ancestor is that ran a program stays as it was.
pub proof fn lemma_end_remembered(state: AncestryView, pid: i32, other: i32)
    requires
        state.linked(),
        state.members.contains_key(pid),
        state.members.contains_key(other),
        other != pid,
    ensures
        state.gone(pid).linked(),
        state.gone(pid).nearest(other) == state.nearest(other),
    decreases state.members[other].generation,
{
    let after = state.gone(pid);
    lemma_linked(state, pid, pid);
    assert(after.members.contains_key(other));
    if !state.members[other].execed {
        if let Above::Running { pid: up } = state.members[other].above {
            assert(state.members.contains_key(up));
            assert(state.nearest(other) == state.nearest(up));
            if up != pid {
                lemma_end_remembered(state, pid, up);
                assert(after.members.contains_key(up));
            } else if !state.members[pid].execed {
                if let Above::Running { pid: next } = state.members[pid].above {
                    lemma_end_remembered(state, pid, next);
                    assert(state.nearest(pid) == state.nearest(next));
                    assert(after.members.contains_key(next));
                    assert(after.nearest(other) == after.nearest(next));
                }
            }
        }
    }
}

/// The running processes of a recording.
pub struct Ancestry {
    members: HashMap<i32, Member>,
}

impl View for Ancestry {
    type V = AncestryView;

    closed spec fn view(&self) -> AncestryView {
        AncestryView { members: self.members@.map_values(|member: Member| member@) }
    }
}

impl Ancestry {
    pub fn new() -> (ancestry: Self)
        ensures
            ancestry@ == AncestryView::nobody(),
    {
        let ancestry = Ancestry { members: HashMap::new() };
        assert(ancestry@.members =~= Map::empty());
        ancestry
    }

    pub fn nearest(&self, pid: i32) -> (found: i32)
        requires
            self@.linked(),
        ensures
            found == self@.nearest(pid),
    {
        let mut at: i32 = pid;
        loop
            invariant
                self@.linked(),
                self@.nearest(pid) == self@.nearest(at),
            decreases self@.members[at].generation,
        {
            match self.members.get(&at) {
                None => {
                    return at;
                },
                Some(member) => {
                    assert(self@.members.contains_key(at));
                    assert(self@.members[at] == member@);
                    if member.execed {
                        return at;
                    }
                    match member.above {
                        Above::Settled { pid: found } => {
                            return found;
                        },
                        Above::Running { pid: up } => {
                            at = up;
                        },
                    }
                },
            }
        }
    }

    pub fn start(&mut self, pid: i32, parent: i32)
        ensures
            final(self)@ == old(self)@.born(pid, parent),
    {
        let ghost before = self@;
        let member = match self.members.get(&parent) {
            Some(known) => {
                assert(before.members[parent] == known@);
                Member {
                    execed: false,
                    above: Above::Running { pid: parent },
                    generation: Ghost(known.generation@ + 1),
                }
            },
            None => Member {
                execed: false,
                above: Above::Settled { pid: parent },
                generation: Ghost(0),
            },
        };
        self.members.insert(pid, member);
        assert(self@.members =~= before.members.insert(pid, member@));
        assert(self@ =~= before.born(pid, parent));
    }

    pub fn exec(&mut self, pid: i32)
        requires
            old(self)@.members.contains_key(pid),
        ensures
            final(self)@ == old(self)@.ran(pid),
    {
        let ghost before = self@;
        if let Some(known) = self.members.get(&pid) {
            assert(before.members[pid] == known@);
            let member = Member { execed: true, above: known.above, generation: known.generation };
            self.members.insert(pid, member);
            assert(self@.members =~= before.members.insert(pid, member@));
            assert(self@ =~= before.ran(pid));
        }
    }

    pub fn end(&mut self, pid: i32)
        requires
            old(self)@.members.contains_key(pid),
        ensures
            final(self)@ == old(self)@.gone(pid),
    {
        let ghost before = self@;
        let ended = match self.members.remove(&pid) {
            Some(ended) => ended,
            None => {
                return;
            },
        };
        assert(before.members[pid] == ended@);
        let above = if ended.execed {
            Above::Settled { pid }
        } else {
            ended.above
        };
        let ghost left = self.members@;
        assert(left.map_values(|member: Member| member@) =~= before.members.remove(pid));
        let all = keys(&self.members);
        for i in 0..all.len()
            invariant
                all@.no_duplicates(),
                all@.to_set() == left.dom(),
                self.members@.dom() == left.dom(),
                above == before.past(pid, Above::Running { pid }),
                forall|j: int|
                    0 <= j < i ==> self.members@[#[trigger] all@[j]]@ == (MemberView {
                        above: before.past(pid, left[all@[j]].above),
                        ..left[all@[j]]@
                    }),
                forall|j: int|
                    i <= j < all@.len() ==> self.members@[#[trigger] all@[j]] == left[all@[j]],
        {
            let key: i32 = all[i];
            assert(all@.to_set().contains(all@[i as int]));
            if let Some(member) = self.members.get(&key) {
                let member = *member;
                if member.above == (Above::Running { pid }) {
                    self.members.insert(
                        key,
                        Member { execed: member.execed, above, generation: member.generation },
                    );
                    assert(self.members@.dom() =~= left.dom());
                }
            }
        }
        proof {
            let after = before.gone(pid);
            assert(self@.members.dom() =~= after.members.dom());
            assert forall|key: i32| self@.members.contains_key(key) implies self@.members[key]
                == after.members[key] by {
                assert(all@.to_set().contains(key));
                let j = choose|j: int| 0 <= j < all@.len() && all@[j] == key;
                assert(before.members[key] == left[key]@);
                assert(self.members@[all@[j]]@ == after.members[key]);
            }
            assert(self@.members =~= after.members);
        }
    }
}

} // verus!
