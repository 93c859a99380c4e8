//! Arranging a snapshot's frames into a forest, parents before children.
//!
//! A frame takes its place when its identity may root a tree, or when its parent has taken one.
//! What cannot be placed — a root of a class that may not be one, a child whose parent is absent
//! or in a cycle — is dropped and named, so that a host can show it instead of silently losing
//! what hangs below it.

use std::sync::Arc;
use vstd::prelude::*;
use crate::ident::{FrameKey, FrameUid};
use crate::keyed::Keyed;
use crate::scene::{FrameRecord, Snapshot};

verus! {

/// A placed frame.
#[derive(Clone, Copy, Debug, PartialEq, Eq, Structural)]
pub struct FrameNode {
    /// Which of the snapshot's frames this is.
    pub frame: usize,
    /// The node of its parent; `None` for a root.
    pub parent: Option<usize>,
}

/// The placed frames of a snapshot: a node's id is its place in `nodes`.
#[derive(Debug)]
pub struct FrameArena {
    /// The nodes, each after its parent.
    pub nodes: Vec<FrameNode>,
    /// For each of the snapshot's frames, its node.
    pub slots: Vec<Option<usize>>,
}

/// Frame `uid` is joined to a root of an inertial class by at most `n` steps from child to
/// parent.
pub open spec fn grounded_within(frames: Seq<Arc<FrameRecord>>, uid: FrameKey, n: nat) -> bool
    decreases n,
{
    exists|i: int|
        0 <= i < frames.len() && (#[trigger] frames[i]).uid@ == uid && match frames[i].parent {
            None => frames[i].uid.class.inertial(),
            Some(p) => n > 0 && grounded_within(frames, p@, (n - 1) as nat),
        }
}

/// Frame `uid` is joined to a root of an inertial class.
pub open spec fn grounded(frames: Seq<Arc<FrameRecord>>, uid: FrameKey) -> bool {
    exists|n: nat| #[trigger] grounded_within(frames, uid, n)
}

/// A frame without a parent whose class may not root a tree.
pub open spec fn bad_root(f: Arc<FrameRecord>) -> bool {
    f.parent is None && !f.uid.class.inertial()
}

/// The identities of the bad roots, in order.
pub open spec fn bad_roots(s: Seq<Arc<FrameRecord>>) -> Seq<FrameKey>
    decreases s.len(),
{
    if s.len() == 0 {
        Seq::empty()
    } else if bad_root(s.last()) {
        bad_roots(s.drop_last()).push(s.last().uid@)
    } else {
        bad_roots(s.drop_last())
    }
}

/// The identities of the frames in `s` that have a parent and are not grounded in `frames`, in
/// order.
pub open spec fn stranded(frames: Seq<Arc<FrameRecord>>, s: Seq<Arc<FrameRecord>>) -> Seq<FrameKey>
    decreases s.len(),
{
    if s.len() == 0 {
        Seq::empty()
    } else if s.last().parent is Some && !grounded(frames, s.last().uid@) {
        stranded(frames, s.drop_last()).push(s.last().uid@)
    } else {
        stranded(frames, s.drop_last())
    }
}

/// The frames that no tree can hold: the bad roots, then the stranded children.
pub open spec fn unplaceable(frames: Seq<Arc<FrameRecord>>) -> Seq<FrameKey> {
    bad_roots(frames) + stranded(frames, frames)
}

/// The identities in a vector.
pub open spec fn keys(v: Seq<FrameUid>) -> Seq<FrameKey> {
    v.map_values(|u: FrameUid| u@)
}

impl FrameArena {
    /// Every node is a frame of its own; a root is one by class, and a child comes after the
    /// node of the parent that it names.
    pub open spec fn wf(self, frames: Seq<Arc<FrameRecord>>) -> bool {
        &&& self.slots@.len() == frames.len()
        &&& forall|n: int| 0 <= n < self.nodes@.len() ==> self.node_ok(frames, n)
        &&& forall|i: int|
            0 <= i < frames.len() && (#[trigger] self.slots@[i]) is Some ==> {
                let n = self.slots@[i]->0;
                n < self.nodes@.len() && self.nodes@[n as int].frame == i
            }
    }

    /// What holds of node `n`.
    pub open spec fn node_ok(self, frames: Seq<Arc<FrameRecord>>, n: int) -> bool {
        let f = self.nodes@[n].frame as int;
        &&& f < frames.len()
        &&& self.slots@[f] == Some(n as usize)
        &&& match self.nodes@[n].parent {
            None => frames[f].parent is None && frames[f].uid.class.inertial(),
            Some(p) => {
                &&& p < n
                &&& frames[f].parent is Some
                &&& frames[self.nodes@[p as int].frame as int].uid@ == frames[f].parent->0@
            },
        }
    }

    /// Exactly the grounded frames have nodes.
    pub open spec fn complete(self, frames: Seq<Arc<FrameRecord>>) -> bool {
        forall|i: int|
            0 <= i < frames.len() ==> ((#[trigger] self.slots@[i]) is Some <==> grounded(
                frames,
                frames[i].uid@,
            ))
    }
}

/// A frame that has a node is grounded.
proof fn lemma_node_grounded(a: FrameArena, frames: Seq<Arc<FrameRecord>>, n: int)
    requires
        a.wf(frames),
        0 <= n < a.nodes@.len(),
    ensures
        grounded_within(frames, frames[a.nodes@[n].frame as int].uid@, n as nat),
    decreases n,
{
    assert(a.node_ok(frames, n));
    let f = a.nodes@[n].frame as int;
    match a.nodes@[n].parent {
        None => {
            assert(frames[f].uid@ == frames[f].uid@);
        },
        Some(p) => {
            lemma_node_grounded(a, frames, p as int);
            lemma_grounded_more(frames, frames[f].parent->0@, p as nat, (n - 1) as nat);
            assert(frames[f].uid@ == frames[f].uid@);
        },
    }
}

/// More steps allowed, no fewer frames grounded.
proof fn lemma_grounded_more(frames: Seq<Arc<FrameRecord>>, uid: FrameKey, n: nat, m: nat)
    requires
        grounded_within(frames, uid, n),
        n <= m,
    ensures
        grounded_within(frames, uid, m),
    decreases n,
{
    let i = choose|i: int|
        0 <= i < frames.len() && (#[trigger] frames[i]).uid@ == uid && match frames[i].parent {
            None => frames[i].uid.class.inertial(),
            Some(p) => n > 0 && grounded_within(frames, p@, (n - 1) as nat),
        };
    match frames[i].parent {
        None => {},
        Some(p) => {
            lemma_grounded_more(frames, p@, (n - 1) as nat, (m - 1) as nat);
        },
    }
    assert(frames[i].uid@ == uid);
}

/// Nothing more can be placed: every eligible root has a node, and so has every child whose
/// parent has one.
spec fn settled(a: FrameArena, frames: Seq<Arc<FrameRecord>>) -> bool {
    &&& forall|i: int|
        0 <= i < frames.len() && (#[trigger] frames[i]).parent is None
            && frames[i].uid.class.inertial() ==> a.slots@[i] is Some
    &&& forall|i: int, j: int|
        #![trigger frames[i], frames[j]]
        0 <= i < frames.len() && 0 <= j < frames.len() && frames[i].parent is Some
            && frames[i].parent->0@ == frames[j].uid@ && a.slots@[j] is Some ==> a.slots@[i] is Some
}

/// Where nothing more can be placed, every grounded frame has a node.
proof fn lemma_settled_complete(
    a: FrameArena,
    frames: Seq<Arc<FrameRecord>>,
    i: int,
    n: nat,
)
    requires
        crate::keyed::distinct::<FrameKey, Arc<FrameRecord>>(frames),
        a.wf(frames),
        settled(a, frames),
        0 <= i < frames.len(),
        grounded_within(frames, frames[i].uid@, n),
    ensures
        a.slots@[i] is Some,
    decreases n,
{
    let k = choose|k: int|
        0 <= k < frames.len() && (#[trigger] frames[k]).uid@ == frames[i].uid@
            && match frames[k].parent {
            None => frames[k].uid.class.inertial(),
            Some(p) => n > 0 && grounded_within(frames, p@, (n - 1) as nat),
        };
    if k != i {
        assert(frames[k].key() != frames[i].key());
    }
    match frames[i].parent {
        None => {},
        Some(p) => {
            let j = choose|j: int|
                0 <= j < frames.len() && (#[trigger] frames[j]).uid@ == p@
                    && match frames[j].parent {
                    None => frames[j].uid.class.inertial(),
                    Some(q) => (n - 1) as nat > 0 && grounded_within(
                        frames,
                        q@,
                        ((n - 1) as nat - 1) as nat,
                    ),
                };
            lemma_settled_complete(a, frames, j, (n - 1) as nat);
        },
    }
}

/// The place of the frame named `uid`, if the snapshot has it.
pub fn find_frame(frames: &Vec<Arc<FrameRecord>>, uid: &FrameUid) -> (r: Option<usize>)
    ensures
        match r {
            Some(i) => i < frames@.len() && frames@[i as int].uid@ == uid@,
            None => forall|i: int| 0 <= i < frames@.len() ==> (#[trigger] frames@[i]).uid@ != uid@,
        },
{
    let mut i: usize = 0;
    while i < frames.len()
        invariant
            i <= frames@.len(),
            forall|j: int| 0 <= j < i ==> (#[trigger] frames@[j]).uid@ != uid@,
        decreases frames@.len() - i,
    {
        if frames[i].uid.same(uid) {
            return Some(i);
        }
        i = i + 1;
    }
    None
}

/// For each frame, the place of its parent's record.
fn find_parents(frames: &Vec<Arc<FrameRecord>>) -> (r: Vec<Option<usize>>)
    ensures
        r@.len() == frames@.len(),
        forall|i: int| 0 <= i < frames@.len() ==> parent_place(frames@, i, #[trigger] r@[i]),
{
    let mut r: Vec<Option<usize>> = Vec::new();
    let mut i: usize = 0;
    while i < frames.len()
        invariant
            i <= frames@.len(),
            r@.len() == i,
            forall|j: int| 0 <= j < i ==> parent_place(frames@, j, #[trigger] r@[j]),
        decreases frames@.len() - i,
    {
        let up: Option<usize> = match &frames[i].parent {
            Some(p) => find_frame(frames, p),
            None => None,
        };
        r.push(up);
        i = i + 1;
    }
    r
}

/// `up` is where the parent of frame `i` stands.
spec fn parent_place(frames: Seq<Arc<FrameRecord>>, i: int, up: Option<usize>) -> bool {
    match up {
        Some(j) => j < frames.len() && frames[i].parent is Some && frames[j as int].uid@
            == frames[i].parent->0@,
        None => frames[i].parent is Some ==> forall|j: int|
            0 <= j < frames.len() ==> (#[trigger] frames[j]).uid@ != frames[i].parent->0@,
    }
}

/// Give frame `i` a node.
fn place(arena: &mut FrameArena, frames: &Vec<Arc<FrameRecord>>, i: usize, parent: Option<usize>)
    requires
        old(arena).wf(frames@),
        i < frames@.len(),
        old(arena).slots@[i as int] is None,
        match parent {
            None => frames@[i as int].parent is None && frames@[i as int].uid.class.inertial(),
            Some(p) => {
                &&& p < old(arena).nodes@.len()
                &&& frames@[i as int].parent is Some
                &&& frames@[old(arena).nodes@[p as int].frame as int].uid@
                    == frames@[i as int].parent->0@
            },
        },
    ensures
        final(arena).wf(frames@),
        final(arena).nodes@.len() == old(arena).nodes@.len() + 1,
        forall|j: int|
            0 <= j < frames@.len() ==> ((#[trigger] final(arena).slots@[j]) is Some <==> j == i
                || old(arena).slots@[j] is Some),
{
    let n: usize = arena.nodes.len();
    let ghost before = *arena;
    arena.nodes.push(FrameNode { frame: i, parent });
    arena.slots.set(i, Some(n));
    proof {
        assert forall|k: int| 0 <= k < arena.nodes@.len() implies arena.node_ok(frames@, k) by {
            if k < n {
                assert(before.node_ok(frames@, k));
                assert(before.nodes@[k].frame != i);
                match before.nodes@[k].parent {
                    Some(p) => {
                        assert(arena.nodes@[p as int] == before.nodes@[p as int]);
                    },
                    None => {},
                }
            }
        }
        assert forall|j: int| 0 <= j < frames@.len() && (#[trigger] arena.slots@[j]) is Some implies ({
            let m = arena.slots@[j]->0;
            m < arena.nodes@.len() && arena.nodes@[m as int].frame == j
        }) by {
            if j != i {
                assert(before.slots@[j] is Some);
            }
        }
    }
}

/// Place the eligible roots; name the others in `dropped` and hand back the children's places.
fn place_roots(frames: &Vec<Arc<FrameRecord>>, dropped: &mut Vec<FrameUid>) -> (r: (
    FrameArena,
    Vec<usize>,
))
    requires
        old(dropped)@.len() == 0,
    ensures
        r.0.wf(frames@),
        keys(final(dropped)@) == bad_roots(frames@),
        forall|i: int|
            0 <= i < frames@.len() ==> ((#[trigger] r.0.slots@[i]) is Some <==> frames@[i].parent
                is None && frames@[i].uid.class.inertial()),
        pending(frames@, r.0, r.1@),
{
    let mut slots: Vec<Option<usize>> = Vec::new();
    let mut s: usize = 0;
    while s < frames.len()
        invariant
            s <= frames@.len(),
            slots@.len() == s,
            forall|j: int| 0 <= j < s ==> (#[trigger] slots@[j]) is None,
        decreases frames@.len() - s,
    {
        slots.push(None);
        s = s + 1;
    }
    let mut arena: FrameArena = FrameArena { nodes: Vec::new(), slots };
    let mut children: Vec<usize> = Vec::new();
    let mut i: usize = 0;
    assert(frames@.take(0) =~= Seq::empty());
    assert(keys(dropped@) =~= Seq::empty());
    while i < frames.len()
        invariant
            i <= frames@.len(),
            arena.wf(frames@),
            keys(dropped@) == bad_roots(frames@.take(i as int)),
            forall|j: int|
                0 <= j < frames@.len() ==> ((#[trigger] arena.slots@[j]) is Some <==> j < i
                    && frames@[j].parent is None && frames@[j].uid.class.inertial()),
            forall|k: int|
                0 <= k < children@.len() ==> (#[trigger] children@[k]) < i
                    && frames@[children@[k] as int].parent is Some,
            forall|a: int, b: int|
                0 <= a < b < children@.len() ==> (#[trigger] children@[a]) < (
                #[trigger] children@[b]),
            forall|j: int|
                0 <= j < i && (#[trigger] frames@[j]).parent is Some ==> exists|k: int|
                    0 <= k < children@.len() && (#[trigger] children@[k]) == j,
        decreases frames@.len() - i,
    {
        let ghost kids = children@;
        let ghost gone = dropped@;
        let frame: &Arc<FrameRecord> = &frames[i];
        match &frame.parent {
            None => {
                if frame.uid.class.may_be_root() {
                    place(&mut arena, frames, i, None);
                } else {
                    dropped.push(frame.uid.clone());
                }
            },
            Some(_) => {
                children.push(i);
            },
        }
        proof {
            assert(frames@.take(i + 1).drop_last() =~= frames@.take(i as int));
            assert(frames@.take(i + 1).last() == frames@[i as int]);
            assert(keys(dropped@) == bad_roots(frames@.take(i + 1))) by {
                if bad_root(frames@[i as int]) {
                    assert(keys(dropped@) =~= keys(gone).push(frames@[i as int].uid@));
                }
            }
            assert forall|j: int| 0 <= j < i + 1 && (#[trigger] frames@[j]).parent is Some implies exists|
                k: int,
            |
                0 <= k < children@.len() && (#[trigger] children@[k]) == j by {
                if j < i {
                    let k = choose|k: int| 0 <= k < kids.len() && (#[trigger] kids[k]) == j;
                    assert(children@[k] == j);
                } else {
                    assert(children@[children@.len() - 1] == j);
                }
            }
        }
        i = i + 1;
    }
    assert(frames@.take(i as int) =~= frames@);
    (arena, children)
}

/// The children that have no node yet, in order.
spec fn pending(frames: Seq<Arc<FrameRecord>>, a: FrameArena, rest: Seq<usize>) -> bool {
    &&& forall|k: int|
        0 <= k < rest.len() ==> (#[trigger] rest[k]) < frames.len() && frames[rest[k] as int].parent
            is Some && a.slots@[rest[k] as int] is None
    &&& forall|x: int, y: int|
        0 <= x < y < rest.len() ==> (#[trigger] rest[x]) < (#[trigger] rest[y])
    &&& forall|j: int|
        0 <= j < frames.len() && (#[trigger] frames[j]).parent is Some && a.slots@[j] is None
            ==> exists|k: int| 0 <= k < rest.len() && (#[trigger] rest[k]) == j
}

/// Place every waiting child whose parent has a node; hand back those that still wait, and
/// whether any was placed.
fn place_children(
    arena: &mut FrameArena,
    frames: &Vec<Arc<FrameRecord>>,
    up: &Vec<Option<usize>>,
    rest: &Vec<usize>,
) -> (r: (Vec<usize>, bool))
    requires
        old(arena).wf(frames@),
        up@.len() == frames@.len(),
        forall|i: int| 0 <= i < frames@.len() ==> parent_place(frames@, i, #[trigger] up@[i]),
        pending(frames@, *old(arena), rest@),
    ensures
        final(arena).wf(frames@),
        pending(frames@, *final(arena), r.0@),
        forall|j: int|
            0 <= j < frames@.len() && (#[trigger] old(arena).slots@[j]) is Some ==> final(arena).slots@[j] is Some,
        forall|j: int|
            0 <= j < frames@.len() && (#[trigger] final(arena).slots@[j]) is Some ==> old(arena).slots@[j] is Some || frames@[j].parent is Some,
        r.0@.len() <= rest@.len(),
        r.1 ==> r.0@.len() < rest@.len(),
        !r.1 ==> forall|k: int|
            0 <= k < r.0@.len() ==> blocked(*final(arena), up@, (#[trigger] r.0@[k]) as int),
{
    let mut next: Vec<usize> = Vec::new();
    let mut progress: bool = false;
    let ghost before = *arena;
    let mut k: usize = 0;
    while k < rest.len()
        invariant
            k <= rest@.len(),
            arena.wf(frames@),
            up@.len() == frames@.len(),
            forall|i: int| 0 <= i < frames@.len() ==> parent_place(frames@, i, #[trigger] up@[i]),
            pending(frames@, before, rest@),
            before == *old(arena),
            next@.len() <= k,
            progress ==> next@.len() < k,
            forall|j: int|
                0 <= j < frames@.len() && (#[trigger] before.slots@[j]) is Some
                    ==> arena.slots@[j] is Some,
            forall|j: int|
                0 <= j < frames@.len() && (#[trigger] arena.slots@[j]) is Some
                    ==> before.slots@[j] is Some || frames@[j].parent is Some,
            forall|x: int| k <= x < rest@.len() ==> arena.slots@[(#[trigger] rest@[x]) as int] is None,
            forall|x: int|
                0 <= x < next@.len() ==> (#[trigger] next@[x]) < frames@.len()
                    && frames@[next@[x] as int].parent is Some && arena.slots@[next@[x] as int] is None,
            forall|x: int, y: int|
                0 <= x < next@.len() && k <= y < rest@.len() ==> (#[trigger] next@[x]) < (
                #[trigger] rest@[y]),
            forall|x: int, y: int|
                0 <= x < y < next@.len() ==> (#[trigger] next@[x]) < (#[trigger] next@[y]),
            forall|j: int|
                0 <= j < frames@.len() && (#[trigger] frames@[j]).parent is Some && arena.slots@[j]
                    is None ==> waits(next@, rest@, k as int, j),
            !progress ==> *arena == before && forall|x: int|
                0 <= x < next@.len() ==> blocked(before, up@, (#[trigger] next@[x]) as int),
        decreases rest@.len() - k,
    {
        let i: usize = rest[k];
        let ghost next0 = next@;
        let node: Option<usize> = match up[i] {
            Some(j) => arena.slots[j],
            None => None,
        };
        assert(parent_place(frames@, i as int, up@[i as int]));
        match node {
            Some(p) => {
                place(arena, frames, i, Some(p));
                progress = true;
            },
            None => {
                next.push(i);
            },
        }
        proof {
            assert forall|j: int|
                0 <= j < frames@.len() && (#[trigger] frames@[j]).parent is Some && arena.slots@[j]
                    is None implies waits(next@, rest@, k + 1, j) by {
                assert(waits(next0, rest@, k as int, j));
                if exists|x: int| 0 <= x < next0.len() && (#[trigger] next0[x]) == j {
                    let x = choose|x: int| 0 <= x < next0.len() && (#[trigger] next0[x]) == j;
                    assert(next@[x] == j);
                } else {
                    let y = choose|y: int| k <= y < rest@.len() && (#[trigger] rest@[y]) == j;
                    if y == k {
                        assert(next@[next@.len() - 1] == j);
                    } else {
                        assert(rest@[y] == j);
                    }
                }
            }
        }
        k = k + 1;
    }
    proof {
        assert forall|j: int|
            0 <= j < frames@.len() && (#[trigger] frames@[j]).parent is Some && arena.slots@[j]
                is None implies exists|x: int|
            0 <= x < next@.len() && (#[trigger] next@[x]) == j by {
            assert(waits(next@, rest@, k as int, j));
        }
    }
    (next, progress)
}

/// `j` is among those that wait again, or among those not yet looked at.
spec fn waits(next: Seq<usize>, rest: Seq<usize>, k: int, j: int) -> bool {
    ||| exists|x: int| 0 <= x < next.len() && (#[trigger] next[x]) == j
    ||| exists|y: int| k <= y < rest.len() && (#[trigger] rest[y]) == j
}

/// The parent of frame `i` has no node.
spec fn blocked(a: FrameArena, up: Seq<Option<usize>>, i: int) -> bool {
    match up[i] {
        Some(j) => a.slots@[j as int] is None,
        None => true,
    }
}

/// Arrange a snapshot's frames. Returns the arena (`None` if no frame could be placed) and the
/// identities of the frames that were dropped: the roots of a class that may not root a tree,
/// and the children whose parent never found a place.
pub fn build_tree(snap: &Snapshot) -> (r: (Option<FrameArena>, Vec<FrameUid>))
    requires
        snap.wf(),
    ensures
        keys(r.1@) == unplaceable(snap.frame_seq()),
        match r.0 {
            Some(a) => a.nodes@.len() > 0 && a.wf(snap.frame_seq()) && a.complete(
                snap.frame_seq(),
            ),
            None => forall|i: int|
                0 <= i < snap.frame_seq().len() ==> !grounded(
                    snap.frame_seq(),
                    (#[trigger] snap.frame_seq()[i]).uid@,
                ),
        },
{
    let frames: &Vec<Arc<FrameRecord>> = snap.frames();
    let mut dropped: Vec<FrameUid> = Vec::new();
    let up: Vec<Option<usize>> = find_parents(frames);
    let (mut arena, mut rest): (FrameArena, Vec<usize>) = place_roots(frames, &mut dropped);
    let mut progress: bool = true;
    proof {
        snap.lemma_wf();
    }
    while progress
        invariant
            frames@ == snap.frame_seq(),
            crate::keyed::distinct::<FrameKey, Arc<FrameRecord>>(frames@),
            up@.len() == frames@.len(),
            forall|i: int| 0 <= i < frames@.len() ==> parent_place(frames@, i, #[trigger] up@[i]),
            arena.wf(frames@),
            pending(frames@, arena, rest@),
            forall|i: int|
                0 <= i < frames@.len() && (#[trigger] frames@[i]).parent is None
                    && frames@[i].uid.class.inertial() ==> arena.slots@[i] is Some,
            forall|i: int|
                0 <= i < frames@.len() && (#[trigger] frames@[i]).parent is None
                    && !frames@[i].uid.class.inertial() ==> arena.slots@[i] is None,
            !progress ==> forall|k: int|
                0 <= k < rest@.len() ==> blocked(arena, up@, (#[trigger] rest@[k]) as int),
        decreases rest@.len(), (if progress { 1int } else { 0int }),
    {
        let (next, moved): (Vec<usize>, bool) = place_children(&mut arena, frames, &up, &rest);
        rest = next;
        progress = moved;
    }
    proof {
        assert(settled(arena, frames@)) by {
            assert forall|i: int, j: int|
                #![trigger frames@[i], frames@[j]]
                0 <= i < frames@.len() && 0 <= j < frames@.len() && frames@[i].parent is Some
                    && frames@[i].parent->0@ == frames@[j].uid@ && arena.slots@[j]
                    is Some implies arena.slots@[i] is Some by {
                if arena.slots@[i] is None {
                    let k = choose|k: int| 0 <= k < rest@.len() && (#[trigger] rest@[k]) == i;
                    assert(blocked(arena, up@, rest@[k] as int));
                    assert(parent_place(frames@, i, up@[i]));
                    match up@[i] {
                        Some(u) => {
                            if u != j {
                                assert(frames@[u as int].key() != frames@[j].key());
                            }
                        },
                        None => {},
                    }
                }
            }
        }
        assert forall|i: int| 0 <= i < frames@.len() implies ((#[trigger] arena.slots@[i]) is Some
            <==> grounded(frames@, frames@[i].uid@)) by {
            if arena.slots@[i] is Some {
                lemma_node_grounded(arena, frames@, arena.slots@[i]->0 as int);
            }
            if grounded(frames@, frames@[i].uid@) {
                let n = choose|n: nat| #[trigger] grounded_within(frames@, frames@[i].uid@, n);
                lemma_settled_complete(arena, frames@, i, n);
            }
        }
        assert(keys(dropped@) =~= bad_roots(frames@) + stranded(frames@, frames@.take(0)));
    }
    let mut i: usize = 0;
    while i < frames.len()
        invariant
            i <= frames@.len(),
            arena.slots@.len() == frames@.len(),
            arena.complete(frames@),
            keys(dropped@) == bad_roots(frames@) + stranded(frames@, frames@.take(i as int)),
        decreases frames@.len() - i,
    {
        let ghost gone = dropped@;
        assert(frames@.take(i + 1).drop_last() =~= frames@.take(i as int));
        assert(frames@.take(i + 1).last() == frames@[i as int]);
        assert(arena.slots@[i as int] is Some <==> grounded(frames@, frames@[i as int].uid@));
        if frames[i].parent.is_some() && arena.slots[i].is_none() {
            dropped.push(frames[i].uid.clone());
            assert(keys(dropped@) =~= keys(gone).push(frames@[i as int].uid@));
        }
        assert(keys(dropped@) =~= bad_roots(frames@) + stranded(frames@, frames@.take(i + 1)));
        i = i + 1;
    }
    assert(frames@.take(i as int) =~= frames@);
    if arena.nodes.len() == 0 {
        assert forall|j: int| 0 <= j < frames@.len() implies !grounded(
            frames@,
            (#[trigger] frames@[j]).uid@,
        ) by {
            assert(arena.slots@[j] is None);
        }
        (None, dropped)
    } else {
        (Some(arena), dropped)
    }
}

/// An identity is among the bad roots exactly when some frame with it is one.
proof fn lemma_bad_roots(s: Seq<Arc<FrameRecord>>, uid: FrameKey)
    ensures
        bad_roots(s).contains(uid) <==> exists|i: int|
            0 <= i < s.len() && (#[trigger] s[i]).uid@ == uid && bad_root(s[i]),
    decreases s.len(),
{
    if s.len() > 0 {
        let t = s.drop_last();
        lemma_bad_roots(t, uid);
        let r = bad_roots(t);
        if bad_root(s.last()) {
            assert(r.push(s.last().uid@).contains(uid) <==> r.contains(uid) || s.last().uid@
                == uid) by {
                let p = r.push(s.last().uid@);
                if r.contains(uid) {
                    let k = choose|k: int| 0 <= k < r.len() && r[k] == uid;
                    assert(p[k] == uid);
                }
                if s.last().uid@ == uid {
                    assert(p[p.len() - 1] == uid);
                }
            }
        }
        if exists|i: int| 0 <= i < t.len() && (#[trigger] t[i]).uid@ == uid && bad_root(t[i]) {
            let i = choose|i: int|
                0 <= i < t.len() && (#[trigger] t[i]).uid@ == uid && bad_root(t[i]);
            assert(s[i].uid@ == uid && bad_root(s[i]));
        }
        if exists|i: int| 0 <= i < s.len() && (#[trigger] s[i]).uid@ == uid && bad_root(s[i]) {
            let i = choose|i: int|
                0 <= i < s.len() && (#[trigger] s[i]).uid@ == uid && bad_root(s[i]);
            if i < t.len() {
                assert(t[i].uid@ == uid && bad_root(t[i]));
            }
        }
        assert(s.last() == s[s.len() - 1]);
    }
}

/// An identity is among the stranded exactly when some frame with it has a parent and is not
/// grounded.
proof fn lemma_stranded(frames: Seq<Arc<FrameRecord>>, s: Seq<Arc<FrameRecord>>, uid: FrameKey)
    ensures
        stranded(frames, s).contains(uid) <==> !grounded(frames, uid) && exists|i: int|
            0 <= i < s.len() && (#[trigger] s[i]).uid@ == uid && s[i].parent is Some,
    decreases s.len(),
{
    if s.len() > 0 {
        let t = s.drop_last();
        lemma_stranded(frames, t, uid);
        let r = stranded(frames, t);
        let p = r.push(s.last().uid@);
        assert(p.contains(uid) <==> r.contains(uid) || s.last().uid@ == uid) by {
            if r.contains(uid) {
                let k = choose|k: int| 0 <= k < r.len() && r[k] == uid;
                assert(p[k] == uid);
            }
            if s.last().uid@ == uid {
                assert(p[p.len() - 1] == uid);
            }
        }
        if exists|i: int| 0 <= i < t.len() && (#[trigger] t[i]).uid@ == uid && t[i].parent is Some {
            let i = choose|i: int|
                0 <= i < t.len() && (#[trigger] t[i]).uid@ == uid && t[i].parent is Some;
            assert(s[i].uid@ == uid && s[i].parent is Some);
        }
        if exists|i: int| 0 <= i < s.len() && (#[trigger] s[i]).uid@ == uid && s[i].parent is Some {
            let i = choose|i: int|
                0 <= i < s.len() && (#[trigger] s[i]).uid@ == uid && s[i].parent is Some;
            if i < t.len() {
                assert(t[i].uid@ == uid && t[i].parent is Some);
            }
        }
        assert(s.last() == s[s.len() - 1]);
    }
}

/// Every frame of a snapshot is either joined to a root or reported as dropped, never both and
/// never neither.
pub proof fn law_no_frame_is_lost(snap: Snapshot, i: int)
    requires
        snap.wf(),
        0 <= i < snap.frame_seq().len(),
    ensures
        grounded(snap.frame_seq(), snap.frame_seq()[i].uid@) <==> !unplaceable(
            snap.frame_seq(),
        ).contains(snap.frame_seq()[i].uid@),
{
    let frames = snap.frame_seq();
    let uid = frames[i].uid@;
    snap.lemma_wf();
    lemma_bad_roots(frames, uid);
    lemma_stranded(frames, frames, uid);
    let (a, b) = (bad_roots(frames), stranded(frames, frames));
    assert((a + b).contains(uid) <==> a.contains(uid) || b.contains(uid)) by {
        if a.contains(uid) {
            let k = choose|k: int| 0 <= k < a.len() && a[k] == uid;
            assert((a + b)[k] == uid);
        }
        if b.contains(uid) {
            let k = choose|k: int| 0 <= k < b.len() && b[k] == uid;
            assert((a + b)[a.len() + k] == uid);
        }
    }
    assert forall|j: int| 0 <= j < frames.len() && (#[trigger] frames[j]).uid@ == uid implies j
        == i by {
        if j != i {
            assert(frames[j].key() != frames[i].key());
        }
    }
    if bad_root(frames[i]) {
        if grounded(frames, uid) {
            let n = choose|n: nat| #[trigger] grounded_within(frames, uid, n);
            assert(false);
        }
    } else {
        assert(frames[i].parent is None ==> grounded_within(frames, uid, 0));
    }
}

/// What is joined to a root is so through its parent: a placed child's parent is placed.
pub proof fn law_parents_are_placed(snap: Snapshot, i: int)
    requires
        snap.wf(),
        0 <= i < snap.frame_seq().len(),
        snap.frame_seq()[i].parent is Some,
        grounded(snap.frame_seq(), snap.frame_seq()[i].uid@),
    ensures
        grounded(snap.frame_seq(), snap.frame_seq()[i].parent->0@),
{
    let frames = snap.frame_seq();
    let uid = frames[i].uid@;
    snap.lemma_wf();
    let n = choose|n: nat| #[trigger] grounded_within(frames, uid, n);
    let k = choose|k: int|
        0 <= k < frames.len() && (#[trigger] frames[k]).uid@ == uid && match frames[k].parent {
            None => frames[k].uid.class.inertial(),
            Some(p) => n > 0 && grounded_within(frames, p@, (n - 1) as nat),
        };
    if k != i {
        assert(frames[k].key() != frames[i].key());
    }
    assert(grounded_within(frames, frames[i].parent->0@, (n - 1) as nat));
}

/// A frame without a parent is placed exactly when its class is one of the three inertial ones.
pub proof fn law_roots_are_inertial(snap: Snapshot, i: int)
    requires
        snap.wf(),
        0 <= i < snap.frame_seq().len(),
        snap.frame_seq()[i].parent is None,
    ensures
        grounded(snap.frame_seq(), snap.frame_seq()[i].uid@) <==> {
            let class = snap.frame_seq()[i].uid.class;
            class == crate::ident::FrameClass::RootInertial || class
                == crate::ident::FrameClass::PlanetInertial || class
                == crate::ident::FrameClass::BarycenterInertial
        },
{
    let frames = snap.frame_seq();
    let uid = frames[i].uid@;
    snap.lemma_wf();
    if grounded(frames, uid) {
        let n = choose|n: nat| #[trigger] grounded_within(frames, uid, n);
        let k = choose|k: int|
            0 <= k < frames.len() && (#[trigger] frames[k]).uid@ == uid && match frames[k].parent {
                None => frames[k].uid.class.inertial(),
                Some(p) => n > 0 && grounded_within(frames, p@, (n - 1) as nat),
            };
        if k != i {
            assert(frames[k].key() != frames[i].key());
        }
    } else {
        assert(!grounded_within(frames, uid, 0));
    }
}

/// A frame with a parent is placed exactly when its parent is.
pub proof fn law_children_go_where_their_parents_go(snap: Snapshot, i: int)
    requires
        snap.wf(),
        0 <= i < snap.frame_seq().len(),
        snap.frame_seq()[i].parent is Some,
    ensures
        grounded(snap.frame_seq(), snap.frame_seq()[i].uid@) <==> grounded(
            snap.frame_seq(),
            snap.frame_seq()[i].parent->0@,
        ),
{
    let frames = snap.frame_seq();
    if grounded(frames, frames[i].uid@) {
        law_parents_are_placed(snap, i);
    }
    if grounded(frames, frames[i].parent->0@) {
        let n = choose|n: nat| #[trigger] grounded_within(frames, frames[i].parent->0@, n);
        assert(grounded_within(frames, frames[i].uid@, n + 1));
    }
}

/// Frames that are only each other's ancestors are not placed: where every frame of a set has its
/// parent in the set, none is. Nor is an identity that no frame has.
pub proof fn law_cycles_have_no_place(snap: Snapshot, set: Set<FrameKey>, uid: FrameKey)
    requires
        forall|i: int|
            0 <= i < snap.frame_seq().len() && set.contains((#[trigger] snap.frame_seq()[i]).uid@)
                ==> snap.frame_seq()[i].parent is Some && set.contains(
                snap.frame_seq()[i].parent->0@,
            ),
    ensures
        set.contains(uid) ==> !grounded(snap.frame_seq(), uid),
        (forall|i: int|
            0 <= i < snap.frame_seq().len() ==> (#[trigger] snap.frame_seq()[i]).uid@ != uid)
            ==> !grounded(snap.frame_seq(), uid),
{
    let frames = snap.frame_seq();
    if grounded(frames, uid) {
        let n = choose|n: nat| #[trigger] grounded_within(frames, uid, n);
        if set.contains(uid) {
            lemma_closed_set(frames, set, uid, n);
        }
        assert(grounded_within(frames, uid, n));
    }
}

/// Nothing in a set that holds its frames' parents is joined to a root in any number of steps.
proof fn lemma_closed_set(frames: Seq<Arc<FrameRecord>>, set: Set<FrameKey>, uid: FrameKey, n: nat)
    requires
        forall|i: int|
            0 <= i < frames.len() && set.contains((#[trigger] frames[i]).uid@)
                ==> frames[i].parent is Some && set.contains(frames[i].parent->0@),
        set.contains(uid),
    ensures
        !grounded_within(frames, uid, n),
    decreases n,
{
    if grounded_within(frames, uid, n) {
        let k = choose|k: int|
            0 <= k < frames.len() && (#[trigger] frames[k]).uid@ == uid && match frames[k].parent {
                None => frames[k].uid.class.inertial(),
                Some(p) => n > 0 && grounded_within(frames, p@, (n - 1) as nat),
            };
        lemma_closed_set(frames, set, frames[k].parent->0@, (n - 1) as nat);
    }
}

/// In an arrangement every node stands for one frame, after the node of the parent that the frame
/// names; a root is one that names none.
pub proof fn law_nodes_come_after_their_parents(
    a: FrameArena,
    frames: Seq<Arc<FrameRecord>>,
    n: int,
    m: int,
)
    requires
        a.wf(frames),
        0 <= n < a.nodes@.len(),
        0 <= m < a.nodes@.len(),
        a.nodes@.len() <= usize::MAX,
    ensures
        a.nodes@[n].frame < frames.len(),
        a.nodes@[n].frame == a.nodes@[m].frame ==> n == m,
        a.nodes@[n].parent is None <==> frames[a.nodes@[n].frame as int].parent is None,
        a.nodes@[n].parent matches Some(p) ==> p < n && frames[a.nodes@[p as int].frame as int].uid@
            == frames[a.nodes@[n].frame as int].parent->0@,
{
    assert(a.node_ok(frames, n));
    assert(a.node_ok(frames, m));
}

/// What is dropped is named once: roots that may not be one first, then children without a placed
/// parent, each in the snapshot's order.
pub proof fn law_dropped_frames_are_named_once(snap: Snapshot)
    requires
        snap.wf(),
    ensures
        unplaceable(snap.frame_seq()).no_duplicates(),
        forall|j: int, k: int|
            0 <= j < k < unplaceable(snap.frame_seq()).len() ==> #[trigger] dropped_before(
                snap.frame_seq(),
                unplaceable(snap.frame_seq())[j],
                unplaceable(snap.frame_seq())[k],
            ),
        forall|k: int|
            0 <= k < unplaceable(snap.frame_seq()).len() ==> exists|i: int|
                0 <= i < snap.frame_seq().len() && (#[trigger] snap.frame_seq()[i]).uid@
                    == #[trigger] unplaceable(snap.frame_seq())[k],
{
    let frames = snap.frame_seq();
    snap.lemma_wf();
    let n = frames.len() as int;
    lemma_bad_roots_once(frames, n);
    lemma_stranded_once(frames, n);
    assert(frames.take(n) =~= frames);
    let (a, b) = (bad_roots(frames), stranded(frames, frames));
    let u = unplaceable(frames);
    assert forall|k: int| 0 <= k < u.len() implies exists|i: int|
        0 <= i < frames.len() && (#[trigger] frames[i]).uid@ == #[trigger] u[k] by {
        if k < a.len() {
            assert(u[k] == a[k]);
            let i = choose|i: int|
                0 <= i < n && (#[trigger] frames[i]).uid@ == a[k] && frames[i].parent is None;
            assert(frames[i].uid@ == u[k]);
        } else {
            assert(u[k] == b[k - a.len()]);
            let i = choose|i: int|
                0 <= i < n && (#[trigger] frames[i]).uid@ == b[k - a.len()]
                    && frames[i].parent is Some;
            assert(frames[i].uid@ == u[k]);
        }
    }
    assert forall|j: int, k: int| 0 <= j < k < u.len() implies #[trigger] dropped_before(
        frames,
        u[j],
        u[k],
    ) by {
        if k < a.len() {
            assert(u[j] == a[j] && u[k] == a[k]);
            assert(dropped_before(frames, a[j], a[k]));
        } else if j >= a.len() {
            assert(u[j] == b[j - a.len()] && u[k] == b[k - a.len()]);
            assert(dropped_before(frames, b[j - a.len()], b[k - a.len()]));
        } else {
            assert(u[j] == a[j] && u[k] == b[k - a.len()]);
            let p = choose|i: int|
                0 <= i < n && (#[trigger] frames[i]).uid@ == a[j] && frames[i].parent is None;
            let q = choose|i: int|
                0 <= i < n && (#[trigger] frames[i]).uid@ == b[k - a.len()]
                    && frames[i].parent is Some;
            assert(frames[p].uid@ == u[j] && frames[q].uid@ == u[k]);
        }
    }
    assert forall|j: int, k: int| 0 <= j < u.len() && 0 <= k < u.len() && j != k implies u[j]
        != u[k] by {
        let (lo, hi) = if j < k { (j, k) } else { (k, j) };
        if hi < a.len() {
            assert(u[lo] == a[lo] && u[hi] == a[hi]);
        } else if lo >= a.len() {
            assert(u[lo] == b[lo - a.len()] && u[hi] == b[hi - a.len()]);
        } else {
            assert(u[lo] == a[lo] && u[hi] == b[hi - a.len()]);
            let p = choose|i: int|
                0 <= i < n && (#[trigger] frames[i]).uid@ == a[lo] && frames[i].parent is None;
            let q = choose|i: int|
                0 <= i < n && (#[trigger] frames[i]).uid@ == b[hi - a.len()]
                    && frames[i].parent is Some;
            assert(frames[p].key() != frames[q].key());
        }
    }
}

/// Frame `a` is named before frame `b`: it has no parent and the other has, or both have one or
/// none and it stands first in the snapshot.
pub open spec fn dropped_before(frames: Seq<Arc<FrameRecord>>, a: FrameKey, b: FrameKey) -> bool {
    exists|p: int, q: int|
        0 <= p < frames.len() && 0 <= q < frames.len() && (#[trigger] frames[p]).uid@ == a && (
        #[trigger] frames[q]).uid@ == b && ((frames[p].parent is None && frames[q].parent is Some)
            || ((frames[p].parent is None <==> frames[q].parent is None) && p < q))
}

/// The bad roots among the first `n` frames, each once.
proof fn lemma_bad_roots_once(frames: Seq<Arc<FrameRecord>>, n: int)
    requires
        crate::keyed::distinct::<FrameKey, Arc<FrameRecord>>(frames),
        0 <= n <= frames.len(),
    ensures
        bad_roots(frames.take(n)).no_duplicates(),
        forall|j: int, k: int|
            0 <= j < k < bad_roots(frames.take(n)).len() ==> #[trigger] dropped_before(
                frames,
                bad_roots(frames.take(n))[j],
                bad_roots(frames.take(n))[k],
            ),
        forall|k: int|
            0 <= k < bad_roots(frames.take(n)).len() ==> exists|i: int|
                0 <= i < n && (#[trigger] frames[i]).uid@ == #[trigger] bad_roots(frames.take(n))[k]
                    && frames[i].parent is None,
    decreases n,
{
    if n > 0 {
        lemma_bad_roots_once(frames, n - 1);
        assert(frames.take(n).drop_last() =~= frames.take(n - 1));
        assert(frames.take(n).last() == frames[n - 1]);
        let (t, u) = (bad_roots(frames.take(n - 1)), bad_roots(frames.take(n)));
        assert forall|k: int| 0 <= k < u.len() implies exists|i: int|
            0 <= i < n && (#[trigger] frames[i]).uid@ == #[trigger] u[k]
                && frames[i].parent is None by {
            if k < t.len() {
                assert(u[k] == t[k]);
                let i = choose|i: int|
                    0 <= i < n - 1 && (#[trigger] frames[i]).uid@ == t[k]
                        && frames[i].parent is None;
                assert(frames[i].uid@ == u[k]);
            } else {
                assert(frames[n - 1].uid@ == u[k]);
            }
        }
        assert forall|j: int, k: int| 0 <= j < k < u.len() implies #[trigger] dropped_before(
            frames,
            u[j],
            u[k],
        ) by {
            assert(u[j] == t[j]);
            if k < t.len() {
                assert(u[k] == t[k]);
                assert(dropped_before(frames, t[j], t[k]));
            } else {
                let i = choose|i: int|
                    0 <= i < n - 1 && (#[trigger] frames[i]).uid@ == t[j]
                        && frames[i].parent is None;
                assert(frames[i].uid@ == u[j] && frames[n - 1].uid@ == u[k]);
            }
        }
        if bad_root(frames[n - 1]) {
            assert forall|k: int| 0 <= k < t.len() implies t[k] != frames[n - 1].uid@ by {
                let i = choose|i: int|
                    0 <= i < n - 1 && (#[trigger] frames[i]).uid@ == t[k]
                        && frames[i].parent is None;
                assert(frames[i].key() != frames[n - 1].key());
            }
        }
    }
}

/// The stranded children among the first `n` frames, each once.
proof fn lemma_stranded_once(frames: Seq<Arc<FrameRecord>>, n: int)
    requires
        crate::keyed::distinct::<FrameKey, Arc<FrameRecord>>(frames),
        0 <= n <= frames.len(),
    ensures
        stranded(frames, frames.take(n)).no_duplicates(),
        forall|j: int, k: int|
            0 <= j < k < stranded(frames, frames.take(n)).len() ==> #[trigger] dropped_before(
                frames,
                stranded(frames, frames.take(n))[j],
                stranded(frames, frames.take(n))[k],
            ),
        forall|k: int|
            0 <= k < stranded(frames, frames.take(n)).len() ==> exists|i: int|
                0 <= i < n && (#[trigger] frames[i]).uid@ == #[trigger] stranded(
                    frames,
                    frames.take(n),
                )[k] && frames[i].parent is Some,
    decreases n,
{
    if n > 0 {
        lemma_stranded_once(frames, n - 1);
        assert(frames.take(n).drop_last() =~= frames.take(n - 1));
        assert(frames.take(n).last() == frames[n - 1]);
        let (t, u) = (stranded(frames, frames.take(n - 1)), stranded(frames, frames.take(n)));
        assert forall|k: int| 0 <= k < u.len() implies exists|i: int|
            0 <= i < n && (#[trigger] frames[i]).uid@ == #[trigger] u[k]
                && frames[i].parent is Some by {
            if k < t.len() {
                assert(u[k] == t[k]);
                let i = choose|i: int|
                    0 <= i < n - 1 && (#[trigger] frames[i]).uid@ == t[k]
                        && frames[i].parent is Some;
                assert(frames[i].uid@ == u[k]);
            } else {
                assert(frames[n - 1].uid@ == u[k]);
            }
        }
        assert forall|j: int, k: int| 0 <= j < k < u.len() implies #[trigger] dropped_before(
            frames,
            u[j],
            u[k],
        ) by {
            assert(u[j] == t[j]);
            if k < t.len() {
                assert(u[k] == t[k]);
                assert(dropped_before(frames, t[j], t[k]));
            } else {
                let i = choose|i: int|
                    0 <= i < n - 1 && (#[trigger] frames[i]).uid@ == t[j]
                        && frames[i].parent is Some;
                assert(frames[i].uid@ == u[j] && frames[n - 1].uid@ == u[k]);
            }
        }
        if t != u {
            assert forall|k: int| 0 <= k < t.len() implies t[k] != frames[n - 1].uid@ by {
                let i = choose|i: int|
                    0 <= i < n - 1 && (#[trigger] frames[i]).uid@ == t[k]
                        && frames[i].parent is Some;
                assert(frames[i].key() != frames[n - 1].key());
            }
        }
    }
}

/// In a complete arrangement exactly the placed frames have a node.
pub proof fn law_placed_frames_have_nodes(a: FrameArena, frames: Seq<Arc<FrameRecord>>, i: int)
    requires
        a.wf(frames),
        a.complete(frames),
        0 <= i < frames.len(),
    ensures
        grounded(frames, frames[i].uid@) <==> exists|n: int|
            0 <= n < a.nodes@.len() && (#[trigger] a.nodes@[n]).frame == i,
{
    assert(a.slots@[i] is Some <==> grounded(frames, frames[i].uid@));
    if grounded(frames, frames[i].uid@) {
        assert(a.nodes@[a.slots@[i]->0 as int].frame == i);
    }
    if exists|n: int| 0 <= n < a.nodes@.len() && (#[trigger] a.nodes@[n]).frame == i {
        let n = choose|n: int| 0 <= n < a.nodes@.len() && (#[trigger] a.nodes@[n]).frame == i;
        assert(a.node_ok(frames, n));
    }
}

} // verus!
