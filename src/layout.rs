//! Slot layouts: where each stored entry sits, computed over key hashes and entry
//! numbers alone. A displacement chain is run on a layout first, and the table's
//! own slots are rearranged only when the chain has succeeded.

use vstd::prelude::*;
use crate::wu::WUHash;

verus! {

/// A slot of a layout: the key's 64-bit hash and the number of the entry placed there.
pub type Placement = (u64, usize);

/// Every occupied slot sits at one of its key's two candidate positions.
pub open spec fn positions_ok(l: Seq<Option<Placement>>, g1: WUHash, g2: WUHash) -> bool {
    forall|i: int|
        0 <= i < l.len() && (#[trigger] l[i]) is Some ==> i == g1.spec_eval(l[i]->Some_0.0) || i
            == g2.spec_eval(l[i]->Some_0.0)
}

/// No entry number is placed twice.
pub open spec fn entries_unique(l: Seq<Option<Placement>>) -> bool {
    forall|i: int, j: int|
        0 <= i < l.len() && 0 <= j < l.len() && (#[trigger] l[i]) is Some && (#[trigger] l[j]) is Some
            && l[i]->Some_0.1 == l[j]->Some_0.1 ==> i == j
}

/// The layout holds `p` in some slot.
pub open spec fn holds(l: Seq<Option<Placement>>, p: Placement) -> bool {
    exists|i: int| 0 <= i < l.len() && l[i] == Some(p)
}

/// No slot of the layout holds entry number `e`.
pub open spec fn lacks_entry(l: Seq<Option<Placement>>, e: usize) -> bool {
    forall|i: int| 0 <= i < l.len() && (#[trigger] l[i]) is Some ==> l[i]->Some_0.1 != e
}

/// A layout for hash functions `g1` and `g2`, whose modulus is its length.
pub open spec fn layout_ok(l: Seq<Option<Placement>>, g1: WUHash, g2: WUHash) -> bool {
    &&& g1.indexable()
    &&& g2.indexable()
    &&& g1.spec_modulus() == l.len()
    &&& g2.spec_modulus() == l.len()
    &&& positions_ok(l, g1, g2)
    &&& entries_unique(l)
}

/// Whether the displacement chain that carries `cur` into slot `pos` of `l`, with at
/// most `steps_left` further moves, ends in an empty slot. An occupant pushed out of
/// a slot moves to its other position; one whose two positions coincide cannot move.
pub open spec fn chain_succeeds(
    l: Seq<Option<Placement>>,
    g1: WUHash,
    g2: WUHash,
    cur: Placement,
    pos: int,
    steps_left: nat,
) -> bool
    decreases steps_left,
{
    if !(0 <= pos < l.len()) {
        false
    } else if l[pos] is None {
        true
    } else if steps_left == 0 {
        false
    } else {
        let e = l[pos]->Some_0;
        let a1 = g1.spec_eval(e.0) as int;
        let a2 = g2.spec_eval(e.0) as int;
        if a1 == a2 {
            false
        } else {
            chain_succeeds(
                l.update(pos, Some(cur)),
                g1,
                g2,
                e,
                if pos == a1 {
                    a2
                } else {
                    a1
                },
                (steps_left - 1) as nat,
            )
        }
    }
}

/// Storing `c` at `pos` and taking out what was there keeps the set of placements,
/// with `c` traded for the old occupant.
proof fn lemma_swap_holds(l: Seq<Option<Placement>>, pos: int, c: Placement)
    requires
        0 <= pos < l.len(),
    ensures
        forall|p: Placement|
            (holds(l.update(pos, Some(c)), p) || Some(p) == l[pos]) <==> (holds(l, p) || p == c),
{
    let l2 = l.update(pos, Some(c));
    assert forall|p: Placement|
        (holds(l2, p) || Some(p) == l[pos]) <==> (holds(l, p) || p == c) by {
        if holds(l2, p) {
            let i = choose|i: int| 0 <= i < l2.len() && l2[i] == Some(p);
            if i != pos {
                assert(l[i] == Some(p));
            }
        }
        if holds(l, p) {
            let i = choose|i: int| 0 <= i < l.len() && l[i] == Some(p);
            if i != pos {
                assert(l2[i] == Some(p));
            }
        }
        if p == c {
            assert(l2[pos] == Some(p));
        }
    }
}

/// A layout of `n` empty slots.
pub fn empty_layout(n: usize) -> (l: Vec<Option<Placement>>)
    ensures
        l@.len() == n,
        forall|i: int| 0 <= i < n ==> (#[trigger] l@[i]) is None,
{
    let mut l: Vec<Option<Placement>> = Vec::new();
    let mut i: usize = 0;
    while i < n
        invariant
            i <= n,
            l@.len() == i,
            forall|j: int| 0 <= j < i ==> (#[trigger] l@[j]) is None,
        decreases n - i,
    {
        l.push(None);
        i = i + 1;
    }
    l
}

/// Places `p` by cuckoo displacement: it goes to its first position, and each entry
/// that it or a later one pushes out moves to its other position, for at most
/// `max_chain` moves. Returns whether the chain ended in an empty slot; when it
/// did, the layout holds exactly what it held before and `p`. An entry whose two
/// positions coincide cannot be moved and ends the chain in failure.
pub fn place(l: &mut Vec<Option<Placement>>, g1: &WUHash, g2: &WUHash, p: Placement, max_chain: u64) -> (ok: bool)
    requires
        layout_ok(old(l)@, *g1, *g2),
        lacks_entry(old(l)@, p.1),
    ensures
        ok == chain_succeeds(old(l)@, *g1, *g2, p, g1.spec_eval(p.0) as int, max_chain as nat),
        final(l)@.len() == old(l)@.len(),
        ok ==> layout_ok(final(l)@, *g1, *g2),
        ok ==> forall|q: Placement| holds(final(l)@, q) <==> (holds(old(l)@, q) || q == p),
{
    let ghost l0 = l@;
    let mut cur: Placement = p;
    let mut pos: usize = g1.eval(cur.0);
    let mut steps: u64 = 0;
    loop
        invariant
            l0 == old(l)@,
            l@.len() == l0.len(),
            layout_ok(l@, *g1, *g2),
            pos < l@.len(),
            pos == g1.spec_eval(cur.0) || pos == g2.spec_eval(cur.0),
            lacks_entry(l@, cur.1),
            forall|q: Placement| (holds(l@, q) || q == cur) <==> (holds(l0, q) || q == p),
            steps <= max_chain,
            chain_succeeds(l@, *g1, *g2, cur, pos as int, (max_chain - steps) as nat) == chain_succeeds(
                l0,
                *g1,
                *g2,
                p,
                g1.spec_eval(p.0) as int,
                max_chain as nat,
            ),
        decreases max_chain - steps,
    {
        let ghost before = l@;
        let mut slot: Option<Placement> = Some(cur);
        l.set_and_swap(pos, &mut slot);
        proof {
            lemma_swap_holds(before, pos as int, cur);
        }
        match slot {
            None => {
                assert forall|q: Placement| holds(l@, q) <==> (holds(l0, q) || q == p) by {
                    if q == cur {
                        assert(l@[pos as int] == Some(q));
                    }
                }
                return true;
            },
            Some(evicted) => {
                assert(before[pos as int] == Some(evicted));
                if steps >= max_chain {
                    return false;
                }
                let a1 = g1.eval(evicted.0);
                let a2 = g2.eval(evicted.0);
                if a1 == a2 {
                    return false;
                }
                let next = if pos == a1 { a2 } else { a1 };
                assert forall|i: int| 0 <= i < l@.len() && (#[trigger] l@[i]) is Some implies l@[i]->Some_0.1
                    != evicted.1 by {
                    if i != pos {
                        assert(before[i] is Some);
                    }
                }
                assert forall|q: Placement| (holds(l@, q) || q == evicted) <==> (holds(l0, q) || q == p) by {
                    if q == cur {
                        assert(l@[pos as int] == Some(q));
                    }
                }
                cur = evicted;
                pos = next;
                steps = steps + 1;
            },
        }
    }
}

} // verus!
