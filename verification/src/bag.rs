//! The randomizer: a queue of upcoming piece kinds fed by uniformly
//! shuffled full bags of all seven kinds, so that every aligned window of
//! seven draws contains each kind exactly once.

use vstd::prelude::*;

use crate::pieces::PieceKind;

verus! {

/// One bag holds each of the seven kinds once.
pub const BAG_SIZE: usize = 7;

/// `next` refills before the remaining queue falls below this, so at least
/// four previews are always available to a renderer after a draw.
pub const LOOKAHEAD_THRESHOLD: usize = 3;

/// Relies on macroquad::rand::gen_range (quad-rand): for integer types it
/// scales one generator output by (high - low) and adds low, so the result
/// always lies in [low, high). The size bound keeps that f64 scaling exact.
/// Panics are avoided by requiring a non-empty range.
#[verifier::external_body]
fn gen_index(low: usize, high: usize) -> (r: usize)
    requires
        low < high,
        high <= 65536,
    ensures
        low <= r < high,
{
    macroquad::rand::gen_range(low, high)
}

/// How many times `k` occurs in `s`.
pub open spec fn kind_count(s: Seq<PieceKind>, k: PieceKind) -> nat {
    s.to_multiset().count(k)
}

/// A full bag: seven kinds, each exactly once.
pub open spec fn is_full_bag(s: Seq<PieceKind>) -> bool {
    s.len() == BAG_SIZE && forall|k: PieceKind| kind_count(s, k) == 1
}

/// Draws 7i up to 7i + 7 of a stream.
pub open spec fn bag_window(s: Seq<PieceKind>, i: int) -> Seq<PieceKind> {
    s.subrange(7 * i, 7 * i + 7)
}

/// The stream splits exactly into aligned full bags.
pub open spec fn bag_aligned(s: Seq<PieceKind>) -> bool {
    &&& s.len() % 7 == 0
    &&& forall|i: int| 0 <= i && 7 * (i + 1) <= s.len() ==> is_full_bag(#[trigger] bag_window(s, i))
}

/// Appending a full bag to an aligned stream keeps it aligned.
pub proof fn lemma_bag_aligned_append(s: Seq<PieceKind>, b: Seq<PieceKind>)
    requires
        bag_aligned(s),
        is_full_bag(b),
    ensures
        bag_aligned(s + b),
{
    assert forall|i: int| 0 <= i && 7 * (i + 1) <= (s + b).len() implies is_full_bag(
        #[trigger] bag_window(s + b, i),
    ) by {
        if 7 * (i + 1) <= s.len() {
            assert(bag_window(s + b, i) =~= bag_window(s, i));
        } else {
            assert(7 * i == s.len());
            assert(bag_window(s + b, i) =~= b);
        }
    }
}

/// The queue of upcoming piece kinds. The ghost `dealt` field records every
/// kind already handed out, so the invariant can speak about the whole
/// stream of draws.
pub struct PieceBag {
    queue: Vec<PieceKind>,
    dealt: Ghost<Seq<PieceKind>>,
}

impl View for PieceBag {
    type V = Seq<PieceKind>;

    closed spec fn view(&self) -> Seq<PieceKind> {
        self.queue@
    }
}

impl PieceBag {
    /// The kinds already handed out by `next`, oldest first.
    pub closed spec fn dealt(&self) -> Seq<PieceKind> {
        self.dealt@
    }

    /// Everything the bag has ever decided: past draws, then the queue.
    pub open spec fn stream(&self) -> Seq<PieceKind> {
        self.dealt() + self@
    }

    pub open spec fn wf(&self) -> bool {
        bag_aligned(self.stream())
    }

    pub fn new() -> (b: PieceBag)
        ensures
            b.wf(),
            b@ == Seq::<PieceKind>::empty(),
            b.dealt() == Seq::<PieceKind>::empty(),
    {
        let b = PieceBag { queue: Vec::new(), dealt: Ghost(Seq::empty()) };
        proof {
            assert(b.stream() =~= Seq::<PieceKind>::empty());
        }
        b
    }

    /// How many kinds are queued up.
    pub fn len(&self) -> (n: usize)
        ensures
            n == self@.len(),
    {
        self.queue.len()
    }

    /// The `i`-th upcoming kind (0 is drawn next); used for previews.
    pub fn peek(&self, i: usize) -> (k: PieceKind)
        requires
            i < self@.len(),
        ensures
            k == self@[i as int],
    {
        self.queue[i]
    }

    /// Append one freshly shuffled full bag to the queue (Fisher-Yates over
    /// the seven kinds).
    pub fn refill(&mut self)
        requires
            old(self).wf(),
        ensures
            final(self).wf(),
            final(self).dealt() == old(self).dealt(),
            exists|b: Seq<PieceKind>|
                is_full_bag(b) && final(self)@ == old(self)@ + b,
    {
        broadcast use vstd::seq_lib::group_to_multiset_ensures;

        let mut bag: Vec<PieceKind> = Vec::new();
        bag.push(PieceKind::I);
        bag.push(PieceKind::O);
        bag.push(PieceKind::T);
        bag.push(PieceKind::S);
        bag.push(PieceKind::Z);
        bag.push(PieceKind::J);
        bag.push(PieceKind::L);
        proof {
            assert forall|k: PieceKind| kind_count(bag@, k) == 1 by {
                let s0 = Seq::<PieceKind>::empty();
                assert(s0.to_multiset().count(k) == 0) by {
                    assert(s0.to_multiset().len() == 0);
                }
                assert(bag@ =~= s0.push(PieceKind::I).push(PieceKind::O).push(PieceKind::T).push(
                    PieceKind::S,
                ).push(PieceKind::Z).push(PieceKind::J).push(PieceKind::L));
            }
            assert(is_full_bag(bag@));
        }
        let mut i: usize = BAG_SIZE - 1;
        while i >= 1
            invariant
                i <= BAG_SIZE - 1,
                bag@.len() == BAG_SIZE,
                is_full_bag(bag@),
            decreases i,
        {
            let j = gen_index(0, i + 1);
            let ghost s0 = bag@;
            let vi = bag[i];
            let vj = bag[j];
            bag.set(i, vj);
            bag.set(j, vi);
            proof {
                broadcast use vstd::seq_lib::to_multiset_update;

                let s1 = s0.update(i as int, vj);
                let s2 = s1.update(j as int, vi);
                assert(bag@ == s2);
                assert(s1[j as int] == s0[j as int]);
                assert(s0.contains(s0[i as int]));
                assert(s0.contains(s0[j as int]));
                assert forall|k: PieceKind| kind_count(s2, k) == kind_count(s0, k) by {
                    assert(s1.to_multiset() == s0.to_multiset().insert(vj).remove(vi));
                    assert(s2.to_multiset() == s1.to_multiset().insert(vi).remove(vj));
                }
            }
            i -= 1;
        }
        let ghost fresh = bag@;
        let ghost q0 = self.queue@;
        self.queue.append(&mut bag);
        proof {
            lemma_bag_aligned_append(old(self).stream(), fresh);
            assert(self.stream() =~= old(self).stream() + fresh);
            assert(is_full_bag(fresh) && self.queue@ == q0 + fresh);
        }
    }

    /// What a draw may add to the queue before popping: a freshly shuffled
    /// full bag when the queue has fallen below the lookahead threshold,
    /// nothing otherwise.
    pub open spec fn refilled_with(q0: Seq<PieceKind>, b: Seq<PieceKind>) -> bool {
        if q0.len() < LOOKAHEAD_THRESHOLD {
            is_full_bag(b)
        } else {
            b == Seq::<PieceKind>::empty()
        }
    }

    /// Pop and return the front kind, refilling first whenever fewer than
    /// `LOOKAHEAD_THRESHOLD` kinds remain; the caller therefore never sees
    /// an empty queue.
    pub fn next(&mut self) -> (k: PieceKind)
        requires
            old(self).wf(),
        ensures
            final(self).wf(),
            exists|b: Seq<PieceKind>|
                {
                    let q = old(self)@ + b;
                    &&& #[trigger] Self::refilled_with(old(self)@, b)
                    &&& q.len() > 0
                    &&& k == q[0]
                    &&& final(self)@ == q.drop_first()
                    &&& final(self).dealt() == old(self).dealt().push(k)
                },
    {
        let ghost q0 = self.queue@;
        if self.queue.len() < LOOKAHEAD_THRESHOLD {
            self.refill();
        }
        let ghost badd = self.queue@.subrange(q0.len() as int, self.queue@.len() as int);
        proof {
            if q0.len() < LOOKAHEAD_THRESHOLD {
                let b = choose|b: Seq<PieceKind>|
                    is_full_bag(b) && self.queue@ == q0 + b;
                assert(badd =~= b);
            } else {
                assert(badd =~= Seq::<PieceKind>::empty());
            }
            assert(self.queue@ =~= q0 + badd);
        }
        let ghost q = self.queue@;
        let k = self.queue.remove(0);
        proof {
            self.dealt@ = self.dealt@.push(k);
            assert(self.queue@ =~= q.drop_first());
            assert(self.stream() =~= old(self).dealt() + q);
            assert((q0 + badd).drop_first() =~= self.queue@);
            assert(Self::refilled_with(q0, badd) && {
                let qq = q0 + badd;
                &&& qq.len() > 0
                &&& k == qq[0]
                &&& self.queue@ == qq.drop_first()
                &&& self.dealt@ == old(self).dealt().push(k)
            });
        }
        k
    }
}

/// Bag fairness: every aligned, non-overlapping window of seven
/// consecutive draws contains each of the seven kinds exactly once.
pub proof fn lemma_bag_fairness(bag: &PieceBag, i: int)
    requires
        bag.wf(),
        0 <= i,
        7 * (i + 1) <= bag.dealt().len(),
    ensures
        forall|k: PieceKind| #[trigger] kind_count(bag_window(bag.dealt(), i), k) == 1,
{
    assert(bag_window(bag.dealt(), i) =~= bag_window(bag.stream(), i));
    assert(is_full_bag(bag_window(bag.stream(), i)));
}

} // verus!
