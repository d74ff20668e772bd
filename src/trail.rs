//! A bounded history of past positions, most recent last.
use std::collections::VecDeque;
use vstd::prelude::*;

verus! {

/// The last `n` entries of `s` (all of `s` when it is shorter).
pub open spec fn keep_last<P>(s: Seq<P>, n: nat) -> Seq<P> {
    if s.len() <= n {
        s
    } else {
        s.subrange(s.len() - n, s.len() as int)
    }
}

/// The trail that `push` leaves after appending each of `ps` in turn to `s`
/// under capacity `cap`.
pub open spec fn after_pushes<P>(s: Seq<P>, ps: Seq<P>, cap: nat) -> Seq<P>
    decreases ps.len(),
{
    if ps.len() == 0 {
        s
    } else {
        keep_last(after_pushes(s, ps.drop_last(), cap).push(ps.last()), cap)
    }
}

/// However many positions are appended, a trail never holds more than its
/// capacity, and a trail of capacity zero stays empty.
pub proof fn lemma_trail_bound<P>(s: Seq<P>, ps: Seq<P>, cap: nat)
    requires
        s.len() <= cap,
    ensures
        after_pushes(s, ps, cap).len() <= cap,
        cap == 0 ==> after_pushes(s, ps, cap) == Seq::<P>::empty(),
    decreases ps.len(),
{
    if ps.len() > 0 {
        lemma_trail_bound(s, ps.drop_last(), cap);
    }
    if cap == 0 {
        assert(after_pushes(s, ps, cap) =~= Seq::<P>::empty());
    }
}

/// Past positions of a body, oldest first, never more than `capacity` of them.
pub struct Trail<P> {
    points: VecDeque<P>,
    capacity: usize,
}

impl<P> View for Trail<P> {
    type V = Seq<P>;

    closed spec fn view(&self) -> Seq<P> {
        self.points@
    }
}

impl<P> Trail<P> {
    /// The capacity the trail is held to.
    pub closed spec fn spec_capacity(&self) -> nat {
        self.capacity as nat
    }

    /// The trail never holds more entries than its capacity.
    pub closed spec fn wf(&self) -> bool {
        self.points@.len() <= self.capacity
    }

    /// An empty trail holding at most `capacity` positions.
    pub fn new(capacity: usize) -> (r: Self)
        ensures
            r.wf(),
            r@ == Seq::<P>::empty(),
            r.spec_capacity() == capacity,
    {
        Trail { points: VecDeque::new(), capacity }
    }

    /// Number of positions held.
    pub fn len(&self) -> (r: usize)
        ensures
            r == self@.len(),
    {
        self.points.len()
    }

    /// The capacity the trail is held to.
    pub fn capacity(&self) -> (r: usize)
        ensures
            r == self.spec_capacity(),
    {
        self.capacity
    }

    /// The position at index `i`, counted from the oldest.
    pub fn get(&self, i: usize) -> (r: &P)
        requires
            i < self@.len(),
        ensures
            *r == self@[i as int],
    {
        &self.points[i]
    }

    /// Drops oldest positions until at most `n` remain.
    fn drop_oldest_beyond(&mut self, n: usize)
        ensures
            final(self)@ == keep_last(old(self)@, n as nat),
            final(self).capacity == old(self).capacity,
    {
        while self.points.len() > n
            invariant
                keep_last(self.points@, n as nat) == keep_last(old(self)@, n as nat),
                self.capacity == old(self).capacity,
            decreases self.points@.len(),
        {
            let ghost before = self.points@;
            let _ = self.points.pop_front();
            assert(self.points@ =~= before.subrange(1, before.len() as int));
            assert(keep_last(self.points@, n as nat) =~= keep_last(before, n as nat));
        }
    }

    /// Appends `p` as the most recent position, then drops the oldest
    /// positions beyond the capacity. With capacity zero nothing is kept.
    pub fn push(&mut self, p: P)
        requires
            old(self).wf(),
        ensures
            final(self).wf(),
            final(self).spec_capacity() == old(self).spec_capacity(),
            final(self)@ == keep_last(old(self)@.push(p), old(self).spec_capacity()),
    {
        if self.capacity == 0 {
            self.points.clear();
            assert(self.points@ =~= keep_last(old(self)@.push(p), 0));
        } else {
            self.points.push_back(p);
            let n = self.capacity;
            self.drop_oldest_beyond(n);
        }
    }

    /// Appends `p` and raises the capacity by one, so that nothing is
    /// dropped: the trail of a prediction grows by one entry per sub-step.
    pub fn extend(&mut self, p: P)
        requires
            old(self).wf(),
            old(self).spec_capacity() < usize::MAX,
        ensures
            final(self).wf(),
            final(self).spec_capacity() == old(self).spec_capacity() + 1,
            final(self)@ == old(self)@.push(p),
    {
        self.capacity = self.capacity + 1;
        self.points.push_back(p);
    }

    /// Sets the capacity to `n`, dropping the oldest positions beyond it.
    pub fn set_capacity(&mut self, n: usize)
        ensures
            final(self).wf(),
            final(self).spec_capacity() == n,
            final(self)@ == keep_last(old(self)@, n as nat),
    {
        self.drop_oldest_beyond(n);
        self.capacity = n;
    }

    /// Sets the capacity to `n` and appends `p`: the trail update of a body
    /// after a tick, under the trail length configured now.
    pub fn record(&mut self, p: P, n: usize)
        requires
            old(self).wf(),
        ensures
            final(self).wf(),
            final(self).spec_capacity() == n,
            final(self)@ == keep_last(old(self)@.push(p), n as nat),
    {
        let ghost s = self.points@;
        self.set_capacity(n);
        self.push(p);
        proof {
            let k = keep_last(s, n as nat);
            if s.len() > n && n > 0 {
                assert(keep_last(k.push(p), n as nat) =~= keep_last(s.push(p), n as nat));
            } else if n == 0 {
                assert(keep_last(k.push(p), n as nat) =~= keep_last(s.push(p), n as nat));
            }
        }
    }

    /// Removes every position; the capacity stays.
    pub fn clear(&mut self)
        ensures
            final(self).wf(),
            final(self)@ == Seq::<P>::empty(),
            final(self).spec_capacity() == old(self).spec_capacity(),
    {
        self.points.clear();
    }
}

} // verus!
