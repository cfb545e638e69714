//! The order in which the server's shared state is locked.
//!
//! Each part of the state has a number: connections 1, distributor 2,
//! shutdown flag 3, secret key 4. A thread may lock a part only while every
//! part it holds has a smaller number, so two threads never wait on each
//! other. The queue records the numbers held, in the order they were taken.

use vstd::prelude::*;

verus! {

/// Whether `s` is strictly increasing.
pub open spec fn increasing(s: Seq<u8>) -> bool {
    forall|i: int, j: int| 0 <= i < j < s.len() ==> s[i] < s[j]
}

/// The numbers of the parts a thread holds, in the order taken.
pub struct LockQueue {
    taken: Vec<u8>,
}

impl View for LockQueue {
    type V = Seq<u8>;

    closed spec fn view(&self) -> Seq<u8> {
        self.taken@
    }
}

/// The last number taken, or zero when nothing is held.
pub open spec fn last_taken(s: Seq<u8>) -> u8 {
    if s.len() == 0 {
        0
    } else {
        s.last()
    }
}

/// The numbers held after releasing `numb`: it leaves when it is the last
/// one taken, else nothing changes.
pub open spec fn spec_release(s: Seq<u8>, numb: u8) -> Seq<u8> {
    if s.len() > 0 && s.last() == numb {
        s.drop_last()
    } else {
        s
    }
}

/// Releasing a part right after locking it gives back the numbers held
/// before.
pub proof fn lemma_acquire_release(s: Seq<u8>, numb: u8)
    ensures
        spec_release(s.push(numb), numb) == s,
{
    assert(s.push(numb).drop_last() =~= s);
}

/// Locking a part numbered above the last one taken keeps the numbers held
/// increasing, and that part becomes the last one taken; so parts locked in
/// increasing order are each allowed in turn.
pub proof fn lemma_increasing_order_allowed(s: Seq<u8>, numb: u8)
    requires
        increasing(s),
        numb > last_taken(s),
    ensures
        increasing(s.push(numb)),
        last_taken(s.push(numb)) == numb,
{
    assert forall|i: int, j: int| 0 <= i < j < s.push(numb).len() implies s.push(numb)[i] < s.push(numb)[j] by {
        if j == s.len() && i < s.len() - 1 {
            assert(s[i] < s[s.len() - 1]);
        }
    }
}

/// Locking the parts `ns` in turn, from a queue holding nothing and without
/// releasing any: before the `i`-th lock the queue holds the parts locked so
/// far, the last of them being the one locked just before. So when `ns`
/// increases and holds no zero, each lock is allowed when its turn comes
/// and none re-enters; and a lock whose part is not above the one locked
/// before it is refused, or re-enters when it is the same part.
pub proof fn lemma_lock_sequence(ns: Seq<u8>)
    ensures
        forall|i: int| 0 < i <= ns.len() ==> last_taken(#[trigger] ns.take(i)) == ns[i - 1],
        increasing(ns) && (forall|i: int| 0 <= i < ns.len() ==> ns[i] > 0) ==> forall|i: int|
            0 <= i < ns.len() ==> ns[i] > last_taken(#[trigger] ns.take(i)),
        forall|i: int|
            0 < i < ns.len() && ns[i] <= ns[i - 1] ==> ns[i] <= last_taken(#[trigger] ns.take(i)),
{
    assert forall|i: int| 0 < i <= ns.len() implies last_taken(#[trigger] ns.take(i)) == ns[i - 1] by {
        assert(ns.take(i).last() == ns[i - 1]);
    }
    if increasing(ns) && (forall|i: int| 0 <= i < ns.len() ==> ns[i] > 0) {
        assert forall|i: int| 0 <= i < ns.len() implies ns[i] > last_taken(#[trigger] ns.take(i)) by {
            if i > 0 {
                assert(ns.take(i).last() == ns[i - 1]);
                assert(ns[i - 1] < ns[i]);
            }
        }
    }
    assert forall|i: int| 0 < i < ns.len() && ns[i] <= ns[i - 1] implies ns[i] <= last_taken(
        #[trigger] ns.take(i),
    ) by {
        assert(ns.take(i).last() == ns[i - 1]);
    }
}

impl LockQueue {
    /// The queue's invariant: the numbers held increase, and none is zero.
    pub closed spec fn wf(&self) -> bool {
        increasing(self.taken@) && forall|i: int| 0 <= i < self.taken@.len() ==> self.taken@[i] > 0
    }

    /// A queue holding nothing.
    pub fn new() -> (r: Self)
        ensures
            r.wf(),
            r@ == Seq::<u8>::empty(),
    {
        LockQueue { taken: Vec::new() }
    }

    /// The last number taken, or zero when nothing is held.
    pub fn last(&self) -> (r: u8)
        ensures
            r == last_taken(self@),
    {
        if self.taken.len() == 0 {
            0
        } else {
            self.taken[self.taken.len() - 1]
        }
    }

    /// Whether the part numbered `numb` may be locked now: its number is
    /// above the last one taken. Asking again for the last number taken
    /// (re-entering) is a programming error, which the server panics on.
    pub fn can_get(&self, numb: u8) -> (r: bool)
        requires
            numb != last_taken(self@),
        ensures
            r == (numb > last_taken(self@)),
    {
        let last = if self.taken.len() == 0 {
            0
        } else {
            self.taken[self.taken.len() - 1]
        };
        numb > last
    }

    /// Records that the part numbered `numb` is locked.
    pub fn acquire(&mut self, numb: u8)
        requires
            old(self).wf(),
            numb > last_taken(old(self)@),
        ensures
            final(self).wf(),
            final(self)@ == old(self)@.push(numb),
    {
        self.taken.push(numb);
        proof {
            assert forall|i: int, j: int| 0 <= i < j < self.taken@.len() implies self.taken@[i] < self.taken@[j] by {
                if j == self.taken@.len() - 1 && i < j {
                    let s = old(self).taken@;
                    if i < s.len() - 1 {
                        assert(s[i] < s[s.len() - 1]);
                    }
                }
            }
        }
    }

    /// Records that the part numbered `numb` is unlocked: it leaves the
    /// queue when it is the last one taken.
    pub fn release(&mut self, numb: u8)
        requires
            old(self).wf(),
        ensures
            final(self).wf(),
            final(self)@ == spec_release(old(self)@, numb),
    {
        if self.taken.len() > 0 && self.taken[self.taken.len() - 1] == numb {
            self.taken.pop();
        }
    }
}

} // verus!
