//! Restoring the order of submission from results that complete out of order.

use std::collections::HashMap;
use vstd::prelude::*;

verus! {

broadcast use vstd::std_specs::hash::group_hash_axioms;

/// Holds results that arrived before their turn, keyed by sequence number,
/// and releases each one as soon as every earlier one has been released.
pub struct WaitingRoom<T> {
    next_customer: usize,
    waiting_room: HashMap<usize, T>,
    submitted: Ghost<Map<usize, T>>,
    served: Ghost<Seq<T>>,
}

impl<T> WaitingRoom<T> {
    /// Every result handed in so far, by sequence number.
    pub closed spec fn submitted(&self) -> Map<usize, T> {
        self.submitted@
    }

    /// Every result released so far, in the order of release.
    pub closed spec fn served(&self) -> Seq<T> {
        self.served@
    }

    /// The sequence number whose result is released next.
    pub closed spec fn next_customer(&self) -> usize {
        self.next_customer
    }

    /// The results released are those of sequence numbers `0, 1, ...` in
    /// turn, each once, up to the first number not handed in yet.
    pub open spec fn released_in_order(&self) -> bool {
        &&& self.served().len() == self.next_customer()
        &&& forall|j: usize|
            j < self.next_customer() ==> #[trigger] self.submitted().contains_key(j)
                && self.submitted()[j] == self.served()[j as int]
        &&& !self.submitted().contains_key(self.next_customer())
    }

    /// Besides, every other result handed in waits in the room.
    pub closed spec fn wf(&self) -> bool {
        &&& self.released_in_order()
        &&& forall|k: usize|
            #[trigger] self.waiting_room@.contains_key(k) == (self.submitted@.contains_key(k) && k
                >= self.next_customer)
        &&& forall|k: usize|
            #[trigger] self.waiting_room@.contains_key(k) ==> self.waiting_room@[k]
                == self.submitted@[k]
        &&& forall|k: usize| #[trigger] self.submitted@.contains_key(k) ==> k < usize::MAX
    }

    pub fn new() -> (r: Self)
        ensures
            r.wf(),
            r.released_in_order(),
            r.submitted() == Map::<usize, T>::empty(),
            r.served() == Seq::<T>::empty(),
            r.next_customer() == 0,
    {
        WaitingRoom {
            next_customer: 0,
            waiting_room: HashMap::new(),
            submitted: Ghost(Map::empty()),
            served: Ghost(Seq::empty()),
        }
    }

    /// Whether sequence number `i` can still be handed in.
    pub fn accepts(&self, i: usize) -> (r: bool)
        requires
            self.wf(),
        ensures
            r == (!self.submitted().contains_key(i) && i < usize::MAX),
    {
        i < usize::MAX && i >= self.next_customer && !self.waiting_room.contains_key(&i)
    }

    /// Hands in the result of sequence number `i` and returns, in order, the
    /// results that are now due: none while an earlier one is missing, else
    /// this one and every waiting one that follows it without a gap.
    pub fn serve_customer(&mut self, i: usize, customer: T) -> (r: Vec<T>)
        requires
            old(self).wf(),
            !old(self).submitted().contains_key(i),
            i < usize::MAX,
        ensures
            final(self).wf(),
            final(self).released_in_order(),
            final(self).submitted() == old(self).submitted().insert(i, customer),
            final(self).served() == old(self).served() + r@,
            (r@.len() > 0) == (i == old(self).next_customer()),
    {
        let ghost old_served = self.served@;
        let ghost old_submitted = self.submitted@;
        self.submitted = Ghost(self.submitted@.insert(i, customer));
        let mut out: Vec<T> = Vec::new();
        if i == self.next_customer {
            out.push(customer);
            self.served = Ghost(self.served@.push(customer));
            self.next_customer = self.next_customer + 1;
            assert(self.served@ =~= old_served + out@);
            assert forall|j: usize| j < self.next_customer implies #[trigger] self.submitted@.contains_key(j)
                && self.submitted@[j] == self.served@[j as int] by {
                if j < i {
                    assert(old_submitted.contains_key(j));
                }
            }
            loop
                invariant
                    self.served@.len() == self.next_customer,
                    self.served@ == old_served + out@,
                    out@.len() > 0,
                    self.submitted@ == old_submitted.insert(i, customer),
                    forall|j: usize|
                        j < self.next_customer ==> #[trigger] self.submitted@.contains_key(j)
                            && self.submitted@[j] == self.served@[j as int],
                    forall|k: usize|
                        #[trigger] self.waiting_room@.contains_key(k) == (self.submitted@.contains_key(
                            k,
                        ) && k >= self.next_customer),
                    forall|k: usize|
                        #[trigger] self.waiting_room@.contains_key(k) ==> self.waiting_room@[k]
                            == self.submitted@[k],
                    forall|k: usize| #[trigger] self.submitted@.contains_key(k) ==> k < usize::MAX,
                ensures
                    !self.submitted@.contains_key(self.next_customer),
                decreases self.waiting_room@.dom().len(),
            {
                let key = self.next_customer;
                match self.waiting_room.remove(&key) {
                    Some(c) => {
                        assert(self.submitted@.contains_key(key));
                        out.push(c);
                        self.served = Ghost(self.served@.push(c));
                        self.next_customer = key + 1;
                        assert(self.served@ =~= old_served + out@);
                    },
                    None => {
                        assert(!self.submitted@.contains_key(key));
                        break;
                    },
                }
            }
        } else {
            assert(i > self.next_customer) by {
                if i < self.next_customer {
                    assert(old_submitted.contains_key(i));
                }
            }
            self.waiting_room.insert(i, customer);
            assert forall|j: usize| j < self.next_customer implies #[trigger] self.submitted@.contains_key(j)
                && self.submitted@[j] == self.served@[j as int] by {
                assert(old_submitted.contains_key(j));
            }
            assert(self.served@ =~= old_served + out@);
        }
        out
    }
}

/// Once the results of sequence numbers `0` to `n - 1` have all been handed
/// in, in whatever order, all of them have been released, each once, in the
/// order of their sequence numbers.
pub proof fn lemma_submission_order<T>(room: &WaitingRoom<T>, n: usize)
    requires
        room.wf(),
        forall|j: usize| #[trigger] room.submitted().contains_key(j) == (j < n),
    ensures
        room.served().len() == n,
        forall|j: usize| j < n ==> room.served()[j as int] == room.submitted()[j],
{
    assert(room.next_customer() >= n) by {
        if room.next_customer() < n {
            assert(room.submitted().contains_key(room.next_customer()));
        }
    }
    if room.next_customer() > n {
        assert(room.submitted().contains_key(n));
    }
    assert forall|j: usize| j < n implies room.served()[j as int] == room.submitted()[j] by {
        assert(room.submitted().contains_key(j));
    }
}

} // verus!
