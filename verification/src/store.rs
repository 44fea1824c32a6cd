//! Identity-keyed arena.
//!
//! Entities live in slots addressed by a `u64` key that is handed out at
//! insertion and never reused, so a key stays valid across insertion and
//! removal of other entities and a removed key is reported as absent forever
//! after. The arena is viewed as a `Map<int, T>` from live keys to values.

use vstd::prelude::*;

verus! {

/// An arena of `T` with stable `u64` keys.
pub struct Store<T> {
    slots: Vec<Option<T>>,
}

/// Mutable access to the contents of an option known to be occupied.
fn opt_unwrap_mut<T>(o: &mut Option<T>) -> (r: &mut T)
    requires
        (*old(o)) is Some,
    ensures
        *r == old(o)->Some_0,
        *final(o) == Some(*final(r)),
{
    match o {
        Some(v) => v,
        None => vstd::pervasive::unreached(),
    }
}

impl<T> View for Store<T> {
    type V = Map<int, T>;

    closed spec fn view(&self) -> Map<int, T> {
        Map::new(
            |k: int| 0 <= k < self.slots@.len() && self.slots@[k] is Some,
            |k: int| self.slots@[k]->Some_0,
        )
    }
}

impl<T> Store<T> {
    /// The key the next insertion will take; every live key is below it.
    pub closed spec fn next_key(&self) -> int {
        self.slots@.len() as int
    }

    /// Live keys all lie below the next key.
    pub proof fn lemma_keys_below_next(&self)
        ensures
            forall|k: int| self@.contains_key(k) ==> 0 <= k < self.next_key(),
    {
    }

    /// The key the next insertion will take.
    pub fn peek_next_key(&self) -> (k: u64)
        requires
            self.next_key() <= u64::MAX,
        ensures
            k as int == self.next_key(),
    {
        self.slots.len() as u64
    }

    /// An empty arena.
    pub fn new() -> (r: Self)
        ensures
            r@ == Map::<int, T>::empty(),
            r.next_key() == 0,
    {
        let r = Store { slots: Vec::new() };
        proof {
            assert(r@ =~= Map::<int, T>::empty());
        }
        r
    }

    /// Whether `k` is a live key.
    pub fn contains_key(&self, k: u64) -> (r: bool)
        ensures
            r == self@.contains_key(k as int),
    {
        if k < self.slots.len() as u64 {
            match &self.slots[k as usize] {
                Some(_) => true,
                None => false,
            }
        } else {
            false
        }
    }

    /// Inserts `v` under a fresh key and returns the key.
    pub fn insert(&mut self, v: T) -> (k: u64)
        requires
            old(self).next_key() < u64::MAX,
        ensures
            k as int == old(self).next_key(),
            !old(self)@.contains_key(k as int),
            final(self)@ == old(self)@.insert(k as int, v),
            final(self).next_key() == old(self).next_key() + 1,
    {
        let k = self.slots.len() as u64;
        self.slots.push(Some(v));
        proof {
            assert(self@ =~= old(self)@.insert(k as int, v));
        }
        k
    }

    /// The value under `k`, or `None` for a stale or unknown key.
    pub fn get(&self, k: u64) -> (r: Option<&T>)
        ensures
            match r {
                Some(v) => self@.contains_key(k as int) && *v == self@[k as int],
                None => !self@.contains_key(k as int),
            },
    {
        if k < self.slots.len() as u64 {
            match &self.slots[k as usize] {
                Some(v) => Some(v),
                None => None,
            }
        } else {
            None
        }
    }

    /// Mutable access to the value under a live key.
    pub fn get_mut(&mut self, k: u64) -> (r: &mut T)
        requires
            old(self)@.contains_key(k as int),
        ensures
            *r == old(self)@[k as int],
            final(self)@ == old(self)@.insert(k as int, *final(r)),
            final(self).next_key() == old(self).next_key(),
    {
        let n = self.slots.len();
        proof {
            assert(0 <= (k as int) && (k as int) < n as int);
        }
        let o = &mut self.slots[k as usize];
        opt_unwrap_mut(o)
    }

    /// Removes the entity under `k`, invalidating only that key.
    pub fn remove(&mut self, k: u64)
        requires
            old(self)@.contains_key(k as int),
        ensures
            final(self)@ == old(self)@.remove(k as int),
            final(self).next_key() == old(self).next_key(),
    {
        let n = self.slots.len();
        proof {
            assert(0 <= (k as int) && (k as int) < n as int);
        }
        self.slots.set(k as usize, None);
        proof {
            assert(self@ =~= old(self)@.remove(k as int));
        }
    }

    /// The live keys below `n`, in increasing order.
    pub closed spec fn keys_below(&self, n: int) -> Seq<u64>
        decreases n,
    {
        if n <= 0 {
            Seq::empty()
        } else {
            let pre = self.keys_below(n - 1);
            if self@.contains_key(n - 1) {
                pre.push((n - 1) as u64)
            } else {
                pre
            }
        }
    }

    /// Every live key, in increasing order.
    pub closed spec fn spec_keys(&self) -> Seq<u64> {
        self.keys_below(self.next_key())
    }

    /// Every live key, in increasing order.
    pub fn keys(&self) -> (r: Vec<u64>)
        ensures
            r@ == self.spec_keys(),
            forall|i: int|
                0 <= i < r@.len() ==> self@.contains_key(#[trigger] r@[i] as int),
            forall|k: int|
                #[trigger] self@.contains_key(k) ==> exists|i: int|
                    0 <= i < r@.len() && r@[i] as int == k,
            forall|i: int, j: int| 0 <= i < j < r@.len() ==> r@[i] < r@[j],
    {
        let mut r: Vec<u64> = Vec::new();
        let mut k: usize = 0;
        while k < self.slots.len()
            invariant
                k <= self.slots@.len(),
                self.slots@.len() == self.next_key(),
                r@ == self.keys_below(k as int),
                forall|i: int|
                    0 <= i < r@.len() ==> self@.contains_key(#[trigger] r@[i] as int),
                forall|j: int|
                    #[trigger] self@.contains_key(j) && j < k ==> exists|i: int|
                        0 <= i < r@.len() && r@[i] as int == j,
                forall|i: int| 0 <= i < r@.len() ==> r@[i] < k,
                forall|i: int, j: int| 0 <= i < j < r@.len() ==> r@[i] < r@[j],
            decreases self.slots@.len() - k,
        {
            let live = match &self.slots[k] {
                Some(_) => true,
                None => false,
            };
            if live {
                let ghost r0 = r@;
                r.push(k as u64);
                proof {
                    assert(forall|i: int| 0 <= i < r0.len() ==> r@[i] == r0[i]);
                    assert(r@[r0.len() as int] == k as u64);
                }
            }
            k = k + 1;
        }
        proof {
            self.lemma_keys_below_next();
        }
        r
    }
}

} // verus!
