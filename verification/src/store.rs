//! The key-value store under the ledger: a mapping from account identifiers
//! to 256-bit values in which a key never written reads as zero.

use crate::address::Address;
use crate::uint::{lemma_view_bounds, max_value, Uint256};
use vstd::prelude::*;

verus! {

/// The value that a list of `(key, value)` pairs gives to `k`: that of the
/// last pair with this key, zero where there is none.
pub open spec fn lookup(s: Seq<(Seq<u8>, nat)>, k: Seq<u8>) -> nat
    decreases s.len(),
{
    if s.len() == 0 {
        0
    } else if s.last().0 == k {
        s.last().1
    } else {
        lookup(s.drop_last(), k)
    }
}

/// The sum of the values of a list of `(key, value)` pairs.
pub open spec fn sum_values(s: Seq<(Seq<u8>, nat)>) -> nat
    decreases s.len(),
{
    if s.len() == 0 {
        0
    } else {
        sum_values(s.drop_last()) + s.last().1
    }
}

/// No key stands in two pairs.
pub open spec fn distinct_keys(s: Seq<(Seq<u8>, nat)>) -> bool {
    forall|i: int, j: int| 0 <= i < j < s.len() ==> (#[trigger] s[i]).0 != (#[trigger] s[j]).0
}

/// A key that stands in no pair reads as zero.
pub proof fn lemma_lookup_absent(s: Seq<(Seq<u8>, nat)>, k: Seq<u8>)
    requires
        forall|i: int| 0 <= i < s.len() ==> (#[trigger] s[i]).0 != k,
    ensures
        lookup(s, k) == 0,
    decreases s.len(),
{
    if s.len() > 0 {
        assert(s.last() == s[s.len() - 1]);
        lemma_lookup_absent(s.drop_last(), k);
    }
}

/// With distinct keys, the key of the pair at `i` reads as that pair's value.
pub proof fn lemma_lookup_present(s: Seq<(Seq<u8>, nat)>, i: int)
    requires
        distinct_keys(s),
        0 <= i < s.len(),
    ensures
        lookup(s, s[i].0) == s[i].1,
    decreases s.len(),
{
    let n = s.len() - 1;
    if i < n {
        assert(s[i].0 != s[n].0);
        assert(s.drop_last()[i] == s[i]);
        lemma_lookup_present(s.drop_last(), i);
    }
}

/// Replacing the value of the pair at `i` changes what its key reads as, no
/// other key, and moves the sum by the difference.
pub proof fn lemma_replace(s: Seq<(Seq<u8>, nat)>, i: int, v: nat)
    requires
        distinct_keys(s),
        0 <= i < s.len(),
    ensures
        distinct_keys(s.update(i, (s[i].0, v))),
        forall|k: Seq<u8>|
            #[trigger] lookup(s.update(i, (s[i].0, v)), k) == if k == s[i].0 {
                v
            } else {
                lookup(s, k)
            },
        sum_values(s.update(i, (s[i].0, v))) + s[i].1 == sum_values(s) + v,
    decreases s.len(),
{
    let t = s.update(i, (s[i].0, v));
    let n = s.len() - 1;
    assert forall|a: int, b: int| 0 <= a < b < t.len() implies (#[trigger] t[a]).0 != (
    #[trigger] t[b]).0 by {
        assert(t[a].0 == s[a].0);
        assert(t[b].0 == s[b].0);
    }
    lemma_lookup_present(t, i);
    assert(t[i].0 == s[i].0);
    if i < n {
        assert(s[i].0 != s[n].0);
        assert(s.drop_last()[i] == s[i]);
        lemma_replace(s.drop_last(), i, v);
        let u = s.drop_last().update(i, (s[i].0, v));
        assert(t.drop_last() =~= u);
        assert(t.last() == s.last());
        assert forall|k: Seq<u8>| k != s[i].0 implies #[trigger] lookup(t, k) == lookup(s, k) by {
            if s.last().0 != k {
                assert(lookup(u, k) == lookup(s.drop_last(), k));
            }
        }
    } else {
        assert(t.drop_last() =~= s.drop_last());
        assert forall|k: Seq<u8>| k != s[i].0 implies #[trigger] lookup(t, k) == lookup(s, k) by {
            assert(t.last().0 == s[i].0);
        }
    }
}

/// Where no value is above `bound`, no key reads as more than `bound`.
pub proof fn lemma_lookup_bounded(s: Seq<(Seq<u8>, nat)>, k: Seq<u8>, bound: nat)
    requires
        forall|i: int| 0 <= i < s.len() ==> (#[trigger] s[i]).1 <= bound,
    ensures
        lookup(s, k) <= bound,
    decreases s.len(),
{
    if s.len() > 0 {
        assert(s.last() == s[s.len() - 1]);
        assert forall|i: int| 0 <= i < s.drop_last().len() implies (#[trigger] s.drop_last()[i]).1
            <= bound by {
            assert(s.drop_last()[i] == s[i]);
        }
        lemma_lookup_bounded(s.drop_last(), k, bound);
    }
}

/// The in-memory key-value store. A key that was never written reads as zero,
/// and writing never fails.
pub struct KeyValueStore {
    keys: Vec<Address>,
    values: Vec<Uint256>,
}

impl View for KeyValueStore {
    type V = Seq<(Seq<u8>, nat)>;

    /// The pairs written so far, one for each key, in the order in which the
    /// keys were first written.
    closed spec fn view(&self) -> Seq<(Seq<u8>, nat)> {
        Seq::new(self.keys@.len(), |i: int| (self.keys@[i]@, self.values@[i]@))
    }
}

impl KeyValueStore {
    /// The store's invariant: one value for each key, and no key twice.
    pub closed spec fn wf(&self) -> bool {
        &&& self.keys@.len() == self.values@.len()
        &&& distinct_keys(self@)
    }

    /// What the key `k` reads as.
    pub open spec fn value_at(&self, k: Seq<u8>) -> nat {
        lookup(self@, k)
    }

    /// The sum of all values in the store.
    pub open spec fn total(&self) -> nat {
        sum_values(self@)
    }

    /// Every key reads as a value of 256 bits.
    pub proof fn lemma_value_bound(&self, k: Seq<u8>)
        ensures
            self.value_at(k) <= max_value(),
    {
        assert forall|i: int| 0 <= i < self@.len() implies (#[trigger] self@[i]).1
            <= max_value() by {
            lemma_view_bounds(self.values@[i]);
        }
        lemma_lookup_bounded(self@, k, max_value());
    }

    /// An empty store: every key reads as zero.
    pub fn new() -> (r: KeyValueStore)
        ensures
            r.wf(),
            r@ == Seq::<(Seq<u8>, nat)>::empty(),
    {
        let r = KeyValueStore { keys: Vec::new(), values: Vec::new() };
        assert(r@ =~= Seq::<(Seq<u8>, nat)>::empty());
        r
    }

    /// The position of `key` among the keys written so far.
    fn find(&self, key: &Address) -> (r: Option<usize>)
        requires
            self.wf(),
        ensures
            match r {
                Some(i) => i < self@.len() && self@[i as int].0 == key@,
                None => forall|i: int| 0 <= i < self@.len() ==> (#[trigger] self@[i]).0 != key@,
            },
    {
        let mut i: usize = 0;
        while i < self.keys.len()
            invariant
                self.wf(),
                i <= self.keys@.len(),
                forall|j: int| 0 <= j < i ==> (#[trigger] self@[j]).0 != key@,
            decreases self.keys@.len() - i,
        {
            if self.keys[i].same(key) {
                return Some(i);
            }
            i += 1;
        }
        None
    }

    /// Reads a key: the value last written to it, zero if there was none.
    pub fn get(&self, key: &Address) -> (r: Uint256)
        requires
            self.wf(),
        ensures
            r@ == self.value_at(key@),
    {
        match self.find(key) {
            Some(i) => {
                proof {
                    lemma_lookup_present(self@, i as int);
                }
                self.values[i]
            },
            None => {
                proof {
                    lemma_lookup_absent(self@, key@);
                }
                Uint256::zero()
            },
        }
    }

    /// Writes a key, whatever it held. No other key changes, and the sum of
    /// all values moves by the difference.
    pub fn set(&mut self, key: Address, value: Uint256)
        requires
            old(self).wf(),
        ensures
            final(self).wf(),
            forall|k: Seq<u8>|
                #[trigger] final(self).value_at(k) == if k == key@ {
                    value@
                } else {
                    old(self).value_at(k)
                },
            final(self).total() + old(self).value_at(key@) == old(self).total() + value@,
    {
        let ghost before = self@;
        match self.find(&key) {
            Some(i) => {
                proof {
                    lemma_lookup_present(before, i as int);
                    lemma_replace(before, i as int, value@);
                }
                self.values.set(i, value);
                assert(self@ =~= before.update(i as int, (before[i as int].0, value@)));
            },
            None => {
                proof {
                    lemma_lookup_absent(before, key@);
                }
                self.keys.push(key);
                self.values.push(value);
                assert(self@ =~= before.push((key@, value@)));
                assert(self@.drop_last() =~= before);
            },
        }
    }
}

} // verus!
