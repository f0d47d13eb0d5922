//! The configuration of a board's pins: a sparse map from BCM pin number to pin function.

use vstd::prelude::*;
use crate::pins::{BCMPinNumber, PinFunction};

verus! {

/// Keys strictly increasing: at most one entry per pin, in a canonical order.
pub open spec fn sorted_keys(s: Seq<(BCMPinNumber, PinFunction)>) -> bool {
    forall|i: int, j: int| 0 <= i < j < s.len() ==> s[i].0 < s[j].0
}

/// Some entry of `s` is for pin `k`.
pub open spec fn has_key(s: Seq<(BCMPinNumber, PinFunction)>, k: BCMPinNumber) -> bool {
    exists|i: int| 0 <= i < s.len() && s[i].0 == k
}

/// The map that a list of entries stands for.
pub open spec fn map_of(s: Seq<(BCMPinNumber, PinFunction)>) -> Map<BCMPinNumber, PinFunction> {
    Map::new(
        |k: BCMPinNumber| has_key(s, k),
        |k: BCMPinNumber| s[choose|i: int| 0 <= i < s.len() && s[i].0 == k].1,
    )
}

pub proof fn lemma_map_of_index(s: Seq<(BCMPinNumber, PinFunction)>, i: int)
    requires
        sorted_keys(s),
        0 <= i < s.len(),
    ensures
        map_of(s).contains_key(s[i].0),
        map_of(s)[s[i].0] == s[i].1,
{
    let k = s[i].0;
    assert(has_key(s, k));
    let j = choose|j: int| 0 <= j < s.len() && s[j].0 == k;
    if j < i {
        assert(s[j].0 < s[i].0);
    } else if i < j {
        assert(s[i].0 < s[j].0);
    }
}

/// The two maps agree on key `k`.
pub open spec fn same_entry(
    a: Map<BCMPinNumber, PinFunction>,
    b: Map<BCMPinNumber, PinFunction>,
    k: BCMPinNumber,
) -> bool {
    &&& a.contains_key(k) == b.contains_key(k)
    &&& a.contains_key(k) ==> a[k] == b[k]
}

pub proof fn lemma_same_entries(a: Map<BCMPinNumber, PinFunction>, b: Map<BCMPinNumber, PinFunction>)
    requires
        forall|k: BCMPinNumber| #[trigger] same_entry(a, b, k),
    ensures
        a == b,
{
    assert forall|k: BCMPinNumber| a.contains_key(k) implies a[k] == b[k] by {
        assert(same_entry(a, b, k));
    }
    assert forall|k: BCMPinNumber| #[trigger] a.dom().contains(k) == b.dom().contains(k) by {
        assert(same_entry(a, b, k));
    }
    assert(a =~= b);
}

/// The last entry of a well-formed list is added last.
pub proof fn lemma_map_of_push(s: Seq<(BCMPinNumber, PinFunction)>)
    requires
        sorted_keys(s),
        s.len() > 0,
    ensures
        sorted_keys(s.drop_last()),
        map_of(s) == map_of(s.drop_last()).insert(s.last().0, s.last().1),
{
    let t = s.drop_last();
    let n = s.len() - 1;
    assert forall|k: BCMPinNumber|
        #[trigger] same_entry(map_of(s), map_of(t).insert(s.last().0, s.last().1), k) by {
        if k == s.last().0 {
            lemma_map_of_index(s, n);
        } else if has_key(s, k) {
            let i = choose|i: int| 0 <= i < s.len() && s[i].0 == k;
            lemma_map_of_index(s, i);
            assert(t[i] == s[i]);
            lemma_map_of_index(t, i);
        } else if has_key(t, k) {
            let i = choose|i: int| 0 <= i < t.len() && t[i].0 == k;
            assert(s[i].0 == k);
        }
    }
    lemma_same_entries(map_of(s), map_of(t).insert(s.last().0, s.last().1));
}

/// The configuration of the pins of a board. Only configured pins have an entry, kept in
/// increasing order of pin number, so each pin has at most one.
#[derive(Clone, Debug)]
pub struct GPIOConfig {
    pub configured_pins: Vec<(BCMPinNumber, PinFunction)>,
}

/// The configuration exchanged by the protocol.
pub type HardwareConfig = GPIOConfig;

impl View for GPIOConfig {
    type V = Map<BCMPinNumber, PinFunction>;

    open spec fn view(&self) -> Map<BCMPinNumber, PinFunction> {
        map_of(self.configured_pins@)
    }
}

impl Default for GPIOConfig {
    /// A configuration with no pin configured.
    fn default() -> (r: GPIOConfig)
        ensures
            r.wf(),
            r.entries().len() == 0,
    {
        GPIOConfig { configured_pins: Vec::new() }
    }
}

impl GPIOConfig {
    /// The entries, in increasing order of pin number.
    pub open spec fn entries(&self) -> Seq<(BCMPinNumber, PinFunction)> {
        self.configured_pins@
    }

    pub open spec fn wf(&self) -> bool {
        sorted_keys(self.entries())
    }

    /// A configuration with no pin configured.
    pub fn new() -> (r: GPIOConfig)
        ensures
            r.wf(),
            r.entries().len() == 0,
            r@ == Map::<BCMPinNumber, PinFunction>::empty(),
    {
        let r = GPIOConfig { configured_pins: Vec::new() };
        assert(r@ =~= Map::<BCMPinNumber, PinFunction>::empty());
        r
    }

    /// The number of configured pins.
    pub fn len(&self) -> (n: usize)
        requires
            self.wf(),
        ensures
            n == self@.len(),
            n == self.entries().len(),
    {
        proof {
            self.lemma_dom_len();
        }
        self.configured_pins.len()
    }

    /// Is no pin configured?
    pub fn is_empty(&self) -> (b: bool)
        requires
            self.wf(),
        ensures
            b == (self@ == Map::<BCMPinNumber, PinFunction>::empty()),
    {
        proof {
            self.lemma_dom_len();
            if self@ == Map::<BCMPinNumber, PinFunction>::empty() {
                assert(self@.dom() =~= Set::<BCMPinNumber>::empty());
            }
            if self.entries().len() == 0 {
                assert(self@ =~= Map::<BCMPinNumber, PinFunction>::empty());
            }
        }
        self.configured_pins.len() == 0
    }

    proof fn lemma_dom_len(&self)
        requires
            self.wf(),
        ensures
            self@.dom().len() == self.entries().len(),
            self@.dom().finite(),
    {
        let s = self.entries();
        let keys = Seq::new(s.len(), |i: int| s[i].0);
        assert(keys.no_duplicates()) by {
            assert forall|i: int, j: int| 0 <= i < keys.len() && 0 <= j < keys.len() && i != j
                implies keys[i] != keys[j] by {
                if i < j {
                    assert(s[i].0 < s[j].0);
                } else {
                    assert(s[j].0 < s[i].0);
                }
            }
        }
        assert(keys.to_set() =~= self@.dom()) by {
            assert forall|k: BCMPinNumber| keys.to_set().contains(k) <==> self@.dom().contains(k) by {
                if self@.dom().contains(k) {
                    let i = choose|i: int| 0 <= i < s.len() && s[i].0 == k;
                    assert(keys[i] == k);
                }
            }
        }
        keys.unique_seq_to_set();
    }

    /// The position of the first entry whose pin number is not below `bcm`.
    fn position(&self, bcm: BCMPinNumber) -> (p: usize)
        requires
            self.wf(),
        ensures
            p <= self.entries().len(),
            forall|i: int| 0 <= i < p ==> self.entries()[i].0 < bcm,
            p < self.entries().len() ==> self.entries()[p as int].0 >= bcm,
    {
        let mut p: usize = 0;
        while p < self.configured_pins.len() && self.configured_pins[p].0 < bcm
            invariant
                self.wf(),
                p <= self.entries().len(),
                forall|i: int| 0 <= i < p ==> self.entries()[i].0 < bcm,
            decreases self.entries().len() - p,
        {
            p = p + 1;
        }
        p
    }

    /// The function configured for pin `bcm`, if any.
    pub fn get(&self, bcm: BCMPinNumber) -> (r: Option<PinFunction>)
        requires
            self.wf(),
        ensures
            r == (if self@.contains_key(bcm) { Some(self@[bcm]) } else { None::<PinFunction> }),
    {
        let p = self.position(bcm);
        if p < self.configured_pins.len() && self.configured_pins[p].0 == bcm {
            proof {
                lemma_map_of_index(self.entries(), p as int);
            }
            Some(self.configured_pins[p].1)
        } else {
            proof {
                let s = self.entries();
                assert forall|i: int| 0 <= i < s.len() implies s[i].0 != bcm by {
                    if i > p {
                        assert(s[p as int].0 < s[i].0);
                    }
                }
            }
            None
        }
    }

    /// Configure pin `bcm` with `function`, replacing what it had.
    pub fn insert(&mut self, bcm: BCMPinNumber, function: PinFunction)
        requires
            old(self).wf(),
        ensures
            final(self).wf(),
            final(self)@ == old(self)@.insert(bcm, function),
    {
        let p = self.position(bcm);
        let ghost s = self.entries();
        if p < self.configured_pins.len() && self.configured_pins[p].0 == bcm {
            self.configured_pins.set(p, (bcm, function));
            proof {
                let t = self.entries();
                assert(t == s.update(p as int, (bcm, function)));
                assert(sorted_keys(t));
                assert forall|k: BCMPinNumber|
                    #[trigger] same_entry(self@, old(self)@.insert(bcm, function), k) by {
                    if has_key(t, k) {
                        let i = choose|i: int| 0 <= i < t.len() && t[i].0 == k;
                        lemma_map_of_index(t, i);
                        lemma_map_of_index(s, i);
                    } else if has_key(s, k) {
                        let i = choose|i: int| 0 <= i < s.len() && s[i].0 == k;
                        assert(t[i].0 == k);
                    }
                }
                lemma_same_entries(self@, old(self)@.insert(bcm, function));
            }
        } else {
            self.configured_pins.insert(p, (bcm, function));
            proof {
                let t = self.entries();
                assert(t == s.insert(p as int, (bcm, function)));
                assert forall|i: int, j: int| 0 <= i < j < t.len() implies t[i].0 < t[j].0 by {
                    if j < p {
                    } else if j == p {
                    } else if i < p {
                        assert(s[j - 1].0 >= s[p as int].0);
                    } else if i == p {
                        assert(s[j - 1].0 >= s[p as int].0);
                    } else {
                        assert(s[i - 1].0 < s[j - 1].0);
                    }
                }
                assert(sorted_keys(t));
                assert forall|k: BCMPinNumber|
                    #[trigger] same_entry(self@, old(self)@.insert(bcm, function), k) by {
                    if k == bcm {
                        lemma_map_of_index(t, p as int);
                    } else if has_key(s, k) {
                        let i = choose|i: int| 0 <= i < s.len() && s[i].0 == k;
                        lemma_map_of_index(s, i);
                        if i < p {
                            assert(t[i] == s[i]);
                            lemma_map_of_index(t, i);
                        } else {
                            assert(t[i + 1] == s[i]);
                            lemma_map_of_index(t, i + 1);
                        }
                    } else if has_key(t, k) {
                        let i = choose|i: int| 0 <= i < t.len() && t[i].0 == k;
                        if i < p {
                            assert(s[i].0 == k);
                        } else if i > p {
                            assert(s[i - 1].0 == k);
                        }
                    }
                }
                lemma_same_entries(self@, old(self)@.insert(bcm, function));
            }
        }
    }

    /// Remove any configuration of pin `bcm`.
    pub fn remove(&mut self, bcm: BCMPinNumber)
        requires
            old(self).wf(),
        ensures
            final(self).wf(),
            final(self)@ == old(self)@.remove(bcm),
    {
        let p = self.position(bcm);
        let ghost s = self.entries();
        if p < self.configured_pins.len() && self.configured_pins[p].0 == bcm {
            self.configured_pins.remove(p);
            proof {
                let t = self.entries();
                assert(t == s.remove(p as int));
                assert forall|i: int, j: int| 0 <= i < j < t.len() implies t[i].0 < t[j].0 by {
                    if j < p {
                    } else if i < p {
                        assert(s[i].0 < s[j + 1].0);
                    } else {
                        assert(s[i + 1].0 < s[j + 1].0);
                    }
                }
                assert forall|k: BCMPinNumber|
                    #[trigger] same_entry(self@, old(self)@.remove(bcm), k) by {
                    if has_key(t, k) {
                        let i = choose|i: int| 0 <= i < t.len() && t[i].0 == k;
                        lemma_map_of_index(t, i);
                        if i < p {
                            lemma_map_of_index(s, i);
                            assert(s[i].0 < s[p as int].0);
                        } else {
                            lemma_map_of_index(s, i + 1);
                            assert(s[p as int].0 < s[i + 1].0);
                        }
                    } else if has_key(s, k) && k != bcm {
                        let i = choose|i: int| 0 <= i < s.len() && s[i].0 == k;
                        if i < p {
                            assert(t[i].0 == k);
                        } else {
                            assert(t[i - 1].0 == k);
                        }
                    }
                }
                lemma_same_entries(self@, old(self)@.remove(bcm));
            }
        } else {
            proof {
                assert forall|i: int| 0 <= i < s.len() implies s[i].0 != bcm by {
                    if i > p {
                        assert(s[p as int].0 < s[i].0);
                    }
                }
                assert(self@ =~= old(self)@.remove(bcm));
            }
        }
    }

    /// A copy of this configuration.
    pub fn duplicate(&self) -> (r: GPIOConfig)
        ensures
            r.entries() == self.entries(),
    {
        let mut v: Vec<(BCMPinNumber, PinFunction)> = Vec::new();
        let mut i: usize = 0;
        while i < self.configured_pins.len()
            invariant
                i <= self.entries().len(),
                v@ == self.entries().take(i as int),
            decreases self.entries().len() - i,
        {
            v.push(self.configured_pins[i]);
            assert(v@ =~= self.entries().take(i + 1));
            i = i + 1;
        }
        assert(v@ =~= self.entries());
        GPIOConfig { configured_pins: v }
    }

    /// Do the two configurations configure the same pins with the same functions?
    pub fn is_equal(&self, other: &Self) -> (r: bool)
        requires
            self.wf(),
            other.wf(),
        ensures
            r == (self.entries() == other.entries()),
    {
        if self.configured_pins.len() != other.configured_pins.len() {
            return false;
        }
        let mut i: usize = 0;
        while i < self.configured_pins.len()
            invariant
                self.entries().len() == other.entries().len(),
                i <= self.entries().len(),
                forall|j: int| 0 <= j < i ==> self.entries()[j] == other.entries()[j],
            decreases self.entries().len() - i,
        {
            let a = self.configured_pins[i];
            let b = other.configured_pins[i];
            if a.0 != b.0 || a.1 != b.1 {
                return false;
            }
            i = i + 1;
        }
        assert(self.entries() =~= other.entries());
        true
    }
}

} // verus!
