//! Tracking of the inclusion lists seen on gossip, by slot, committee root and
//! validator, and of the validators that sent two of them (equivocators).

use vstd::prelude::*;
use crate::primitives::{Hash256, Slot, ValidatorIndex};

verus! {

/// What identifies an observation: the slot, the committee root and the
/// validator index.
pub type ObservationKey = (Slot, Hash256, ValidatorIndex);

/// An observation key, with the root taken by its bytes.
pub type KeyView = (Slot, Seq<u8>, ValidatorIndex);

/// The view of an observation key.
pub open spec fn key_view(k: ObservationKey) -> KeyView {
    (k.0, k.1.bytes(), k.2)
}

/// The views of a sequence of observation keys.
pub open spec fn views_of(keys: Seq<ObservationKey>) -> Seq<KeyView> {
    keys.map_values(|k: ObservationKey| key_view(k))
}

/// A set of observation keys, each held once.
#[derive(Debug)]
pub struct KeySet {
    keys: Vec<ObservationKey>,
}

impl KeySet {
    /// The keys, by their views, in the order they are held.
    pub closed spec fn key_seq(&self) -> Seq<KeyView> {
        views_of(self.keys@)
    }

    /// No key is held twice.
    pub closed spec fn wf(&self) -> bool {
        self.key_seq().no_duplicates()
    }

    /// The set of keys held.
    pub closed spec fn view(&self) -> Set<KeyView> {
        self.key_seq().to_set()
    }

    /// An empty set.
    pub fn new() -> (r: KeySet)
        ensures
            r.wf(),
            r.view() == Set::<KeyView>::empty(),
    {
        let r = KeySet { keys: Vec::new() };
        assert(r.key_seq() =~= Seq::<KeyView>::empty());
        r
    }

    fn position(&self, key: &ObservationKey) -> (r: Option<usize>)
        ensures
            match r {
                Some(i) => i < self.keys@.len() && self.key_seq()[i as int] == key_view(*key),
                None => !self.key_seq().contains(key_view(*key)),
            },
    {
        let mut i: usize = 0;
        while i < self.keys.len()
            invariant
                i <= self.keys@.len(),
                forall|j: int| 0 <= j < i ==> self.key_seq()[j] != key_view(*key),
            decreases self.keys.len() - i,
        {
            let k = &self.keys[i];
            if k.0 == key.0 && k.1 == key.1 && k.2 == key.2 {
                assert(self.key_seq()[i as int] == key_view(self.keys@[i as int]));
                return Some(i);
            }
            assert(self.key_seq()[i as int] == key_view(self.keys@[i as int]));
            i = i + 1;
        }
        None
    }

    /// Whether the key is in the set.
    pub fn contains(&self, key: &ObservationKey) -> (r: bool)
        ensures
            r == self.view().contains(key_view(*key)),
    {
        match self.position(key) {
            Some(i) => {
                assert(self.key_seq().contains(key_view(*key)));
                true
            },
            None => false,
        }
    }

    /// Adds the key, if it is not there yet.
    pub fn insert(&mut self, key: ObservationKey)
        requires
            old(self).wf(),
        ensures
            final(self).wf(),
            final(self).view() == old(self).view().insert(key_view(key)),
    {
        if self.position(&key).is_none() {
            let ghost before = self.key_seq();
            self.keys.push(key);
            assert(self.key_seq() =~= before.push(key_view(key)));
            proof {
                before.lemma_push_to_set_commute(key_view(key));
                assert forall|a: int, b: int|
                    0 <= a < b < self.key_seq().len() implies self.key_seq()[a] != self.key_seq()[b]
                by {
                    if b == before.len() {
                        assert(before.contains(before[a]));
                    }
                }
            }
        } else {
            assert(self.view().contains(key_view(key)));
            assert(self.view() =~= self.view().insert(key_view(key)));
        }
    }

    /// Removes the key, if it is there.
    pub fn remove(&mut self, key: &ObservationKey)
        requires
            old(self).wf(),
        ensures
            final(self).wf(),
            final(self).view() == old(self).view().remove(key_view(*key)),
    {
        match self.position(key) {
            Some(i) => {
                let ghost before = self.key_seq();
                self.keys.remove(i);
                proof {
                    assert(self.key_seq() =~= before.remove(i as int));
                    assert forall|x: KeyView| #[trigger] self.view().contains(x)
                        <==> old(self).view().remove(key_view(*key)).contains(x)
                    by {
                        if self.view().contains(x) {
                            let j = choose|j: int| 0 <= j < self.key_seq().len() && self.key_seq()[j] == x;
                            if j < i { assert(before[j] == x); } else { assert(before[j + 1] == x); }
                        }
                        if old(self).view().remove(key_view(*key)).contains(x) {
                            let j = choose|j: int| 0 <= j < before.len() && before[j] == x;
                            assert(j != i);
                            if j < i {
                                assert(self.key_seq()[j] == x);
                            } else {
                                assert(self.key_seq()[j - 1] == x);
                            }
                        }
                    }
                    assert(self.view() =~= old(self).view().remove(key_view(*key)));
                }
            },
            None => {
                assert(self.view() =~= self.view().remove(key_view(*key)));
            },
        }
    }

    /// Keeps the keys whose slot is at least `min_slot`, drops the others.
    pub fn retain_from_slot(&mut self, min_slot: Slot)
        requires
            old(self).wf(),
        ensures
            final(self).wf(),
            final(self).view() == old(self).view().filter(|k: KeyView| k.0 >= min_slot),
    {
        let ghost before = self.key_seq();
        let mut kept: Vec<ObservationKey> = Vec::new();
        let mut i: usize = 0;
        while i < self.keys.len()
            invariant
                i <= self.keys@.len(),
                before == self.key_seq(),
                before.no_duplicates(),
                views_of(kept@).no_duplicates(),
                forall|x: KeyView| #[trigger] views_of(kept@).contains(x)
                    <==> (x.0 >= min_slot && exists|j: int| 0 <= j < i && before[j] == x),
            decreases self.keys.len() - i,
        {
            let k = self.keys[i];
            let ghost kv = views_of(kept@);
            if k.0 >= min_slot {
                kept.push(k);
                proof {
                    let nv = views_of(kept@);
                    assert(nv =~= kv.push(key_view(k)));
                    assert(before[i as int] == key_view(k));
                    assert(!kv.contains(key_view(k))) by {
                        if kv.contains(key_view(k)) {
                            let j = choose|j: int| 0 <= j < i && before[j] == key_view(k);
                            assert(before[j] == before[i as int]);
                        }
                    }
                    assert forall|a: int, b: int| 0 <= a < b < nv.len() implies nv[a] != nv[b] by {
                        if b == kv.len() {
                            assert(kv.contains(kv[a]));
                        }
                    }
                    assert forall|x: KeyView| #[trigger] nv.contains(x)
                        <==> (x.0 >= min_slot && exists|j: int| 0 <= j < i + 1 && before[j] == x)
                    by {
                        if nv.contains(x) && x != key_view(k) {
                            let j = choose|j: int| 0 <= j < nv.len() && nv[j] == x;
                            assert(kv[j] == x);
                            assert(kv.contains(x));
                        }
                        if x.0 >= min_slot && (exists|j: int| 0 <= j < i + 1 && before[j] == x) {
                            let j = choose|j: int| 0 <= j < i + 1 && before[j] == x;
                            if j == i {
                                assert(nv[kv.len() as int] == x);
                            } else {
                                assert(kv.contains(x));
                                let m = choose|m: int| 0 <= m < kv.len() && kv[m] == x;
                                assert(nv[m] == x);
                            }
                        }
                    }
                }
            } else {
                proof {
                    assert forall|x: KeyView| #[trigger] kv.contains(x)
                        <==> (x.0 >= min_slot && exists|j: int| 0 <= j < i + 1 && before[j] == x)
                    by {
                        if x.0 >= min_slot && (exists|j: int| 0 <= j < i + 1 && before[j] == x) {
                            let j = choose|j: int| 0 <= j < i + 1 && before[j] == x;
                            assert(j != i);
                        }
                    }
                }
            }
            i = i + 1;
        }
        self.keys = kept;
        proof {
            assert forall|x: KeyView| #[trigger] self.view().contains(x)
                <==> old(self).view().filter(|k: KeyView| k.0 >= min_slot).contains(x)
            by {
                if old(self).view().filter(|k: KeyView| k.0 >= min_slot).contains(x) {
                    let j = choose|j: int| 0 <= j < before.len() && before[j] == x;
                }
            }
            assert(self.view() =~= old(self).view().filter(|k: KeyView| k.0 >= min_slot));
        }
    }
}

} // verus!
