//! Maps keyed by block root, held as lists of pairs in which each root
//! occurs once.

use vstd::prelude::*;
use crate::primitives::{copy_bools, Hash256};

verus! {

/// The map described by a list of pairs, a later pair for a root overriding
/// an earlier one.
pub open spec fn map_of_pairs<V>(pairs: Seq<(Seq<u8>, V)>) -> Map<Seq<u8>, V>
    decreases pairs.len(),
{
    if pairs.len() == 0 {
        Map::empty()
    } else {
        map_of_pairs(pairs.drop_last()).insert(pairs.last().0, pairs.last().1)
    }
}

/// The roots of a list of pairs, in order.
pub open spec fn keys_of<V>(pairs: Seq<(Seq<u8>, V)>) -> Seq<Seq<u8>> {
    pairs.map_values(|p: (Seq<u8>, V)| p.0)
}

/// A list of pairs with its roots taken by their bytes.
pub open spec fn pairs_view<V>(entries: Seq<(Hash256, V)>) -> Seq<(Seq<u8>, V)> {
    entries.map_values(|e: (Hash256, V)| (e.0.bytes(), e.1))
}

/// The roots of a list of pairs are those of its map.
pub proof fn lemma_map_of_pairs_dom<V>(pairs: Seq<(Seq<u8>, V)>)
    ensures
        forall|k: Seq<u8>| #[trigger] map_of_pairs(pairs).dom().contains(k) <==> keys_of(pairs).contains(k),
    decreases pairs.len(),
{
    if pairs.len() > 0 {
        let init = pairs.drop_last();
        lemma_map_of_pairs_dom(init);
        assert(keys_of(pairs) =~= keys_of(init).push(pairs.last().0));
        assert(map_of_pairs(pairs) == map_of_pairs(init).insert(pairs.last().0, pairs.last().1));
        assert forall|k: Seq<u8>| #[trigger] map_of_pairs(pairs).dom().contains(k) <==> keys_of(pairs).contains(k) by {
            if keys_of(pairs).contains(k) && k != pairs.last().0 {
                let i = choose|i: int| 0 <= i < keys_of(pairs).len() && keys_of(pairs)[i] == k;
                assert(i < keys_of(init).len());
                assert(keys_of(init)[i] == k);
                assert(keys_of(init).contains(k));
            }
            if keys_of(init).contains(k) {
                let i = choose|i: int| 0 <= i < keys_of(init).len() && keys_of(init)[i] == k;
                assert(keys_of(pairs)[i] == k);
            }
            if k == pairs.last().0 {
                assert(keys_of(pairs)[pairs.len() - 1] == k);
            }
        }
    }
}

/// In a list whose roots are distinct, each pair gives the map's value at
/// its root.
pub proof fn lemma_map_of_pairs_value<V>(pairs: Seq<(Seq<u8>, V)>, i: int)
    requires
        keys_of(pairs).no_duplicates(),
        0 <= i < pairs.len(),
    ensures
        map_of_pairs(pairs).dom().contains(pairs[i].0),
        map_of_pairs(pairs)[pairs[i].0] == pairs[i].1,
    decreases pairs.len(),
{
    let init = pairs.drop_last();
    if i < pairs.len() - 1 {
        assert(keys_of(init).no_duplicates()) by {
            assert forall|a: int, b: int| 0 <= a < b < keys_of(init).len() implies keys_of(init)[a]
                != keys_of(init)[b] by {
                assert(keys_of(pairs)[a] != keys_of(pairs)[b]);
            }
        }
        assert(init[i] == pairs[i]);
        lemma_map_of_pairs_value(init, i);
        assert(keys_of(pairs)[i] != keys_of(pairs)[pairs.len() - 1]);
    }
}

/// Replacing the value of a pair in a list with distinct roots replaces the
/// map's value at that root.
pub proof fn lemma_map_of_pairs_update<V>(pairs: Seq<(Seq<u8>, V)>, i: int, v: V)
    requires
        keys_of(pairs).no_duplicates(),
        0 <= i < pairs.len(),
    ensures
        map_of_pairs(pairs.update(i, (pairs[i].0, v))) == map_of_pairs(pairs).insert(pairs[i].0, v),
    decreases pairs.len(),
{
    let k = pairs[i].0;
    let after = pairs.update(i, (k, v));
    let init = pairs.drop_last();
    if i == pairs.len() - 1 {
        assert(after.drop_last() =~= init);
        lemma_map_of_pairs_dom(init);
        assert(!keys_of(init).contains(k)) by {
            if keys_of(init).contains(k) {
                let j = choose|j: int| 0 <= j < keys_of(init).len() && keys_of(init)[j] == k;
                assert(keys_of(pairs)[j] == keys_of(pairs)[i]);
            }
        }
        assert(map_of_pairs(after) =~= map_of_pairs(pairs).insert(k, v));
    } else {
        assert(keys_of(init).no_duplicates()) by {
            assert forall|a: int, b: int| 0 <= a < b < keys_of(init).len() implies keys_of(init)[a]
                != keys_of(init)[b] by {
                assert(keys_of(pairs)[a] != keys_of(pairs)[b]);
            }
        }
        assert(after.drop_last() =~= init.update(i, (k, v)));
        assert(init[i] == pairs[i]);
        lemma_map_of_pairs_update(init, i, v);
        assert(keys_of(pairs)[i] != keys_of(pairs)[pairs.len() - 1]);
        assert(map_of_pairs(after) =~= map_of_pairs(pairs).insert(k, v));
    }
}

/// A map keyed by block root.
#[derive(Debug)]
pub struct RootMap<V> {
    entries: Vec<(Hash256, V)>,
}

impl<V> RootMap<V> {
    /// The pairs held, roots by their bytes, in insertion order.
    pub closed spec fn pairs(&self) -> Seq<(Seq<u8>, V)> {
        pairs_view(self.entries@)
    }

    /// No root is held twice.
    pub open spec fn wf(&self) -> bool {
        keys_of(self.pairs()).no_duplicates()
    }

    /// The map held.
    pub open spec fn view(&self) -> Map<Seq<u8>, V> {
        map_of_pairs(self.pairs())
    }

    /// An empty map.
    pub fn new() -> (r: Self)
        ensures
            r.wf(),
            r@ == Map::<Seq<u8>, V>::empty(),
    {
        let r = RootMap { entries: Vec::new() };
        assert(r.pairs() =~= Seq::<(Seq<u8>, V)>::empty());
        assert(keys_of(r.pairs()) =~= Seq::<Seq<u8>>::empty());
        r
    }

    /// A map with one root.
    pub fn singleton(root: Hash256, value: V) -> (r: Self)
        ensures
            r.wf(),
            r@ == Map::<Seq<u8>, V>::empty().insert(root.bytes(), value),
    {
        let mut r = RootMap::new();
        r.insert(root, value);
        r
    }

    fn find(&self, root: &Hash256) -> (r: Option<usize>)
        ensures
            match r {
                Some(i) => i < self.entries@.len() && self.pairs()[i as int].0 == root.bytes(),
                None => !keys_of(self.pairs()).contains(root.bytes()),
            },
    {
        let mut i: usize = 0;
        while i < self.entries.len()
            invariant
                i <= self.entries@.len(),
                forall|j: int| 0 <= j < i ==> keys_of(self.pairs())[j] != root.bytes(),
            decreases self.entries.len() - i,
        {
            assert(keys_of(self.pairs())[i as int] == self.entries@[i as int].0.bytes());
            if self.entries[i].0 == *root {
                return Some(i);
            }
            i = i + 1;
        }
        None
    }

    /// Whether the root is in the map.
    pub fn contains_key(&self, root: &Hash256) -> (r: bool)
        requires
            self.wf(),
        ensures
            r == self@.dom().contains(root.bytes()),
    {
        proof {
            lemma_map_of_pairs_dom(self.pairs());
        }
        match self.find(root) {
            Some(i) => {
                assert(keys_of(self.pairs())[i as int] == root.bytes());
                true
            },
            None => false,
        }
    }

    /// The value at the root, if any.
    pub fn get(&self, root: &Hash256) -> (r: Option<&V>)
        requires
            self.wf(),
        ensures
            match r {
                Some(v) => self@.dom().contains(root.bytes()) && *v == self@[root.bytes()],
                None => !self@.dom().contains(root.bytes()),
            },
    {
        proof {
            lemma_map_of_pairs_dom(self.pairs());
        }
        match self.find(root) {
            Some(i) => {
                proof {
                    lemma_map_of_pairs_value(self.pairs(), i as int);
                }
                Some(&self.entries[i].1)
            },
            None => None,
        }
    }

    /// Sets the value at the root.
    pub fn insert(&mut self, root: Hash256, value: V)
        requires
            old(self).wf(),
        ensures
            final(self).wf(),
            final(self)@ == old(self)@.insert(root.bytes(), value),
    {
        match self.find(&root) {
            Some(i) => {
                let ghost before = self.pairs();
                self.entries.set(i, (root, value));
                proof {
                    assert(self.pairs() =~= before.update(i as int, (before[i as int].0, value)));
                    lemma_map_of_pairs_update(before, i as int, value);
                    assert(keys_of(self.pairs()) =~= keys_of(before));
                }
            },
            None => {
                let ghost before = self.pairs();
                self.entries.push((root, value));
                proof {
                    assert(self.pairs() =~= before.push((root.bytes(), value)));
                    assert(self.pairs().drop_last() =~= before);
                    assert(keys_of(self.pairs()) =~= keys_of(before).push(root.bytes()));
                    assert forall|a: int, b: int| 0 <= a < b < keys_of(self.pairs()).len() implies keys_of(
                        self.pairs(),
                    )[a] != keys_of(self.pairs())[b] by {
                        if b == before.len() {
                            assert(keys_of(before)[a] == keys_of(self.pairs())[a]);
                        } else {
                            assert(keys_of(before)[a] == keys_of(self.pairs())[a]);
                            assert(keys_of(before)[b] == keys_of(self.pairs())[b]);
                        }
                    }
                }
            },
        }
    }

    /// The map described by a list of pairs, a later pair for a root
    /// overriding an earlier one.
    pub fn from_pairs(pairs: Vec<(Hash256, V)>) -> (r: Self)
        ensures
            r.wf(),
            r@ == map_of_pairs(pairs_view(pairs@)),
    {
        let ghost all = pairs_view(pairs@);
        let mut r = RootMap::new();
        let mut rest = pairs;
        let ghost n = all.len();
        proof {
            assert(all.take(0) =~= Seq::<(Seq<u8>, V)>::empty());
            assert(all.skip(0) =~= all);
        }
        while rest.len() > 0
            invariant
                r.wf(),
                n == all.len(),
                rest@.len() <= n,
                r@ == map_of_pairs(all.take(n - rest@.len())),
                pairs_view(rest@) == all.skip(n - rest@.len()),
            decreases rest.len(),
        {
            let ghost k = n - rest@.len();
            let ghost before = rest@;
            let p = rest.remove(0);
            proof {
                assert(all.take(k + 1).drop_last() =~= all.take(k));
                assert(pairs_view(before)[0] == all[k]);
                assert(rest@ =~= before.subrange(1, before.len() as int));
                assert forall|j: int| 0 <= j < rest@.len() implies pairs_view(rest@)[j] == all.skip(k + 1)[j] by {
                    assert(rest@[j] == before[j + 1]);
                    assert(pairs_view(before)[j + 1] == all.skip(k)[j + 1]);
                }
                assert(pairs_view(rest@) =~= all.skip(k + 1));
            }
            r.insert(p.0, p.1);
        }
        proof {
            assert(all.take(n as int) =~= all);
        }
        r
    }
}

impl RootMap<bool> {
    /// The pairs held, in insertion order.
    pub fn to_pairs(&self) -> (r: Vec<(Hash256, bool)>)
        ensures
            pairs_view(r@) == self.pairs(),
    {
        let mut out: Vec<(Hash256, bool)> = Vec::new();
        let mut i: usize = 0;
        while i < self.entries.len()
            invariant
                i <= self.entries@.len(),
                out@.len() == i,
                self.pairs().len() == self.entries@.len(),
                pairs_view(out@) == self.pairs().take(i as int),
            decreases self.entries.len() - i,
        {
            let e = self.entries[i];
            let ghost before = out@;
            out.push(e);
            assert(out@ == before.push(e));
            assert(self.pairs()[i as int] == (e.0.bytes(), e.1));
            assert forall|j: int| 0 <= j < i + 1 implies pairs_view(out@)[j] == self.pairs()[j] by {
                if j < i {
                    assert(out@[j] == before[j]);
                    assert(pairs_view(before)[j] == self.pairs().take(i as int)[j]);
                }
            }
            i = i + 1;
            assert(pairs_view(out@) =~= self.pairs().take(i as int));
        }
        assert(self.pairs().take(i as int) =~= self.pairs());
        out
    }
}

impl RootMap<Vec<bool>> {
    /// The pairs held, in insertion order, with their vote lists copied.
    pub fn to_pairs(&self) -> (r: Vec<(Hash256, Vec<bool>)>)
        ensures
            votes_view(pairs_view(r@)) == votes_view(self.pairs()),
    {
        let mut out: Vec<(Hash256, Vec<bool>)> = Vec::new();
        let mut i: usize = 0;
        while i < self.entries.len()
            invariant
                i <= self.entries@.len(),
                out@.len() == i,
                self.pairs().len() == self.entries@.len(),
                votes_view(pairs_view(out@)) == votes_view(self.pairs()).take(i as int),
            decreases self.entries.len() - i,
        {
            let votes = copy_bools(&self.entries[i].1);
            let ghost before = out@;
            let pair = (self.entries[i].0, votes);
            out.push(pair);
            assert(out@ == before.push(pair));
            assert(votes_view(self.pairs())[i as int] == (pair.0.bytes(), pair.1@));
            assert forall|j: int| 0 <= j < i + 1 implies votes_view(pairs_view(out@))[j] == votes_view(
                self.pairs(),
            )[j] by {
                if j < i {
                    assert(out@[j] == before[j]);
                    assert(votes_view(pairs_view(before))[j] == votes_view(self.pairs()).take(i as int)[j]);
                }
            }
            i = i + 1;
            assert(votes_view(pairs_view(out@)) =~= votes_view(self.pairs()).take(i as int));
        }
        assert(votes_view(self.pairs()).take(i as int) =~= votes_view(self.pairs()));
        out
    }

    /// The vote lists of the map, each as a sequence.
    pub open spec fn votes(&self) -> Map<Seq<u8>, Seq<bool>> {
        self@.map_values(|v: Vec<bool>| v@)
    }

    /// The votes held, as the map of the list of pairs that `to_pairs` gives.
    pub proof fn lemma_votes_of_pairs(&self)
        ensures
            self.votes() == map_of_pairs(votes_view(self.pairs())),
    {
        lemma_map_of_pairs_votes(self.pairs());
    }

    /// The vote list at the root, if any.
    pub fn get_votes(&self, root: &Hash256) -> (r: Option<&Vec<bool>>)
        requires
            self.wf(),
        ensures
            match r {
                Some(v) => self.votes().dom().contains(root.bytes()) && v@ == self.votes()[root.bytes()],
                None => !self.votes().dom().contains(root.bytes()),
            },
    {
        self.get(root)
    }

    /// Gives the root a list of `len` votes, all false, unless it has one.
    pub fn or_insert_votes(&mut self, root: Hash256, len: usize)
        requires
            old(self).wf(),
        ensures
            final(self).wf(),
            final(self).votes() == (if old(self).votes().dom().contains(root.bytes()) {
                old(self).votes()
            } else {
                old(self).votes().insert(root.bytes(), no_votes(len as nat))
            }),
    {
        if !self.contains_key(&root) {
            let votes = new_votes(len);
            self.insert(root, votes);
            assert(self.votes() =~= old(self).votes().insert(root.bytes(), no_votes(len as nat)));
        }
    }

    /// Records `vote` at `index` of the root's vote list, giving the root a
    /// list of `default_len` false votes first if it has none. An index past
    /// the end of the list changes no vote.
    pub fn set_vote(&mut self, root: Hash256, index: usize, vote: bool, default_len: usize)
        requires
            old(self).wf(),
        ensures
            final(self).wf(),
            final(self).votes() == old(self).votes().insert(
                root.bytes(),
                vote_set(
                    if old(self).votes().dom().contains(root.bytes()) {
                        old(self).votes()[root.bytes()]
                    } else {
                        no_votes(default_len as nat)
                    },
                    index as int,
                    vote,
                ),
            ),
    {
        self.or_insert_votes(root, default_len);
        let ghost mid = self.votes();
        let ghost base = self.votes()[root.bytes()];
        let mut votes = match self.get_votes(&root) {
            Some(v) => copy_bools(v),
            None => new_votes(default_len),
        };
        if index < votes.len() {
            votes.set(index, vote);
        }
        assert(votes@ == vote_set(base, index as int, vote));
        self.insert(root, votes);
        assert(self.votes() =~= mid.insert(root.bytes(), votes@));
        assert(mid.insert(root.bytes(), votes@) =~= old(self).votes().insert(root.bytes(), votes@));
    }
}

/// A list of `n` votes, all false.
pub open spec fn no_votes(n: nat) -> Seq<bool> {
    Seq::new(n, |i: int| false)
}

/// The votes with `vote` at `index`, unchanged when `index` is past the end.
pub open spec fn vote_set(votes: Seq<bool>, index: int, vote: bool) -> Seq<bool> {
    if 0 <= index < votes.len() {
        votes.update(index, vote)
    } else {
        votes
    }
}

/// The number of true votes.
pub open spec fn count_true(votes: Seq<bool>) -> nat
    decreases votes.len(),
{
    if votes.len() == 0 {
        0
    } else {
        count_true(votes.drop_last()) + if votes.last() { 1nat } else { 0nat }
    }
}

/// A list of `n` false votes.
pub fn new_votes(n: usize) -> (r: Vec<bool>)
    ensures
        r@ == no_votes(n as nat),
{
    let mut r: Vec<bool> = Vec::new();
    let mut i: usize = 0;
    while i < n
        invariant
            i <= n,
            r@ == no_votes(i as nat),
        decreases n - i,
    {
        r.push(false);
        i = i + 1;
        assert(r@ =~= no_votes(i as nat));
    }
    r
}

/// Counts the true votes.
pub fn count_true_votes(votes: &Vec<bool>) -> (r: usize)
    ensures
        r == count_true(votes@),
{
    let mut count: usize = 0;
    let mut i: usize = 0;
    assert(votes@.take(0) =~= Seq::<bool>::empty());
    while i < votes.len()
        invariant
            i <= votes.len(),
            count == count_true(votes@.take(i as int)),
            count <= i,
        decreases votes.len() - i,
    {
        assert(votes@.take(i + 1).drop_last() =~= votes@.take(i as int));
        if votes[i] {
            count = count + 1;
        }
        i = i + 1;
    }
    assert(votes@.take(i as int) =~= votes@);
    count
}

/// The map of a list of vote pairs, the lists as sequences, is the map of
/// the pairs with each list taken as a sequence.
pub proof fn lemma_map_of_pairs_votes(pairs: Seq<(Seq<u8>, Vec<bool>)>)
    ensures
        map_of_pairs(votes_view(pairs)) == map_of_pairs(pairs).map_values(|v: Vec<bool>| v@),
    decreases pairs.len(),
{
    if pairs.len() == 0 {
        assert(votes_view(pairs) =~= Seq::<(Seq<u8>, Seq<bool>)>::empty());
        assert(map_of_pairs(pairs).map_values(|v: Vec<bool>| v@) =~= Map::<Seq<u8>, Seq<bool>>::empty());
    } else {
        let init = pairs.drop_last();
        lemma_map_of_pairs_votes(init);
        assert(votes_view(pairs).drop_last() =~= votes_view(init));
        assert(map_of_pairs(votes_view(pairs)) =~= map_of_pairs(pairs).map_values(|v: Vec<bool>| v@));
    }
}

/// A list of root and vote-list pairs, the vote lists as sequences.
pub open spec fn votes_view(pairs: Seq<(Seq<u8>, Vec<bool>)>) -> Seq<(Seq<u8>, Seq<bool>)> {
    pairs.map_values(|p: (Seq<u8>, Vec<bool>)| (p.0, p.1@))
}

/// A list of false votes has no true vote.
pub proof fn lemma_count_true_no_votes(n: nat)
    ensures
        count_true(no_votes(n)) == 0,
    decreases n,
{
    if n > 0 {
        assert(no_votes(n).drop_last() =~= no_votes((n - 1) as nat));
        lemma_count_true_no_votes((n - 1) as nat);
    }
}

} // verus!
