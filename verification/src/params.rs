//! An ordered mapping from byte-string keys to byte-string values, used for
//! headers, query parameters and form data.  Insertion is last-write-wins and
//! the view is a `Map<Seq<u8>, Seq<u8>>`.

use vstd::prelude::*;
use crate::bytes::bytes_eq;

verus! {

/// The mapping described by an entry list: later entries override earlier
/// ones.
pub open spec fn assoc_map(s: Seq<(Seq<u8>, Seq<u8>)>) -> Map<Seq<u8>, Seq<u8>>
    decreases s.len(),
{
    if s.len() == 0 {
        Map::empty()
    } else {
        assoc_map(s.drop_last()).insert(s.last().0, s.last().1)
    }
}

/// No two entries share a key.
pub open spec fn distinct_keys(s: Seq<(Seq<u8>, Seq<u8>)>) -> bool {
    forall|i: int, j: int| 0 <= i < j < s.len() ==> (#[trigger] s[i]).0 != (#[trigger] s[j]).0
}

/// A key is in the mapping exactly when some entry holds it.
pub proof fn lemma_assoc_contains(s: Seq<(Seq<u8>, Seq<u8>)>, k: Seq<u8>)
    ensures
        assoc_map(s).contains_key(k) <==> exists|i: int|
            0 <= i < s.len() && (#[trigger] s[i]).0 == k,
    decreases s.len(),
{
    if s.len() > 0 {
        lemma_assoc_contains(s.drop_last(), k);
        let t = s.drop_last();
        assert(forall|i: int| 0 <= i < t.len() ==> #[trigger] t[i] == s[i]);
        if s.last().0 == k {
            assert((s[s.len() - 1]).0 == k);
        } else if assoc_map(s).contains_key(k) {
            let i = choose|i: int| 0 <= i < t.len() && (#[trigger] t[i]).0 == k;
            assert((s[i]).0 == k);
        } else if exists|i: int| 0 <= i < s.len() && (#[trigger] s[i]).0 == k {
            let i = choose|i: int| 0 <= i < s.len() && (#[trigger] s[i]).0 == k;
            assert((t[i]).0 == k);
        }
    }
}

/// With distinct keys, the entry holding a key gives its value in the
/// mapping.
pub proof fn lemma_assoc_get(s: Seq<(Seq<u8>, Seq<u8>)>, k: Seq<u8>, i: int)
    requires
        distinct_keys(s),
        0 <= i < s.len(),
        (s[i]).0 == k,
    ensures
        assoc_map(s).contains_key(k),
        assoc_map(s)[k] == (s[i]).1,
    decreases s.len(),
{
    let t = s.drop_last();
    assert(forall|j: int| 0 <= j < t.len() ==> #[trigger] t[j] == s[j]);
    if i == s.len() - 1 {
    } else {
        assert((s[i]).0 != (s[s.len() - 1]).0);
        lemma_assoc_get(t, k, i);
    }
}

/// Updating the entry that holds a key is insertion into the mapping.
pub proof fn lemma_assoc_update(s: Seq<(Seq<u8>, Seq<u8>)>, k: Seq<u8>, v: Seq<u8>, i: int)
    requires
        distinct_keys(s),
        0 <= i < s.len(),
        (s[i]).0 == k,
    ensures
        assoc_map(s.update(i, (k, v))) == assoc_map(s).insert(k, v),
    decreases s.len(),
{
    let s2 = s.update(i, (k, v));
    if i == s.len() - 1 {
        assert(s2.drop_last() =~= s.drop_last());
        assert(assoc_map(s2) =~= assoc_map(s).insert(k, v));
    } else {
        assert((s[i]).0 != (s[s.len() - 1]).0);
        assert(s2.drop_last() =~= s.drop_last().update(i, (k, v)));
        assert(forall|j: int| 0 <= j < s.drop_last().len() ==> #[trigger] s.drop_last()[j] == s[j]);
        lemma_assoc_update(s.drop_last(), k, v, i);
        assert(s2.last() == s.last());
        assert(assoc_map(s2) == assoc_map(s.drop_last()).insert(k, v).insert(
            s.last().0,
            s.last().1,
        ));
        assert(assoc_map(s.drop_last()).insert(k, v).insert(s.last().0, s.last().1)
            =~= assoc_map(s.drop_last()).insert(s.last().0, s.last().1).insert(k, v));
    }
}

/// The view of a `ByteMap` is the mapping of its entry list.
pub proof fn lemma_view_is_assoc(m: ByteMap)
    ensures
        m@ == assoc_map(m.entries_seq()),
{
}

/// Ordered list of key/value entries with distinct keys; insertion is
/// last-write-wins.
#[derive(Debug)]
pub struct ByteMap {
    entries: Vec<(Vec<u8>, Vec<u8>)>,
}

impl View for ByteMap {
    type V = Map<Seq<u8>, Seq<u8>>;

    closed spec fn view(&self) -> Map<Seq<u8>, Seq<u8>> {
        assoc_map(self.entries_seq())
    }
}

impl ByteMap {
    /// The entries in order, as sequences.
    pub closed spec fn entries_seq(self) -> Seq<(Seq<u8>, Seq<u8>)> {
        self.entries@.map_values(|p: (Vec<u8>, Vec<u8>)| (p.0@, p.1@))
    }

    /// Well-formed: no two entries share a key.
    pub open spec fn wf(self) -> bool {
        distinct_keys(self.entries_seq())
    }

    /// The empty mapping.
    pub fn new() -> (r: ByteMap)
        ensures
            r@ == Map::<Seq<u8>, Seq<u8>>::empty(),
            r.entries_seq() == Seq::<(Seq<u8>, Seq<u8>)>::empty(),
            r.wf(),
    {
        let r = ByteMap { entries: Vec::new() };
        proof {
            assert(r.entries_seq() =~= Seq::<(Seq<u8>, Seq<u8>)>::empty());
        }
        r
    }

    /// Number of entries.
    pub fn len(&self) -> (r: usize)
        ensures
            r == self.entries_seq().len(),
    {
        self.entries.len()
    }

    /// The entry at index `i`, in insertion order.
    pub fn entry_at(&self, i: usize) -> (r: (&Vec<u8>, &Vec<u8>))
        requires
            i < self.entries_seq().len(),
        ensures
            (r.0@, r.1@) == self.entries_seq()[i as int],
    {
        (&self.entries[i].0, &self.entries[i].1)
    }

    /// The index of the entry holding `k`, if any.
    fn find_key(&self, k: &Vec<u8>) -> (r: Option<usize>)
        ensures
            match r {
                Some(i) => (i as int) < self.entries_seq().len() && self.entries_seq()[i as int].0
                    == k@,
                None => forall|i: int|
                    0 <= i < self.entries_seq().len() ==> (#[trigger] self.entries_seq()[i]).0
                        != k@,
            },
    {
        let mut i: usize = 0;
        while i < self.entries.len()
            invariant
                i <= self.entries@.len(),
                self.entries_seq().len() == self.entries@.len(),
                forall|j: int| 0 <= j < i ==> (#[trigger] self.entries_seq()[j]).0 != k@,
            decreases self.entries@.len() - i,
        {
            if bytes_eq(&self.entries[i].0, k) {
                return Some(i);
            }
            i = i + 1;
        }
        None
    }

    /// Look a key up.  Returns the value exactly when the mapping holds the
    /// key.
    pub fn get(&self, k: &Vec<u8>) -> (r: Option<&Vec<u8>>)
        requires
            self.wf(),
        ensures
            r is Some <==> self@.contains_key(k@),
            r matches Some(v) ==> self@.contains_key(k@) && v@ == self@[k@],
    {
        proof {
            lemma_assoc_contains(self.entries_seq(), k@);
        }
        match self.find_key(k) {
            Some(i) => {
                proof {
                    lemma_assoc_get(self.entries_seq(), k@, i as int);
                }
                Some(&self.entries[i].1)
            },
            None => None,
        }
    }

    /// Insert, overwriting the value of an existing key in place, appending a
    /// new key at the end.
    pub fn insert(&mut self, k: Vec<u8>, v: Vec<u8>)
        requires
            old(self).wf(),
        ensures
            final(self).wf(),
            final(self)@ == old(self)@.insert(k@, v@),
            !old(self)@.contains_key(k@) ==> final(self).entries_seq() == old(
                self,
            ).entries_seq().push((k@, v@)),
            forall|i: int|
                0 <= i < old(self).entries_seq().len() && (#[trigger] old(self).entries_seq()[i]).0
                    == k@ ==> final(self).entries_seq() == old(self).entries_seq().update(
                    i,
                    (k@, v@),
                ),
    {
        let ghost s0 = self.entries_seq();
        match self.find_key(&k) {
            Some(i) => {
                let ghost kk = k@;
                let ghost vv = v@;
                self.entries.remove(i);
                self.entries.insert(i, (k, v));
                proof {
                    assert(self.entries_seq() =~= s0.update(i as int, (kk, vv)));
                    lemma_assoc_update(s0, kk, vv, i as int);
                    lemma_assoc_contains(s0, kk);
                    assert forall|a: int, b: int|
                        0 <= a < b < self.entries_seq().len() implies (
                    #[trigger] self.entries_seq()[a]).0 != (#[trigger] self.entries_seq()[b]).0 by {
                        assert(s0[a].0 != s0[b].0 || a == i || b == i);
                    }
                }
            },
            None => {
                let ghost kk = k@;
                let ghost vv = v@;
                self.entries.push((k, v));
                proof {
                    assert(self.entries_seq() =~= s0.push((kk, vv)));
                    assert(self.entries_seq().drop_last() =~= s0);
                    lemma_assoc_contains(s0, kk);
                    assert forall|a: int, b: int|
                        0 <= a < b < self.entries_seq().len() implies (
                    #[trigger] self.entries_seq()[a]).0 != (#[trigger] self.entries_seq()[b]).0 by {
                        if b < self.entries_seq().len() - 1 {
                            assert(s0[a].0 != s0[b].0);
                        } else {
                            assert(s0[a].0 != kk);
                        }
                    }
                }
            },
        }
    }
}

} // verus!
