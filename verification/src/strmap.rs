//! Association of string keys to string values with unique keys.
//!
//! Custom headers and the registration indexes use this map.  It keeps
//! its entries in insertion order, which the serializers rely on, and its
//! lookups are specified by a first-match scan that uniqueness turns into
//! the only match.

use vstd::prelude::*;

verus! {

/// First value paired with the key, scanning left to right.
pub open spec fn pairs_lookup(ps: Seq<(Seq<char>, Seq<char>)>, k: Seq<char>) -> Option<Seq<char>>
    decreases ps.len(),
{
    if ps.len() == 0 {
        None
    } else if ps[0].0 == k {
        Some(ps[0].1)
    } else {
        pairs_lookup(ps.drop_first(), k)
    }
}

/// Entries after binding a key: the first entry under the key is replaced
/// in place, a fresh key goes to the end.
pub open spec fn pairs_insert(
    ps: Seq<(Seq<char>, Seq<char>)>,
    k: Seq<char>,
    v: Seq<char>,
) -> Seq<(Seq<char>, Seq<char>)>
    decreases ps.len(),
{
    if ps.len() == 0 {
        seq![(k, v)]
    } else if ps[0].0 == k {
        seq![(k, v)] + ps.drop_first()
    } else {
        seq![ps[0]] + pairs_insert(ps.drop_first(), k, v)
    }
}

/// `pairs_insert` is update-at-first-match, or push when the key is fresh.
pub proof fn lemma_pairs_insert_shape(ps: Seq<(Seq<char>, Seq<char>)>, k: Seq<char>, v: Seq<char>)
    ensures
        forall|j: int|
            0 <= j < ps.len() && (#[trigger] ps[j]).0 == k && (forall|i: int|
                0 <= i < j ==> (#[trigger] ps[i]).0 != k) ==> pairs_insert(ps, k, v) =~= ps.update(
                j,
                (k, v),
            ),
        (forall|i: int| 0 <= i < ps.len() ==> (#[trigger] ps[i]).0 != k) ==> pairs_insert(ps, k, v)
            =~= ps.push((k, v)),
    decreases ps.len(),
{
    if ps.len() > 0 {
        lemma_pairs_insert_shape(ps.drop_first(), k, v);
        let tail = ps.drop_first();
        if ps[0].0 == k {
        } else {
            assert forall|j: int|
                0 <= j < ps.len() && (#[trigger] ps[j]).0 == k && (forall|i: int|
                    0 <= i < j ==> (#[trigger] ps[i]).0 != k) implies pairs_insert(ps, k, v)
                =~= ps.update(j, (k, v)) by {
                assert(j > 0);
                assert(tail[j - 1] == ps[j]);
                assert forall|i: int| 0 <= i < j - 1 implies (#[trigger] tail[i]).0 != k by {
                    assert(tail[i] == ps[i + 1]);
                }
                assert(pairs_insert(tail, k, v) =~= tail.update(j - 1, (k, v)));
                assert(pairs_insert(ps, k, v) =~= seq![ps[0]] + tail.update(j - 1, (k, v)));
                assert(seq![ps[0]] + tail.update(j - 1, (k, v)) =~= ps.update(j, (k, v)));
            }
            if forall|i: int| 0 <= i < ps.len() ==> (#[trigger] ps[i]).0 != k {
                assert forall|i: int| 0 <= i < tail.len() implies (#[trigger] tail[i]).0 != k by {
                    assert(tail[i] == ps[i + 1]);
                }
                assert(pairs_insert(tail, k, v) =~= tail.push((k, v)));
                assert(seq![ps[0]] + tail.push((k, v)) =~= ps.push((k, v)));
            }
        }
    }
}

/// Every entry after an insert is the new pair or one of the old entries.
pub proof fn lemma_pairs_insert_entries(ps: Seq<(Seq<char>, Seq<char>)>, k: Seq<char>, v: Seq<char>)
    ensures
        forall|j: int|
            0 <= j < pairs_insert(ps, k, v).len() ==> #[trigger] pairs_insert(ps, k, v)[j] == (k, v)
                || exists|i: int| 0 <= i < ps.len() && pairs_insert(ps, k, v)[j] == #[trigger] ps[i],
    decreases ps.len(),
{
    let ps2 = pairs_insert(ps, k, v);
    if ps.len() == 0 {
    } else if ps[0].0 == k {
        assert forall|j: int|
            0 <= j < ps2.len() implies #[trigger] ps2[j] == (k, v) || exists|i: int|
            0 <= i < ps.len() && ps2[j] == #[trigger] ps[i] by {
            if j > 0 {
                assert(ps2[j] == ps[j]);
            }
        }
    } else {
        lemma_pairs_insert_entries(ps.drop_first(), k, v);
        let tail = ps.drop_first();
        let tail2 = pairs_insert(tail, k, v);
        assert forall|j: int|
            0 <= j < ps2.len() implies #[trigger] ps2[j] == (k, v) || exists|i: int|
            0 <= i < ps.len() && ps2[j] == #[trigger] ps[i] by {
            if j == 0 {
                assert(ps2[0] == ps[0]);
            } else {
                assert(ps2[j] == tail2[j - 1]);
                if tail2[j - 1] == (k, v) {
                } else {
                    let i = choose|i: int| 0 <= i < tail.len() && tail2[j - 1] == #[trigger] tail[i];
                    assert(ps[i + 1] == tail[i]);
                }
            }
        }
    }
}

/// No key occurs twice.
pub open spec fn pairs_unique(ps: Seq<(Seq<char>, Seq<char>)>) -> bool {
    forall|i: int, j: int| 0 <= i < j < ps.len() ==> (#[trigger] ps[i]).0 != (#[trigger] ps[j]).0
}

/// String map with unique keys, held in insertion order.
#[derive(Debug)]
pub struct StrMap {
    pub pairs: Vec<(String, String)>,
}

impl StrMap {
    /// The entries, each as its pair of character sequences.
    pub open spec fn spec_pairs(&self) -> Seq<(Seq<char>, Seq<char>)> {
        self.pairs@.map(|i: int, p: (String, String)| (p.0@, p.1@))
    }

    /// The value under a key, if any.
    pub open spec fn spec_get(&self, k: Seq<char>) -> Option<Seq<char>> {
        pairs_lookup(self.spec_pairs(), k)
    }

    pub open spec fn wf(&self) -> bool {
        pairs_unique(self.spec_pairs())
    }

    pub open spec fn spec_len(&self) -> nat {
        self.pairs@.len()
    }

    pub fn new() -> (m: StrMap)
        ensures
            m.spec_pairs() =~= Seq::<(Seq<char>, Seq<char>)>::empty(),
            m.wf(),
    {
        StrMap { pairs: Vec::new() }
    }

    pub fn len(&self) -> (n: usize)
        ensures
            n == self.spec_len(),
    {
        self.pairs.len()
    }

    fn find(&self, k: &String) -> (r: Option<usize>)
        ensures
            match r {
                Some(j) => {
                    &&& j < self.spec_pairs().len()
                    &&& self.spec_pairs()[j as int].0 == k@
                    &&& forall|i: int| 0 <= i < j ==> (#[trigger] self.spec_pairs()[i]).0 != k@
                },
                None => forall|i: int|
                    0 <= i < self.spec_pairs().len() ==> (#[trigger] self.spec_pairs()[i]).0 != k@,
            },
    {
        let mut j: usize = 0;
        while j < self.pairs.len()
            invariant
                j <= self.pairs@.len(),
                forall|i: int| 0 <= i < j ==> (#[trigger] self.spec_pairs()[i]).0 != k@,
            decreases self.pairs@.len() - j,
        {
            if self.pairs[j].0 == *k {
                return Some(j);
            }
            j += 1;
        }
        None
    }

    /// The value stored under the key.
    pub fn get<'a>(&'a self, k: &String) -> (r: Option<&'a String>)
        ensures
            match r {
                Some(v) => self.spec_get(k@) == Some(v@),
                None => self.spec_get(k@) is None,
            },
    {
        proof {
            lemma_lookup_by_find(self.spec_pairs(), k@);
        }
        match self.find(k) {
            Some(j) => Some(&self.pairs[j].1),
            None => None,
        }
    }

    pub fn contains_key(&self, k: &String) -> (r: bool)
        ensures
            r == (self.spec_get(k@) is Some),
    {
        self.get(k).is_some()
    }

    /// Binds the key to the value.  An existing entry is overwritten in
    /// place; a fresh key goes to the end.
    pub fn insert(&mut self, k: String, v: String)
        requires
            old(self).wf(),
        ensures
            final(self).wf(),
            final(self).spec_pairs() == pairs_insert(old(self).spec_pairs(), k@, v@),
            forall|q: Seq<char>|
                final(self).spec_get(q) == if q == k@ {
                    Some(v@)
                } else {
                    old(self).spec_get(q)
                },
            old(self).spec_get(k@) is None ==> final(self).spec_pairs() == old(
                self,
            ).spec_pairs().push((k@, v@)),
            final(self).spec_get(k@) == Some(v@),
    {
        let ghost ps0 = self.spec_pairs();
        proof {
            lemma_lookup_by_find(ps0, k@);
            lemma_pairs_insert_shape(ps0, k@, v@);
        }
        match self.find(&k) {
            Some(j) => {
                self.pairs[j] = (k, v);
                proof {
                    let ps1 = self.spec_pairs();
                    assert(ps1 =~= ps0.update(j as int, (k@, v@)));
                    lemma_lookup_after_update(ps0, j as int, k@, v@);
                    assert forall|q: Seq<char>|
                        #[trigger] pairs_lookup(ps1, q) == if q == k@ {
                            Some(v@)
                        } else {
                            pairs_lookup(ps0, q)
                        } by {
                        lemma_lookup_after_update_other(ps0, j as int, k@, v@, q);
                    }
                }
            },
            None => {
                self.pairs.push((k, v));
                proof {
                    let ps1 = self.spec_pairs();
                    assert(ps1 =~= ps0.push((k@, v@)));
                    assert forall|q: Seq<char>|
                        #[trigger] pairs_lookup(ps1, q) == if q == k@ {
                            Some(v@)
                        } else {
                            pairs_lookup(ps0, q)
                        } by {
                        lemma_lookup_after_push(ps0, k@, v@, q);
                    }
                }
            },
        }
    }
}

/// A lookup misses exactly when no entry has the key.
pub proof fn lemma_lookup_none(ps: Seq<(Seq<char>, Seq<char>)>, k: Seq<char>)
    ensures
        (pairs_lookup(ps, k) is None) <==> (forall|i: int|
            0 <= i < ps.len() ==> (#[trigger] ps[i]).0 != k),
    decreases ps.len(),
{
    if ps.len() > 0 {
        lemma_lookup_none(ps.drop_first(), k);
        let tail = ps.drop_first();
        if ps[0].0 != k {
            if pairs_lookup(ps, k) is None {
                assert forall|i: int| 0 <= i < ps.len() implies (#[trigger] ps[i]).0 != k by {
                    if i > 0 {
                        assert(tail[i - 1] == ps[i]);
                    }
                }
            }
            if forall|i: int| 0 <= i < ps.len() ==> (#[trigger] ps[i]).0 != k {
                assert forall|i: int| 0 <= i < tail.len() implies (#[trigger] tail[i]).0 != k by {
                    assert(tail[i] == ps[i + 1]);
                }
            }
        }
    }
}

/// With no earlier match, looking a key up lands on the matching index.
proof fn lemma_lookup_by_find(ps: Seq<(Seq<char>, Seq<char>)>, k: Seq<char>)
    ensures
        forall|j: int|
            0 <= j < ps.len() && (#[trigger] ps[j]).0 == k && (forall|i: int|
                0 <= i < j ==> (#[trigger] ps[i]).0 != k) ==> pairs_lookup(ps, k) == Some(ps[j].1),
        (forall|i: int| 0 <= i < ps.len() ==> (#[trigger] ps[i]).0 != k) ==> pairs_lookup(ps, k)
            is None,
    decreases ps.len(),
{
    if ps.len() > 0 {
        lemma_lookup_by_find(ps.drop_first(), k);
        assert forall|j: int|
            0 <= j < ps.len() && (#[trigger] ps[j]).0 == k && (forall|i: int|
                0 <= i < j ==> (#[trigger] ps[i]).0 != k) implies pairs_lookup(ps, k) == Some(
            ps[j].1,
        ) by {
            if j > 0 {
                assert(ps[0].0 != k);
                let tail = ps.drop_first();
                assert(tail[j - 1] == ps[j]);
                assert forall|i: int| 0 <= i < j - 1 implies (#[trigger] tail[i]).0 != k by {
                    assert(tail[i] == ps[i + 1]);
                }
            }
        }
        if forall|i: int| 0 <= i < ps.len() ==> (#[trigger] ps[i]).0 != k {
            let tail = ps.drop_first();
            assert forall|i: int| 0 <= i < tail.len() implies (#[trigger] tail[i]).0 != k by {
                assert(tail[i] == ps[i + 1]);
            }
        }
    }
}

/// Replacing the first match leaves the key bound to the new value.
proof fn lemma_lookup_after_update(ps: Seq<(Seq<char>, Seq<char>)>, j: int, k: Seq<char>, v: Seq<char>)
    requires
        0 <= j < ps.len(),
        ps[j].0 == k,
        forall|i: int| 0 <= i < j ==> (#[trigger] ps[i]).0 != k,
    ensures
        pairs_lookup(ps.update(j, (k, v)), k) == Some(v),
    decreases j,
{
    let ps2 = ps.update(j, (k, v));
    if j == 0 {
    } else {
        assert(ps2[0] == ps[0]);
        assert(ps2.drop_first() =~= ps.drop_first().update(j - 1, (k, v)));
        let tail = ps.drop_first();
        assert(tail[j - 1] == ps[j]);
        assert forall|i: int| 0 <= i < j - 1 implies (#[trigger] tail[i]).0 != k by {
            assert(tail[i] == ps[i + 1]);
        }
        lemma_lookup_after_update(tail, j - 1, k, v);
    }
}

/// Replacing an entry whose key differs from `q` leaves `q`'s binding alone.
proof fn lemma_lookup_after_update_other(
    ps: Seq<(Seq<char>, Seq<char>)>,
    j: int,
    k: Seq<char>,
    v: Seq<char>,
    q: Seq<char>,
)
    requires
        0 <= j < ps.len(),
        ps[j].0 == k,
        forall|i: int| 0 <= i < j ==> (#[trigger] ps[i]).0 != k,
    ensures
        pairs_lookup(ps.update(j, (k, v)), q) == if q == k {
            Some(v)
        } else {
            pairs_lookup(ps, q)
        },
    decreases j,
{
    let ps2 = ps.update(j, (k, v));
    if q == k {
        lemma_lookup_after_update(ps, j, k, v);
    } else {
        if j == 0 {
            assert(ps2.drop_first() =~= ps.drop_first());
        } else {
            assert(ps2[0] == ps[0]);
            assert(ps2.drop_first() =~= ps.drop_first().update(j - 1, (k, v)));
            let tail = ps.drop_first();
            assert(tail[j - 1] == ps[j]);
            assert forall|i: int| 0 <= i < j - 1 implies (#[trigger] tail[i]).0 != k by {
                assert(tail[i] == ps[i + 1]);
            }
            lemma_lookup_after_update_other(tail, j - 1, k, v, q);
        }
    }
}

/// Appending a fresh entry binds its key and no other.
pub proof fn lemma_lookup_after_push(
    ps: Seq<(Seq<char>, Seq<char>)>,
    k: Seq<char>,
    v: Seq<char>,
    q: Seq<char>,
)
    requires
        forall|i: int| 0 <= i < ps.len() ==> (#[trigger] ps[i]).0 != k,
    ensures
        pairs_lookup(ps.push((k, v)), q) == if q == k {
            Some(v)
        } else {
            pairs_lookup(ps, q)
        },
    decreases ps.len(),
{
    let ps2 = ps.push((k, v));
    if ps.len() == 0 {
        assert(ps2[0] == (k, v));
        if q != k {
            assert(pairs_lookup(ps2, q) == pairs_lookup(ps2.drop_first(), q));
            assert(ps2.drop_first() =~= Seq::<(Seq<char>, Seq<char>)>::empty());
            assert(pairs_lookup(ps, q) is None);
        }
    } else {
        assert(ps2[0] == ps[0]);
        assert(ps2.drop_first() =~= ps.drop_first().push((k, v)));
        let tail = ps.drop_first();
        assert forall|i: int| 0 <= i < tail.len() implies (#[trigger] tail[i]).0 != k by {
            assert(tail[i] == ps[i + 1]);
        }
        lemma_lookup_after_push(tail, k, v, q);
    }
}

} // verus!
