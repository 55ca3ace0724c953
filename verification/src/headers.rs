//! The header mapping used by requests and responses: a list of
//! name/value entries with pairwise-distinct names, kept in insertion
//! order so that serialization is deterministic. Inserting an existing
//! name replaces its value in place (last write wins).
use vstd::prelude::*;

use crate::bytes::bytes_eq;

verus! {

/// No two entries share a name.
pub open spec fn unique_keys(es: Seq<(Seq<u8>, Seq<u8>)>) -> bool {
    forall|i: int, j: int| 0 <= i < j < es.len() ==> es[i].0 != es[j].0
}

/// Some entry carries the name `k`.
pub open spec fn has_key(es: Seq<(Seq<u8>, Seq<u8>)>, k: Seq<u8>) -> bool {
    exists|i: int| 0 <= i < es.len() && es[i].0 == k
}

/// Entry list after inserting `(k, v)`: the first entry named `k` is
/// replaced in place, or `(k, v)` is appended when none exists.
pub open spec fn spec_insert(es: Seq<(Seq<u8>, Seq<u8>)>, k: Seq<u8>, v: Seq<u8>) -> Seq<
    (Seq<u8>, Seq<u8>),
>
    decreases es.len(),
{
    if es.len() == 0 {
        seq![(k, v)]
    } else if es[0].0 == k {
        seq![(k, v)] + es.drop_first()
    } else {
        seq![es[0]] + spec_insert(es.drop_first(), k, v)
    }
}

/// Value of the first entry named `k`, if any.
pub open spec fn spec_lookup(es: Seq<(Seq<u8>, Seq<u8>)>, k: Seq<u8>) -> Option<Seq<u8>>
    decreases es.len(),
{
    if es.len() == 0 {
        None
    } else if es[0].0 == k {
        Some(es[0].1)
    } else {
        spec_lookup(es.drop_first(), k)
    }
}

/// When the first entry named `k` stands at position `i`, insertion
/// updates exactly that position.
pub proof fn lemma_insert_found(es: Seq<(Seq<u8>, Seq<u8>)>, k: Seq<u8>, v: Seq<u8>, i: int)
    requires
        0 <= i < es.len(),
        es[i].0 == k,
        forall|j: int| 0 <= j < i ==> es[j].0 != k,
    ensures
        spec_insert(es, k, v) == es.update(i, (k, v)),
    decreases i,
{
    if i == 0 {
        assert(spec_insert(es, k, v) =~= es.update(0, (k, v)));
    } else {
        lemma_insert_found(es.drop_first(), k, v, i - 1);
        assert(spec_insert(es, k, v) =~= es.update(i, (k, v)));
    }
}

/// When no entry is named `k`, insertion appends.
pub proof fn lemma_insert_absent(es: Seq<(Seq<u8>, Seq<u8>)>, k: Seq<u8>, v: Seq<u8>)
    requires
        forall|j: int| 0 <= j < es.len() ==> es[j].0 != k,
    ensures
        spec_insert(es, k, v) == es.push((k, v)),
    decreases es.len(),
{
    if es.len() == 0 {
        assert(spec_insert(es, k, v) =~= es.push((k, v)));
    } else {
        lemma_insert_absent(es.drop_first(), k, v);
        assert(spec_insert(es, k, v) =~= es.push((k, v)));
    }
}

/// The names present after an insertion are the old names plus `k`.
pub proof fn lemma_insert_keys(es: Seq<(Seq<u8>, Seq<u8>)>, k: Seq<u8>, v: Seq<u8>, k2: Seq<u8>)
    ensures
        has_key(spec_insert(es, k, v), k2) <==> (has_key(es, k2) || k2 == k),
    decreases es.len(),
{
    let r = spec_insert(es, k, v);
    if es.len() == 0 {
        if k2 == k {
            assert(r[0].0 == k2);
        }
        if has_key(r, k2) {
            let i = choose|i: int| 0 <= i < r.len() && r[i].0 == k2;
            assert(i == 0);
        }
    } else if es[0].0 == k {
        assert forall|i: int| 0 <= i < es.len() implies #[trigger] es[i] == (if i == 0 {
            es[0]
        } else {
            r[i]
        }) by {}
        if has_key(es, k2) {
            let i = choose|i: int| 0 <= i < es.len() && es[i].0 == k2;
            if i == 0 {
                assert(r[0].0 == k);
            } else {
                assert(r[i].0 == k2);
            }
        }
        if k2 == k {
            assert(r[0].0 == k2);
        }
        if has_key(r, k2) {
            let i = choose|i: int| 0 <= i < r.len() && r[i].0 == k2;
            if i == 0 {
            } else {
                assert(es[i].0 == k2);
            }
        }
    } else {
        lemma_insert_keys(es.drop_first(), k, v, k2);
        assert(r == seq![es[0]] + spec_insert(es.drop_first(), k, v));
        if has_key(es, k2) {
            let i = choose|i: int| 0 <= i < es.len() && es[i].0 == k2;
            if i == 0 {
                assert(r[0].0 == k2);
            } else {
                assert(es.drop_first()[i - 1].0 == k2);
                let j = choose|j: int|
                    0 <= j < spec_insert(es.drop_first(), k, v).len() && spec_insert(
                        es.drop_first(),
                        k,
                        v,
                    )[j].0 == k2;
                assert(r[j + 1].0 == k2);
            }
        }
        if k2 == k {
            let j = choose|j: int|
                0 <= j < spec_insert(es.drop_first(), k, v).len() && spec_insert(
                    es.drop_first(),
                    k,
                    v,
                )[j].0 == k2;
            assert(r[j + 1].0 == k2);
        }
        if has_key(r, k2) {
            let i = choose|i: int| 0 <= i < r.len() && r[i].0 == k2;
            if i == 0 {
                assert(es[0].0 == k2);
            } else {
                assert(spec_insert(es.drop_first(), k, v)[i - 1].0 == k2);
                if !(k2 == k) {
                    let j = choose|j: int|
                        0 <= j < es.drop_first().len() && es.drop_first()[j].0 == k2;
                    assert(es[j + 1].0 == k2);
                }
            }
        }
    }
}

/// Insertion keeps the names pairwise distinct.
pub proof fn lemma_insert_unique(es: Seq<(Seq<u8>, Seq<u8>)>, k: Seq<u8>, v: Seq<u8>)
    requires
        unique_keys(es),
    ensures
        unique_keys(spec_insert(es, k, v)),
    decreases es.len(),
{
    let r = spec_insert(es, k, v);
    if es.len() == 0 {
    } else if es[0].0 == k {
        assert forall|i: int, j: int| 0 <= i < j < r.len() implies r[i].0 != r[j].0 by {
            if i == 0 {
                assert(r[j].0 == es[j].0);
                assert(es[0].0 != es[j].0);
            } else {
                assert(r[i].0 == es[i].0);
                assert(r[j].0 == es[j].0);
            }
        }
    } else {
        lemma_insert_unique(es.drop_first(), k, v);
        let inner = spec_insert(es.drop_first(), k, v);
        assert forall|i: int, j: int| 0 <= i < j < r.len() implies r[i].0 != r[j].0 by {
            if i == 0 {
                assert(r[j].0 == inner[j - 1].0);
                lemma_insert_keys(es.drop_first(), k, v, r[j].0);
                if r[j].0 == es[0].0 {
                    if has_key(es.drop_first(), es[0].0) {
                        let m = choose|m: int|
                            0 <= m < es.drop_first().len() && es.drop_first()[m].0 == es[0].0;
                        assert(es[m + 1].0 == es[0].0);
                    }
                }
            } else {
                assert(r[i].0 == inner[i - 1].0);
                assert(r[j].0 == inner[j - 1].0);
            }
        }
    }
}

/// The header mapping: name/value entries in insertion order with
/// pairwise-distinct names.
pub struct Headers {
    entries: Vec<(Vec<u8>, Vec<u8>)>,
}

impl View for Headers {
    type V = Seq<(Seq<u8>, Seq<u8>)>;

    closed spec fn view(&self) -> Seq<(Seq<u8>, Seq<u8>)> {
        Seq::new(self.entries@.len(), |i: int| (self.entries@[i].0@, self.entries@[i].1@))
    }
}

impl Headers {
    /// The names of the entries are pairwise distinct.
    pub open spec fn wf(&self) -> bool {
        unique_keys(self@)
    }

    /// An empty mapping.
    pub fn new() -> (h: Headers)
        ensures
            h@ == Seq::<(Seq<u8>, Seq<u8>)>::empty(),
            h.wf(),
    {
        let h = Headers { entries: Vec::new() };
        proof {
            assert(h@ =~= Seq::<(Seq<u8>, Seq<u8>)>::empty());
        }
        h
    }

    /// Number of entries.
    pub fn len(&self) -> (n: usize)
        ensures
            n == self@.len(),
    {
        self.entries.len()
    }

    /// Name of the entry at position `i`.
    pub fn name_at(&self, i: usize) -> (r: &Vec<u8>)
        requires
            i < self@.len(),
        ensures
            r@ == self@[i as int].0,
    {
        &self.entries[i].0
    }

    /// Value of the entry at position `i`.
    pub fn value_at(&self, i: usize) -> (r: &Vec<u8>)
        requires
            i < self@.len(),
        ensures
            r@ == self@[i as int].1,
    {
        &self.entries[i].1
    }

    /// Inserts `(k, v)`: replaces the value of an entry already named
    /// `k`, or appends a new entry.
    pub fn insert(&mut self, k: Vec<u8>, v: Vec<u8>)
        requires
            old(self).wf(),
        ensures
            final(self)@ == spec_insert(old(self)@, k@, v@),
            final(self).wf(),
    {
        let ghost es = self@;
        let mut i: usize = 0;
        while i < self.entries.len()
            invariant
                self@ == es,
                es == old(self)@,
                unique_keys(es),
                i <= es.len(),
                forall|j: int| 0 <= j < i ==> es[j].0 != k@,
            decreases es.len() - i,
        {
            if bytes_eq(self.entries[i].0.as_slice(), k.as_slice()) {
                proof {
                    lemma_insert_found(es, k@, v@, i as int);
                    lemma_insert_unique(es, k@, v@);
                }
                self.entries[i] = (k, v);
                proof {
                    assert(self@ =~= es.update(i as int, (k@, v@)));
                }
                return ;
            }
            i += 1;
        }
        proof {
            lemma_insert_absent(es, k@, v@);
            lemma_insert_unique(es, k@, v@);
        }
        self.entries.push((k, v));
        proof {
            assert(self@ =~= es.push((k@, v@)));
        }
    }

    /// Looks a name up, returning the value of the entry that carries it.
    pub fn get(&self, k: &[u8]) -> (r: Option<&Vec<u8>>)
        ensures
            match r {
                Some(v) => spec_lookup(self@, k@) == Some(v@),
                None => spec_lookup(self@, k@) is None,
            },
    {
        let ghost es = self@;
        proof {
            assert(es.skip(0) =~= es);
        }
        let mut i: usize = 0;
        while i < self.entries.len()
            invariant
                self@ == es,
                i <= es.len(),
                forall|j: int| 0 <= j < i ==> es[j].0 != k@,
                spec_lookup(es, k@) == spec_lookup(es.skip(i as int), k@),
            decreases es.len() - i,
        {
            if bytes_eq(self.entries[i].0.as_slice(), k) {
                proof {
                    assert(es.skip(i as int)[0] == es[i as int]);
                }
                return Some(&self.entries[i].1);
            }
            proof {
                assert(es.skip(i as int).drop_first() =~= es.skip(i as int + 1));
                assert(es.skip(i as int)[0] == es[i as int]);
            }
            i += 1;
        }
        proof {
            assert(es.skip(es.len() as int).len() == 0);
        }
        None
    }
}

} // verus!
