//! Names of things, kept in the order in which they were first met: a thing is
//! referred to by the number of its name.

use vstd::prelude::*;
use vstd::slice::slice_to_vec;

verus! {

/// What each of `labels` holds.
pub open spec fn texts(labels: Seq<Vec<u8>>) -> Seq<Seq<u8>> {
    Seq::new(labels.len(), |i: int| labels[i]@)
}

/// Whether no name occurs twice among `labels`.
pub open spec fn distinct(labels: Seq<Seq<u8>>) -> bool {
    forall|v: int, w: int| 0 <= v < w < labels.len() ==> labels[v] != labels[w]
}

/// The number of the first of `labels` that is `label`, or the number of
/// labels where none is.
pub open spec fn index_of(labels: Seq<Seq<u8>>, label: Seq<u8>) -> int
    decreases labels.len(),
{
    if labels.len() == 0 {
        0
    } else if index_of(labels.drop_last(), label) < labels.len() - 1 {
        index_of(labels.drop_last(), label)
    } else if labels.last() == label {
        labels.len() - 1
    } else {
        labels.len() as int
    }
}

/// The first label that is `label` is at `v`, where none before it is.
pub proof fn lemma_index_of(labels: Seq<Seq<u8>>, label: Seq<u8>, v: int)
    requires
        0 <= v <= labels.len(),
        forall|i: int| 0 <= i < v ==> labels[i] != label,
        v < labels.len() ==> labels[v] == label,
    ensures
        index_of(labels, label) == v,
    decreases labels.len(),
{
    if labels.len() > 0 {
        if v < labels.len() - 1 {
            lemma_index_of(labels.drop_last(), label, v);
        } else {
            lemma_index_of(labels.drop_last(), label, labels.len() - 1);
        }
    }
}

/// Whether two names are the same.
pub fn same(a: &[u8], b: &[u8]) -> (eq: bool)
    ensures
        eq == (a@ == b@),
{
    if a.len() != b.len() {
        return false;
    }
    let mut k: usize = 0;
    while k < a.len()
        invariant
            k <= a@.len() == b@.len(),
            forall|i: int| 0 <= i < k ==> a@[i] == b@[i],
        decreases a@.len() - k,
    {
        if a[k] != b[k] {
            return false;
        }
        k = k + 1;
    }
    assert(a@ =~= b@);
    true
}

/// The number of the name `label` among `labels`, where it is among them.
pub fn lookup(labels: &Vec<Vec<u8>>, label: &[u8]) -> (found: Option<usize>)
    ensures
        match found {
            Some(v) => v < labels@.len() && index_of(texts(labels@), label@) == v
                && labels@[v as int]@ == label@,
            None => index_of(texts(labels@), label@) == labels@.len() && forall|v: int|
                0 <= v < labels@.len() ==> (#[trigger] labels@[v])@ != label@,
        },
{
    let mut v: usize = 0;
    while v < labels.len()
        invariant
            v <= labels@.len(),
            forall|i: int| 0 <= i < v ==> (#[trigger] labels@[i])@ != label@,
        decreases labels@.len() - v,
    {
        if same(labels[v].as_slice(), label) {
            proof {
                lemma_index_of(texts(labels@), label@, v as int);
            }
            return Some(v);
        }
        v = v + 1;
    }
    proof {
        lemma_index_of(texts(labels@), label@, labels@.len() as int);
    }
    None
}

/// The number of the name `label` among `labels`, which is put behind them
/// where it is not among them. Returns also whether it was put there.
pub fn intern(labels: &mut Vec<Vec<u8>>, label: &[u8]) -> (r: (usize, bool))
    requires
        distinct(texts(old(labels)@)),
    ensures
        distinct(texts(final(labels)@)),
        r.0 == index_of(texts(old(labels)@), label@),
        r.1 == (r.0 == old(labels)@.len()),
        r.0 < final(labels)@.len(),
        texts(final(labels)@) == if r.1 {
            texts(old(labels)@).push(label@)
        } else {
            texts(old(labels)@)
        },
{
    match lookup(labels, label) {
        Some(v) => (v, false),
        None => {
            let v: usize = labels.len();
            labels.push(slice_to_vec(label));
            assert(texts(labels@) =~= texts(old(labels)@).push(label@));
            assert(distinct(texts(labels@))) by {
                assert forall|a: int, b: int| 0 <= a < b < labels@.len() implies texts(labels@)[a]
                    != texts(labels@)[b] by {
                    if b == v {
                        assert(old(labels)@[a]@ != label@);
                    } else {
                        assert(texts(old(labels)@)[a] != texts(old(labels)@)[b]);
                    }
                }
            }
            (v, true)
        },
    }
}

} // verus!
