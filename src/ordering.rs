use vstd::prelude::*;
use vstd::multiset::Multiset;
use vstd::seq_lib::{to_multiset_build, to_multiset_insert};

verus! {

/// Byte-wise lexicographic order: `a` is a prefix of `b`, or at the first
/// byte where they differ `a` holds the smaller byte.
pub open spec fn bytes_le(a: Seq<u8>, b: Seq<u8>) -> bool
    decreases a.len(),
{
    if a.len() == 0 {
        true
    } else if b.len() == 0 {
        false
    } else if a[0] != b[0] {
        a[0] < b[0]
    } else {
        bytes_le(a.skip(1), b.skip(1))
    }
}

/// Of two byte strings one is at most the other.
pub proof fn lemma_bytes_le_total(a: Seq<u8>, b: Seq<u8>)
    ensures
        bytes_le(a, b) || bytes_le(b, a),
    decreases a.len(),
{
    if a.len() > 0 && b.len() > 0 && a[0] == b[0] {
        lemma_bytes_le_total(a.skip(1), b.skip(1));
    }
}

/// The byte-wise order is transitive.
pub proof fn lemma_bytes_le_transitive(a: Seq<u8>, b: Seq<u8>, c: Seq<u8>)
    requires
        bytes_le(a, b),
        bytes_le(b, c),
    ensures
        bytes_le(a, c),
    decreases a.len(),
{
    if a.len() > 0 && b.len() > 0 && c.len() > 0 && a[0] == b[0] && b[0] == c[0] {
        lemma_bytes_le_transitive(a.skip(1), b.skip(1), c.skip(1));
    }
}

/// Every byte string is at most itself.
pub proof fn lemma_bytes_le_reflexive(a: Seq<u8>)
    ensures
        bytes_le(a, a),
    decreases a.len(),
{
    if a.len() > 0 {
        lemma_bytes_le_reflexive(a.skip(1));
    }
}

/// Whether `a` comes no later than `b` in byte-wise lexicographic order.
pub fn bytes_less_eq(a: &Vec<u8>, b: &Vec<u8>) -> (r: bool)
    ensures
        r == bytes_le(a@, b@),
{
    let n = a.len();
    let m = b.len();
    let mut i: usize = 0;
    assert(a@.skip(0) =~= a@ && b@.skip(0) =~= b@);
    while i < n && i < m && a[i] == b[i]
        invariant
            n == a@.len(),
            m == b@.len(),
            i <= n,
            i <= m,
            bytes_le(a@, b@) == bytes_le(a@.skip(i as int), b@.skip(i as int)),
        decreases n - i,
    {
        assert(a@.skip(i as int).skip(1) =~= a@.skip(i + 1));
        assert(b@.skip(i as int).skip(1) =~= b@.skip(i + 1));
        i = i + 1;
    }
    if i == n {
        true
    } else if i == m {
        false
    } else {
        a[i] < b[i]
    }
}

/// Every path comes no later than the next one.
pub open spec fn paths_sorted(s: Seq<Vec<u8>>) -> bool {
    forall|i: int| 0 <= i < s.len() - 1 ==> bytes_le(#[trigger] s[i]@, s[i + 1]@)
}

/// In a sorted sequence of paths every path comes no later than any path after it.
pub proof fn lemma_sorted_pairs(s: Seq<Vec<u8>>, i: int, j: int)
    requires
        paths_sorted(s),
        0 <= i <= j < s.len(),
    ensures
        bytes_le(s[i]@, s[j]@),
    decreases j - i,
{
    if i == j {
        lemma_bytes_le_reflexive(s[i]@);
    } else {
        lemma_sorted_pairs(s, i, j - 1);
        lemma_bytes_le_transitive(s[i]@, s[j - 1]@, s[j]@);
    }
}

/// The paths in byte-wise lexicographic order, independent of locale and of
/// the order in which they were found.
pub fn sort_paths(paths: Vec<Vec<u8>>) -> (r: Vec<Vec<u8>>)
    ensures
        paths_sorted(r@),
        r@.to_multiset() == paths@.to_multiset(),
{
    let ghost all = paths@;
    let mut rest = paths;
    let mut out: Vec<Vec<u8>> = Vec::new();
    proof {
        broadcast use vstd::seq_lib::group_to_multiset_ensures;
        broadcast use vstd::multiset::group_multiset_axioms;

        assert(out@.to_multiset() =~= Multiset::<Vec<u8>>::empty());
    }
    while rest.len() > 0
        invariant
            paths_sorted(out@),
            out@.to_multiset().add(rest@.to_multiset()) == all.to_multiset(),
        decreases rest@.len(),
    {
        let ghost before = rest@;
        let x = rest.pop().unwrap();
        proof {
            assert(before =~= rest@.push(x));
            to_multiset_build(rest@, x);
        }
        let mut k: usize = out.len();
        while k > 0 && !bytes_less_eq(&out[k - 1], &x)
            invariant
                k <= out@.len(),
                paths_sorted(out@),
                forall|j: int| k <= j < out@.len() ==> !bytes_le(#[trigger] out@[j]@, x@),
            decreases k,
        {
            k = k - 1;
        }
        let ghost old_out = out@;
        proof {
            if k < old_out.len() {
                lemma_bytes_le_total(old_out[k as int]@, x@);
            }
            to_multiset_insert(old_out, k as int, x);
        }
        out.insert(k, x);
        proof {
            assert forall|i: int| 0 <= i < out@.len() - 1 implies bytes_le(#[trigger] out@[i]@, out@[i + 1]@) by {
                if i < k - 1 {
                    assert(out@[i] == old_out[i] && out@[i + 1] == old_out[i + 1]);
                } else if i == k - 1 {
                    assert(out@[i] == old_out[i] && out@[i + 1] == x);
                } else if i == k {
                    assert(out@[i] == x && out@[i + 1] == old_out[i]);
                } else {
                    assert(out@[i] == old_out[i - 1] && out@[i + 1] == old_out[i]);
                }
            }
            assert(out@.to_multiset().add(rest@.to_multiset()) =~= all.to_multiset());
        }
    }
    proof {
        assert(rest@ =~= Seq::<Vec<u8>>::empty());
        assert(out@.to_multiset().add(rest@.to_multiset()) =~= out@.to_multiset());
    }
    out
}

} // verus!
