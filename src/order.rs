//! Ordering of migration versions.
use vstd::prelude::*;
use vstd::multiset::Multiset;
use vstd::seq_lib::lemma_multiset_commutative;
use crate::text::{lemma_text_le_transitive, lemma_text_lt_asymmetric, lemma_text_lt_irreflexive, lemma_text_lt_total, text_le, text_less, text_lt};

verus! {

broadcast use vstd::seq_lib::group_to_multiset_ensures;

/// Versions in ascending lexicographic order.
pub open spec fn versions_sorted(s: Seq<String>) -> bool {
    forall|i: int, j: int| 0 <= i < j < s.len() ==> text_le(#[trigger] s[i]@, #[trigger] s[j]@)
}

/// Versions in strictly ascending lexicographic order.
pub open spec fn versions_strictly_sorted(s: Seq<String>) -> bool {
    forall|i: int, j: int| 0 <= i < j < s.len() ==> text_lt(#[trigger] s[i]@, #[trigger] s[j]@)
}

/// A value that carries a migration version.
pub trait Versioned {
    /// The version carried.
    spec fn version_view(&self) -> Seq<char>;

    /// The version carried, as text.
    fn version_str(&self) -> (r: &str)
        ensures
            r@ == self.version_view(),
    ;
}

impl Versioned for String {
    open spec fn version_view(&self) -> Seq<char> {
        self@
    }

    fn version_str(&self) -> (r: &str) {
        self.as_str()
    }
}

/// Items in ascending order of their versions.
pub open spec fn sorted_by_version<T: Versioned>(s: Seq<T>) -> bool {
    forall|i: int, j: int|
        0 <= i < j < s.len() ==> text_le(#[trigger] s[i].version_view(), #[trigger] s[j].version_view())
}

/// Items in strictly ascending order of their versions.
pub open spec fn strictly_sorted_by_version<T: Versioned>(s: Seq<T>) -> bool {
    forall|i: int, j: int|
        0 <= i < j < s.len() ==> text_lt(#[trigger] s[i].version_view(), #[trigger] s[j].version_view())
}

proof fn lemma_insert_multiset<T>(s: Seq<T>, p: int, x: T)
    requires
        0 <= p <= s.len(),
    ensures
        s.insert(p, x).to_multiset() =~= s.to_multiset().insert(x),
{
    let a = s.subrange(0, p);
    let b = s.subrange(p, s.len() as int);
    lemma_multiset_commutative(a.push(x), b);
    lemma_multiset_commutative(a, b);
    assert(s =~= a + b);
}

/// Sorts items into ascending order of their versions.
pub fn sort_by_version<T: Versioned>(v: Vec<T>) -> (r: Vec<T>)
    ensures
        r@.to_multiset() == v@.to_multiset(),
        sorted_by_version(r@),
{
    let mut out: Vec<T> = Vec::new();
    let mut rest = v;
    while rest.len() > 0
        invariant
            out@.to_multiset().add(rest@.to_multiset()) == v@.to_multiset(),
            sorted_by_version(out@),
        decreases rest.len(),
    {
        let ghost before = rest@;
        let x = rest.pop().unwrap();
        assert(before =~= rest@.push(x));
        let mut p: usize = 0;
        while p < out.len() && !text_less(x.version_str(), out[p].version_str())
            invariant
                p <= out@.len(),
                forall|q: int| 0 <= q < p ==> text_le(#[trigger] out@[q].version_view(), x.version_view()),
            decreases out.len() - p,
        {
            proof {
                lemma_text_lt_total(x.version_view(), out@[p as int].version_view());
            }
            p = p + 1;
        }
        let ghost old_out = out@;
        proof {
            lemma_insert_multiset(old_out, p as int, x);
        }
        out.insert(p, x);
        assert(out@ == old_out.insert(p as int, x));
        assert forall|i: int, j: int| 0 <= i < j < out@.len() implies text_le(
            #[trigger] out@[i].version_view(),
            #[trigger] out@[j].version_view(),
        ) by {
            if j < p {
                assert(out@[i] == old_out[i] && out@[j] == old_out[j]);
            } else if j == p {
                assert(out@[i] == old_out[i]);
            } else if i > p {
                assert(out@[i] == old_out[i - 1] && out@[j] == old_out[j - 1]);
            } else if i == p {
                assert(out@[j] == old_out[j - 1]);
                assert(text_lt(x.version_view(), old_out[p as int].version_view()));
                if j - 1 > p {
                    lemma_text_le_transitive(
                        x.version_view(),
                        old_out[p as int].version_view(),
                        old_out[j - 1].version_view(),
                    );
                }
            } else {
                assert(out@[i] == old_out[i] && out@[j] == old_out[j - 1]);
                assert(text_le(old_out[i].version_view(), x.version_view()));
                assert(text_lt(x.version_view(), old_out[p as int].version_view()));
                lemma_text_le_transitive(old_out[i].version_view(), x.version_view(), old_out[p as int].version_view());
                if j - 1 > p {
                    lemma_text_le_transitive(
                        old_out[i].version_view(),
                        old_out[p as int].version_view(),
                        old_out[j - 1].version_view(),
                    );
                }
            }
        }
    }
    assert(rest@ =~= Seq::<T>::empty());
    assert(rest@.to_multiset() =~= Multiset::<T>::empty());
    out
}

/// Sorts versions into ascending order.
pub fn sort_versions(v: Vec<String>) -> (r: Vec<String>)
    ensures
        r@.to_multiset() == v@.to_multiset(),
        versions_sorted(r@),
{
    let r = sort_by_version(v);
    assert forall|i: int, j: int| 0 <= i < j < r@.len() implies text_le(#[trigger] r@[i]@, #[trigger] r@[j]@) by {
        assert(text_le(r@[i].version_view(), r@[j].version_view()));
    }
    r
}

/// Two distinct positions of a sequence have counterparts at two distinct
/// positions of any sequence with the same elements.
pub proof fn lemma_two_positions<T>(s: Seq<T>, t: Seq<T>, i: int, j: int) -> (ab: (int, int))
    requires
        s.to_multiset() == t.to_multiset(),
        0 <= i < s.len(),
        0 <= j < s.len(),
        i != j,
    ensures
        0 <= ab.0 < t.len() && 0 <= ab.1 < t.len() && ab.0 != ab.1,
        t[ab.0] == s[i] && t[ab.1] == s[j],
{
    assert(s.contains(s[i]));
    assert(s.to_multiset().count(s[i]) > 0);
    assert(t.to_multiset().count(s[i]) > 0);
    assert(t.contains(s[i]));
    let a = choose|a: int| 0 <= a < t.len() && t[a] == s[i];
    let si = s.remove(i);
    let ta = t.remove(a);
    assert(si.to_multiset() == s.to_multiset().remove(s[i]));
    assert(ta.to_multiset() == t.to_multiset().remove(t[a]));
    let j2 = if j < i { j } else { j - 1 };
    assert(si[j2] == s[j]);
    assert(si.contains(s[j]));
    assert(si.to_multiset().count(s[j]) > 0);
    assert(ta.to_multiset().count(s[j]) > 0);
    assert(ta.contains(s[j]));
    let b2 = choose|b2: int| 0 <= b2 < ta.len() && ta[b2] == s[j];
    let b = if b2 < a { b2 } else { b2 + 1 };
    assert(t[b] == ta[b2]);
    (a, b)
}

/// A strictly sorted sequence is the only sorted arrangement of its elements.
pub proof fn lemma_sorted_arrangement_unique(a: Seq<String>, b: Seq<String>)
    requires
        versions_strictly_sorted(a),
        versions_sorted(b),
        a.to_multiset() == b.to_multiset(),
    ensures
        a == b,
    decreases a.len(),
{
    if a.len() == 0 {
        assert(b.to_multiset().len() == 0);
        assert(b =~= a);
        return;
    }
    assert(a.to_multiset().len() == a.len());
    assert(b.to_multiset().len() == b.len());
    assert(b.len() == a.len());
    assert(a.contains(a[0]));
    assert(a.to_multiset().count(a[0]) > 0);
    assert(b.contains(a[0]));
    let j = choose|j: int| 0 <= j < b.len() && b[j] == a[0];
    assert(b.contains(b[0]));
    assert(b.to_multiset().count(b[0]) > 0);
    assert(a.to_multiset().count(b[0]) > 0);
    assert(a.contains(b[0]));
    let i = choose|i: int| 0 <= i < a.len() && a[i] == b[0];
    if i > 0 {
        assert(text_lt(a[0]@, a[i]@));
        if j > 0 {
            assert(text_le(b[0]@, b[j]@));
            if text_lt(b[0]@, b[j]@) {
                lemma_text_lt_asymmetric(a[0]@, b[0]@);
            } else {
                lemma_text_lt_irreflexive(a[0]@);
            }
        } else {
            lemma_text_lt_irreflexive(a[0]@);
        }
    }
    assert(b[0] == a[0]);
    let a1 = a.drop_first();
    let b1 = b.drop_first();
    assert(a.remove(0) =~= a1);
    assert(b.remove(0) =~= b1);
    assert(a1.to_multiset() =~= b1.to_multiset());
    assert forall|x: int, y: int| 0 <= x < y < a1.len() implies text_lt(#[trigger] a1[x]@, #[trigger] a1[y]@) by {
        assert(a1[x] == a[x + 1] && a1[y] == a[y + 1]);
    }
    assert forall|x: int, y: int| 0 <= x < y < b1.len() implies text_le(#[trigger] b1[x]@, #[trigger] b1[y]@) by {
        assert(b1[x] == b[x + 1] && b1[y] == b[y + 1]);
    }
    lemma_sorted_arrangement_unique(a1, b1);
    assert forall|k: int| 0 <= k < a.len() implies a[k] == b[k] by {
        if k > 0 {
            assert(a[k] == a1[k - 1] && b[k] == b1[k - 1]);
        }
    }
    assert(a =~= b);
}

} // verus!
