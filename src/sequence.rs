//! The sequence being sorted: facts about order and permutations, the swap
//! that is the only way the engines change it, and fresh random sequences.

use vstd::prelude::*;

verus! {

/// The number of bars the visualiser shows.
pub const DEFAULT_SIZE: u16 = 80;

/// `s` is in non-decreasing order.
pub open spec fn sorted(s: Seq<u16>) -> bool {
    forall|a: int, b: int| 0 <= a < b < s.len() ==> s[a] <= s[b]
}

/// `a` and `b` hold the same values, each as often.
pub open spec fn same_values(a: Seq<u16>, b: Seq<u16>) -> bool {
    a.to_multiset() == b.to_multiset()
}

/// The values `1, 2, ..., n` in ascending order.
pub open spec fn ascending(n: nat) -> Seq<u16> {
    Seq::new(n, |k: int| (k + 1) as u16)
}

/// `s` with the values at positions `a` and `b` exchanged.
pub open spec fn swapped(s: Seq<u16>, a: int, b: int) -> Seq<u16> {
    s.update(a, s[b]).update(b, s[a])
}

/// Exchanging two values keeps the same values.
pub proof fn lemma_swap_same_values(s: Seq<u16>, a: int, b: int)
    requires
        0 <= a < s.len(),
        0 <= b < s.len(),
    ensures
        same_values(swapped(s, a, b), s),
        swapped(s, a, b).len() == s.len(),
{
    broadcast use vstd::seq_lib::to_multiset_update;
    broadcast use vstd::multiset::group_multiset_axioms;
    broadcast use vstd::seq_lib::to_multiset_contains;

    let t = s.update(a, s[b]);
    assert(t[b] == if a == b { s[b] } else { s[b] });
    assert(t.to_multiset() == s.to_multiset().insert(s[b]).remove(s[a]));
    assert(swapped(s, a, b).to_multiset() == t.to_multiset().insert(s[a]).remove(t[b]));
    assert(s.contains(s[a]));
    assert(s.contains(s[b]));
    let m = s.to_multiset();
    assert(m.count(s[a]) > 0);
    assert(m.count(s[b]) > 0);
    assert(swapped(s, a, b).to_multiset() =~= m);
}

/// The number of values in `s` larger than `x`.
pub open spec fn count_above(s: Seq<u16>, x: u16) -> nat
    decreases s.len(),
{
    if s.len() == 0 {
        0
    } else {
        count_above(s.drop_last(), x) + if s.last() > x { 1nat } else { 0nat }
    }
}

/// The number of pairs of positions of `s` whose values are out of order.
pub open spec fn inversions(s: Seq<u16>) -> nat
    decreases s.len(),
{
    if s.len() == 0 {
        0
    } else {
        inversions(s.drop_last()) + count_above(s.drop_last(), s.last())
    }
}

/// Exchanging two neighbours does not change how many values exceed `x`.
pub proof fn lemma_count_above_swap(s: Seq<u16>, k: int, x: u16)
    requires
        0 <= k,
        k + 1 < s.len(),
    ensures
        count_above(swapped(s, k, k + 1), x) == count_above(s, x),
    decreases s.len(),
{
    let t = swapped(s, k, k + 1);
    if s.len() == k + 2 {
        let p = s.drop_last().drop_last();
        assert(t.drop_last().drop_last() =~= p);
        assert(t.drop_last().last() == s.last());
        assert(t.last() == s.drop_last().last());
        assert(count_above(s.drop_last(), x) == count_above(p, x) + if s[k] > x { 1nat } else { 0nat });
        assert(count_above(t.drop_last(), x) == count_above(p, x) + if s[k + 1] > x { 1nat } else { 0nat });
    } else {
        assert(t.drop_last() =~= swapped(s.drop_last(), k, k + 1));
        assert(t.last() == s.last());
        lemma_count_above_swap(s.drop_last(), k, x);
    }
}

/// Exchanging two neighbours that are out of order removes one inversion.
pub proof fn lemma_inversions_swap(s: Seq<u16>, k: int)
    requires
        0 <= k,
        k + 1 < s.len(),
        s[k] > s[k + 1],
    ensures
        inversions(swapped(s, k, k + 1)) + 1 == inversions(s),
    decreases s.len(),
{
    let t = swapped(s, k, k + 1);
    if s.len() == k + 2 {
        let p = s.drop_last().drop_last();
        let a = s[k];
        let b = s[k + 1];
        assert(t.drop_last().drop_last() =~= p);
        assert(t.drop_last().last() == b);
        assert(t.last() == a);
        assert(s.drop_last().last() == a);
        assert(s.last() == b);
        assert(inversions(s.drop_last()) == inversions(p) + count_above(p, a));
        assert(inversions(t.drop_last()) == inversions(p) + count_above(p, b));
        assert(count_above(s.drop_last(), b) == count_above(p, b) + 1);
        assert(count_above(t.drop_last(), a) == count_above(p, a));
    } else {
        assert(t.drop_last() =~= swapped(s.drop_last(), k, k + 1));
        assert(t.last() == s.last());
        lemma_inversions_swap(s.drop_last(), k);
        lemma_count_above_swap(s.drop_last(), k, s.last());
    }
}

/// No value of `s` exceeds `x` when every value is at most `x`.
pub proof fn lemma_count_above_none(s: Seq<u16>, x: u16)
    requires
        forall|k: int| 0 <= k < s.len() ==> #[trigger] s[k] <= x,
    ensures
        count_above(s, x) == 0,
    decreases s.len(),
{
    if s.len() > 0 {
        lemma_count_above_none(s.drop_last(), x);
    }
}

/// A sorted sequence has no inversions.
pub proof fn lemma_sorted_no_inversions(s: Seq<u16>)
    requires
        sorted(s),
    ensures
        inversions(s) == 0,
    decreases s.len(),
{
    if s.len() > 0 {
        let d = s.drop_last();
        assert(sorted(d));
        lemma_sorted_no_inversions(d);
        assert forall|k: int| 0 <= k < d.len() implies #[trigger] d[k] <= s.last() by {
            assert(s[k] <= s[s.len() - 1]);
        }
        lemma_count_above_none(d, s.last());
    }
}

/// Exchanges the values at positions `a` and `b` of `v` and returns `true`;
/// when either position is outside `v`, leaves `v` as it is and returns
/// `false`.
pub fn swap_values(v: &mut Vec<u16>, a: usize, b: usize) -> (r: bool)
    ensures
        r == (a < old(v)@.len() && b < old(v)@.len()),
        r ==> final(v)@ == swapped(old(v)@, a as int, b as int),
        !r ==> final(v)@ == old(v)@,
        same_values(final(v)@, old(v)@),
        final(v)@.len() == old(v)@.len(),
{
    if a >= v.len() || b >= v.len() {
        return false;
    }
    proof {
        lemma_swap_same_values(v@, a as int, b as int);
    }
    let x = v[a];
    let y = v[b];
    v[a] = y;
    v[b] = x;
    true
}

/// Relies on rand's `SliceRandom::shuffle` with `thread_rng`: it only swaps
/// elements of the vector, so the result holds the same values.
#[verifier::external_body]
fn shuffle(v: Vec<u16>) -> (r: Vec<u16>)
    ensures
        same_values(r@, v@),
        r@.len() == v@.len(),
{
    let mut v = v;
    rand::seq::SliceRandom::shuffle(v.as_mut_slice(), &mut rand::thread_rng());
    v
}

/// The values `1..=n` in ascending order.
pub fn ascending_values(n: u16) -> (r: Vec<u16>)
    ensures
        r@ == ascending(n as nat),
{
    let mut v: Vec<u16> = Vec::new();
    let mut k: u16 = 0;
    while k < n
        invariant
            k <= n,
            v@ == ascending(k as nat),
        decreases n - k,
    {
        v.push(k + 1);
        k = k + 1;
        assert(v@ =~= ascending(k as nat));
    }
    v
}

/// A random ordering of the values `1..=n`.
pub fn random_sequence(n: u16) -> (r: Vec<u16>)
    ensures
        same_values(r@, ascending(n as nat)),
        r@.len() == n,
{
    shuffle(ascending_values(n))
}

} // verus!
