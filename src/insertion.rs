//! Insertion sort, one comparison per step: the value at the front of the
//! unsorted region is carried leftwards, one exchange per step, until the
//! value before it is not larger.

use vstd::prelude::*;

use crate::algorithm::{lemma_done_exactly_after, run, Algorithm, Bar, Role};
use crate::sequence::{
    ascending, count_above, inversions, lemma_count_above_none, lemma_count_above_swap,
    lemma_swap_same_values, random_sequence, same_values, swap_values, swapped, DEFAULT_SIZE,
};

verus! {

/// The state of an insertion sort: the values, the front `i` of the unsorted
/// region, the position `j` that the value being inserted has reached, and
/// that value, `key`.
pub struct InsertionModel {
    pub values: Seq<u16>,
    pub i: int,
    pub j: int,
    pub key: u16,
}

/// The out-of-order pairs of `v` whose right position is `p` or later: for
/// each such position, the values before it that are larger.
pub open spec fn pairs_from(v: Seq<u16>, p: int) -> nat
    decreases v.len() - p,
{
    if p < 0 || p >= v.len() {
        0
    } else {
        count_above(v.take(p), v[p]) + pairs_from(v, p + 1)
    }
}

/// Exchanging two neighbours before position `p` leaves the pairs from `p`
/// as many as they were.
proof fn lemma_pairs_from_swap(v: Seq<u16>, a: int, p: int)
    requires
        0 <= a,
        a + 1 < p,
        p <= v.len(),
    ensures
        pairs_from(swapped(v, a, a + 1), p) == pairs_from(v, p),
    decreases v.len() - p,
{
    let w = swapped(v, a, a + 1);
    if p < v.len() {
        assert(w.take(p) =~= swapped(v.take(p), a, a + 1));
        assert(w[p] == v[p]);
        lemma_count_above_swap(v.take(p), a, v[p]);
        lemma_pairs_from_swap(v, a, p + 1);
    }
}

/// Splitting off the last value: its own pairs are the values before it that
/// are larger.
proof fn lemma_pairs_from_last(s: Seq<u16>, p: int)
    requires
        0 <= p < s.len(),
    ensures
        pairs_from(s, p) == pairs_from(s.drop_last(), p) + count_above(s.drop_last(), s.last()),
    decreases s.len() - p,
{
    let d = s.drop_last();
    if p == s.len() - 1 {
        assert(s.take(p) =~= d);
        assert(pairs_from(s, p + 1) == 0);
        assert(pairs_from(d, p) == 0);
        assert(pairs_from(s, p) == count_above(s.take(p), s[p]) + pairs_from(s, p + 1));
    } else {
        assert(s.take(p) =~= d.take(p));
        assert(d[p] == s[p]);
        lemma_pairs_from_last(s, p + 1);
        assert(pairs_from(s, p) == count_above(s.take(p), s[p]) + pairs_from(s, p + 1));
        assert(pairs_from(d, p) == count_above(d.take(p), d[p]) + pairs_from(d, p + 1));
    }
}

/// Counting pairs by their right position gives the inversions.
proof fn lemma_inversions_pairs_from(s: Seq<u16>)
    ensures
        inversions(s) == pairs_from(s, 0),
    decreases s.len(),
{
    if s.len() > 0 {
        lemma_inversions_pairs_from(s.drop_last());
        lemma_pairs_from_last(s, 0);
    }
}

/// From its start, insertion sort on `n >= 2` values is done after exactly
/// one exchange per out-of-order pair plus one step per position after the
/// first.
pub proof fn lemma_insertion_step_count(m: InsertionModel)
    requires
        InsertionSort::at_start(m),
        2 <= m.values.len() <= u16::MAX,
    ensures
        InsertionSort::measure(m) == inversions(m.values) + m.values.len() - 1,
        forall|k: nat|
            InsertionSort::done(#[trigger] run::<InsertionSort>(m, k)) <==> k >= inversions(
                m.values,
            ) + m.values.len() - 1,
{
    let v = m.values;
    lemma_inversions_pairs_from(v);
    assert(v.take(0) =~= Seq::<u16>::empty());
    assert(count_above(v.take(0), v[0]) == 0);
    assert(pairs_from(v, 0) == pairs_from(v, 1));
    assert(pairs_from(v, 1) == count_above(v.take(1), v[1]) + pairs_from(v, 2));
    assert forall|k: nat|
        InsertionSort::done(#[trigger] run::<InsertionSort>(m, k)) <==> k >= inversions(v)
            + v.len() - 1 by {
        lemma_done_exactly_after::<InsertionSort>(m, k);
    }
}

pub struct InsertionSort {
    vector: Vec<u16>,
    key: u16,
    i: usize,
    j: usize,
}

impl View for InsertionSort {
    type V = InsertionModel;

    closed spec fn view(&self) -> InsertionModel {
        InsertionModel { values: self.vector@, i: self.i as int, j: self.j as int, key: self.key }
    }
}

impl InsertionSort {
    /// An engine on a fresh random ordering of the default number of values.
    pub fn new() -> (r: Self)
        ensures
            Self::at_start(r@),
            Self::wf(r@),
            same_values(Self::elems(r@), ascending(DEFAULT_SIZE as nat)),
            !Self::done(r@),
    {
        let r = Self::from_values(random_sequence(DEFAULT_SIZE));
        proof {
            Self::lemma_start(r@, r@);
        }
        r
    }

    /// An engine at its start on the given values.
    pub fn from_values(values: Vec<u16>) -> (r: Self)
        requires
            values@.len() <= u16::MAX,
        ensures
            Self::at_start(r@),
            Self::elems(r@) == values@,
            Self::wf(r@),
    {
        let r = Self::start(values);
        proof {
            Self::lemma_start(r@, r@);
        }
        r
    }

    /// The cursor of a fresh engine: the first value is a sorted prefix on
    /// its own, so insertion begins with the second.
    fn start(values: Vec<u16>) -> (r: Self)
        ensures
            Self::at_start(r@),
            Self::elems(r@) == values@,
    {
        let n = values.len();
        if n >= 2 {
            let key = values[1];
            InsertionSort { vector: values, key, i: 1, j: 1 }
        } else {
            InsertionSort { vector: values, key: 0, i: n, j: n }
        }
    }
}

impl Algorithm for InsertionSort {
    open spec fn elems(m: InsertionModel) -> Seq<u16> {
        m.values
    }

    open spec fn wf(m: InsertionModel) -> bool {
        let v = m.values;
        let n = v.len() as int;
        &&& n <= u16::MAX
        &&& 0 <= m.i <= n
        &&& m.i == n ==> m.j == n && forall|a: int, b: int| 0 <= a < b < n ==> v[a] <= v[b]
        &&& m.i < n ==> {
            &&& 1 <= m.i
            &&& 0 <= m.j <= m.i
            &&& v[m.j] == m.key
            &&& forall|a: int, b: int|
                0 <= a < b <= m.i && a != m.j && b != m.j ==> v[a] <= v[b]
            &&& forall|k: int| m.j < k <= m.i ==> #[trigger] v[k] > m.key
        }
    }

    open spec fn done(m: InsertionModel) -> bool {
        m.i >= m.values.len()
    }

    open spec fn next(m: InsertionModel) -> InsertionModel {
        let v = m.values;
        if m.i >= v.len() {
            m
        } else if m.j > 0 && v[m.j - 1] > m.key {
            InsertionModel { values: swapped(v, m.j - 1, m.j), j: m.j - 1, ..m }
        } else if m.i + 1 < v.len() {
            InsertionModel { i: m.i + 1, j: m.i + 1, key: v[m.i + 1], ..m }
        } else {
            InsertionModel { i: m.i + 1, j: m.i + 1, ..m }
        }
    }

    open spec fn measure(m: InsertionModel) -> nat {
        let n = m.values.len() as int;
        if m.i >= n {
            0
        } else {
            (count_above(m.values.take(m.j), m.key) + (n - m.i) + pairs_from(m.values, m.i + 1)) as nat
        }
    }

    open spec fn at_start(m: InsertionModel) -> bool {
        if m.values.len() >= 2 {
            m.i == 1 && m.j == 1 && m.key == m.values[1]
        } else {
            m.i == m.values.len() && m.j == m.values.len() && m.key == 0
        }
    }

    open spec fn role(m: InsertionModel, k: int) -> Role {
        if k == m.j || k + 1 == m.j {
            Role::Compared
        } else if k < m.i {
            Role::Sorted
        } else {
            Role::Unsorted
        }
    }

    proof fn lemma_next(m: InsertionModel) {
        let v = m.values;
        let n = v.len() as int;
        let r = Self::next(m);
        let w = r.values;
        if m.i >= n {
        } else if m.j > 0 && v[m.j - 1] > m.key {
            let j = m.j;
            lemma_swap_same_values(v, j - 1, j);
            assert(w[j - 1] == m.key);
            assert(w[j] == v[j - 1]);
            assert forall|a: int, b: int|
                0 <= a < b <= m.i && a != j - 1 && b != j - 1 implies w[a] <= w[b] by {
                let a0 = if a == j { j - 1 } else { a };
                let b0 = if b == j { j - 1 } else { b };
                assert(w[a] == v[a0]);
                assert(w[b] == v[b0]);
            }
            assert forall|k: int| j - 1 < k <= m.i implies #[trigger] w[k] > m.key by {
                if k != j {
                    assert(w[k] == v[k]);
                }
            }
            assert(w.take(j - 1) =~= v.take(j - 1));
            assert(v.take(j).drop_last() =~= v.take(j - 1));
            assert(count_above(v.take(j), m.key) == count_above(v.take(j - 1), m.key) + 1);
            lemma_pairs_from_swap(v, j - 1, m.i + 1);
        } else {
            let j = m.j;
            assert forall|a: int, b: int| 0 <= a < b <= m.i implies v[a] <= v[b] by {
                if a == j {
                    assert(v[b] > m.key);
                } else if b == j {
                    assert(v[j - 1] <= m.key);
                    if a < j - 1 {
                        assert(v[a] <= v[j - 1]);
                    }
                }
            }
            assert forall|k: int| 0 <= k < v.take(j).len() implies #[trigger] v.take(j)[k]
                <= m.key by {
                assert(v[j - 1] <= m.key);
                if k < j - 1 {
                    assert(v[k] <= v[j - 1]);
                }
            }
            lemma_count_above_none(v.take(j), m.key);
            assert(pairs_from(v, m.i + 1) == if m.i + 1 < n {
                count_above(v.take(m.i + 1), v[m.i + 1]) + pairs_from(v, m.i + 2)
            } else {
                0
            });
        }
    }

    proof fn lemma_done_sorted(m: InsertionModel) {
    }

    proof fn lemma_start(m: InsertionModel, other: InsertionModel) {
    }

    fn step(&mut self) {
        let n = self.vector.len();
        if self.i >= n {
            return;
        }
        if self.j > 0 && self.vector[self.j - 1] > self.key {
            swap_values(&mut self.vector, self.j - 1, self.j);
            self.j = self.j - 1;
        } else {
            self.i = self.i + 1;
            self.j = self.i;
            if self.i < n {
                self.key = self.vector[self.i];
            }
        }
    }

    fn is_done(&self) -> (r: bool) {
        self.i >= self.vector.len()
    }

    fn reset(&mut self) {
        let n = self.vector.len() as u16;
        *self = Self::start(random_sequence(n));
        proof {
            Self::lemma_start(self@, self@);
        }
    }

    fn values(&self) -> (r: &Vec<u16>) {
        &self.vector
    }

    fn render_state(&self) -> (r: Vec<Bar>) {
        let mut bars: Vec<Bar> = Vec::new();
        let mut k: usize = 0;
        while k < self.vector.len()
            invariant
                Self::wf(self@),
                k <= self.vector@.len(),
                bars@.len() == k,
                forall|x: int|
                    0 <= x < k ==> (#[trigger] bars@[x]) == (Bar {
                        value: Self::elems(self@)[x],
                        role: Self::role(self@, x),
                    }),
            decreases self.vector@.len() - k,
        {
            let role = if k == self.j || k + 1 == self.j {
                Role::Compared
            } else if k < self.i {
                Role::Sorted
            } else {
                Role::Unsorted
            };
            bars.push(Bar { value: self.vector[k], role });
            k = k + 1;
        }
        bars
    }
}

} // verus!
