//! Selection sort, one comparison per step: scan the unsorted region for its
//! smallest value, then exchange it with the region's first position.

use vstd::prelude::*;

use crate::algorithm::{lemma_done_exactly_after, run, Algorithm, Bar, Role};
use crate::sequence::{
    ascending, random_sequence, same_values, swap_values, swapped, lemma_swap_same_values,
    DEFAULT_SIZE,
};

verus! {

/// The state of a selection sort: the values, the start `i` of the unsorted
/// region, the scan cursor `j` and the position `smallest` of the least value
/// seen in `[i, j)`.
pub struct SelectionModel {
    pub values: Seq<u16>,
    pub i: int,
    pub j: int,
    pub smallest: int,
}

/// The steps of the passes that start at positions `i..n`: a pass from `i`
/// compares `n - i` times and then exchanges once.
pub open spec fn selection_passes(n: int, i: int) -> nat
    decreases n - i,
{
    if i >= n {
        0
    } else {
        (n - i + 1) as nat + selection_passes(n, i + 1)
    }
}

proof fn lemma_selection_passes(n: int, i: int)
    requires
        0 <= i <= n,
    ensures
        2 * selection_passes(n, i) == (n - i) * (n - i + 1) + 2 * (n - i),
    decreases n - i,
{
    if i < n {
        lemma_selection_passes(n, i + 1);
        let p = selection_passes(n, i);
        let q = selection_passes(n, i + 1);
        assert(p == (n - i + 1) + q);
        assert(2 * p == (n - i) * (n - i + 1) + 2 * (n - i)) by (nonlinear_arith)
            requires
                2 * q == (n - (i + 1)) * (n - (i + 1) + 1) + 2 * (n - (i + 1)),
                p == (n - i + 1) + q,
        ;
    } else {
        assert(selection_passes(n, i) == 0);
        assert((n - i) * (n - i + 1) == 0) by (nonlinear_arith)
            requires
                n - i == 0,
        ;
    }
}

/// From its start, selection sort on `n` values is done after exactly
/// `n * (n + 1) / 2 + n` steps, whatever the values.
pub proof fn lemma_selection_step_count(m: SelectionModel)
    requires
        SelectionSort::at_start(m),
        m.values.len() <= u16::MAX,
    ensures
        2 * SelectionSort::measure(m) == m.values.len() * (m.values.len() + 1) + 2
            * m.values.len(),
        forall|k: nat|
            SelectionSort::done(#[trigger] run::<SelectionSort>(m, k)) <==> 2 * k
                >= m.values.len() * (m.values.len() + 1) + 2 * m.values.len(),
{
    let n = m.values.len() as int;
    SelectionSort::lemma_start(m, m);
    lemma_selection_passes(n, 0);
    assert forall|k: nat|
        SelectionSort::done(#[trigger] run::<SelectionSort>(m, k)) <==> 2 * k >= n * (n + 1) + 2
            * n by {
        lemma_done_exactly_after::<SelectionSort>(m, k);
    }
}

pub struct SelectionSort {
    vector: Vec<u16>,
    i: usize,
    j: usize,
    smallest: usize,
}

impl View for SelectionSort {
    type V = SelectionModel;

    closed spec fn view(&self) -> SelectionModel {
        SelectionModel {
            values: self.vector@,
            i: self.i as int,
            j: self.j as int,
            smallest: self.smallest as int,
        }
    }
}

impl SelectionSort {
    /// An engine on a fresh random ordering of the default number of values.
    pub fn new() -> (r: Self)
        ensures
            Self::at_start(r@),
            Self::wf(r@),
            same_values(Self::elems(r@), ascending(DEFAULT_SIZE as nat)),
            !Self::done(r@),
    {
        let r = Self::from_values(random_sequence(DEFAULT_SIZE));
        proof {
            Self::lemma_start(r@, r@);
        }
        r
    }

    /// An engine at its start on the given values.
    pub fn from_values(values: Vec<u16>) -> (r: Self)
        requires
            values@.len() <= u16::MAX,
        ensures
            r@ == (SelectionModel { values: values@, i: 0, j: 0, smallest: 0 }),
            Self::wf(r@),
    {
        let r = SelectionSort { vector: values, i: 0, j: 0, smallest: 0 };
        proof {
            Self::lemma_start(r@, r@);
        }
        r
    }
}

impl Algorithm for SelectionSort {
    open spec fn elems(m: SelectionModel) -> Seq<u16> {
        m.values
    }

    open spec fn wf(m: SelectionModel) -> bool {
        let v = m.values;
        let n = v.len();
        &&& n <= u16::MAX
        &&& 0 <= m.i <= n
        &&& m.i == n ==> m.j == n && m.smallest == n
        &&& m.i < n ==> {
            &&& m.i <= m.smallest < n
            &&& m.smallest <= m.j <= n
            &&& m.smallest == m.j ==> m.j == m.i
            &&& forall|k: int| m.i <= k < m.j ==> v[m.smallest] <= #[trigger] v[k]
        }
        &&& forall|a: int, b: int| 0 <= a < b < m.i ==> v[a] <= v[b]
        &&& forall|a: int, b: int| 0 <= a < m.i <= b < n ==> v[a] <= v[b]
    }

    open spec fn done(m: SelectionModel) -> bool {
        m.i >= m.values.len()
    }

    open spec fn next(m: SelectionModel) -> SelectionModel {
        let v = m.values;
        if m.j < v.len() {
            SelectionModel {
                smallest: if v[m.j] < v[m.smallest] { m.j } else { m.smallest },
                j: m.j + 1,
                ..m
            }
        } else if m.i < v.len() {
            SelectionModel {
                values: swapped(v, m.i, m.smallest),
                i: m.i + 1,
                j: m.i + 1,
                smallest: m.i + 1,
            }
        } else {
            m
        }
    }

    open spec fn measure(m: SelectionModel) -> nat {
        let n = m.values.len() as int;
        if m.i >= n {
            0
        } else {
            ((n - m.j) + 1 + selection_passes(n, m.i + 1)) as nat
        }
    }

    open spec fn at_start(m: SelectionModel) -> bool {
        m.i == 0 && m.j == 0 && m.smallest == 0
    }

    open spec fn role(m: SelectionModel, k: int) -> Role {
        if k == m.smallest {
            Role::Candidate
        } else if k == m.j {
            Role::Cursor
        } else if k < m.i {
            Role::Sorted
        } else {
            Role::Unsorted
        }
    }

    proof fn lemma_next(m: SelectionModel) {
        let v = m.values;
        let n = v.len() as int;
        let r = Self::next(m);
        if m.j < n {
            assert(m.i < n);
            assert(r.values == v);
        } else if m.i < n {
            lemma_swap_same_values(v, m.i, m.smallest);
            let w = r.values;
            assert(m.j == n);
            assert forall|a: int, b: int| 0 <= a < b < r.i implies w[a] <= w[b] by {
                if b == m.i {
                    assert(w[b] == v[m.smallest]);
                    assert(w[a] == v[a]);
                }
            }
            assert forall|a: int, b: int| 0 <= a < r.i <= b < n implies w[a] <= w[b] by {
                if a == m.i {
                    assert(w[a] == v[m.smallest]);
                    if b == m.smallest {
                        assert(w[b] == v[m.i]);
                    } else {
                        assert(w[b] == v[b]);
                    }
                } else {
                    assert(w[a] == v[a]);
                    if b == m.smallest {
                        assert(w[b] == v[m.i]);
                    } else {
                        assert(w[b] == v[b]);
                    }
                }
            }
            assert(selection_passes(n, m.i + 1) == if m.i + 1 >= n {
                0
            } else {
                (n - m.i) as nat + selection_passes(n, m.i + 2)
            });
        }
    }

    proof fn lemma_done_sorted(m: SelectionModel) {
    }

    proof fn lemma_start(m: SelectionModel, other: SelectionModel) {
    }

    fn step(&mut self) {
        let n = self.vector.len();
        if self.j < n {
            if self.vector[self.j] < self.vector[self.smallest] {
                self.smallest = self.j;
            }
            self.j = self.j + 1;
        } else if self.i < n {
            swap_values(&mut self.vector, self.i, self.smallest);
            self.i = self.i + 1;
            self.j = self.i;
            self.smallest = self.i;
        }
    }

    fn is_done(&self) -> (r: bool) {
        self.i >= self.vector.len()
    }

    fn reset(&mut self) {
        let n = self.vector.len() as u16;
        self.vector = random_sequence(n);
        self.i = 0;
        self.j = 0;
        self.smallest = 0;
        proof {
            Self::lemma_start(self@, self@);
        }
    }

    fn values(&self) -> (r: &Vec<u16>) {
        &self.vector
    }

    fn render_state(&self) -> (r: Vec<Bar>) {
        let mut bars: Vec<Bar> = Vec::new();
        let mut k: usize = 0;
        while k < self.vector.len()
            invariant
                k <= self.vector@.len(),
                bars@.len() == k,
                forall|x: int|
                    0 <= x < k ==> (#[trigger] bars@[x]) == (Bar {
                        value: Self::elems(self@)[x],
                        role: Self::role(self@, x),
                    }),
            decreases self.vector@.len() - k,
        {
            let role = if k == self.smallest {
                Role::Candidate
            } else if k == self.j {
                Role::Cursor
            } else if k < self.i {
                Role::Sorted
            } else {
                Role::Unsorted
            };
            bars.push(Bar { value: self.vector[k], role });
            k = k + 1;
        }
        bars
    }
}

} // verus!
