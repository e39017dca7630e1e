//! Bubble sort, one comparison per step: each pass walks the unsorted prefix
//! and exchanges neighbours that are out of order, carrying the largest value
//! to the end of the prefix.

use vstd::prelude::*;

use crate::algorithm::{lemma_done_exactly_after, run, Algorithm, Bar, Role};
use crate::sequence::{
    ascending, random_sequence, same_values, swap_values, swapped, lemma_swap_same_values,
    DEFAULT_SIZE,
};

verus! {

/// The state of a bubble sort: the values, the number `i` of finished passes
/// (the length of the sorted suffix) and the position `j` of the pair being
/// compared.
pub struct BubbleModel {
    pub values: Seq<u16>,
    pub i: int,
    pub j: int,
}

/// The steps of the passes numbered `i..n - 1`: pass `i` compares
/// `n - i - 1` times and then moves on once.
pub open spec fn bubble_passes(n: int, i: int) -> nat
    decreases n - i,
{
    if i + 1 >= n {
        0
    } else {
        (n - i) as nat + bubble_passes(n, i + 1)
    }
}

proof fn lemma_bubble_passes(n: int, i: int)
    requires
        0 <= i < n,
    ensures
        2 * bubble_passes(n, i) + 2 == (n - i) * (n - i + 1),
    decreases n - i,
{
    if i + 1 < n {
        lemma_bubble_passes(n, i + 1);
        assert((n - i) * (n - i + 1) == (n - i - 1) * (n - i) + 2 * (n - i)) by (nonlinear_arith);
    }
}

/// From its start, bubble sort on `n >= 1` values is done after exactly
/// `n * (n + 1) / 2 - 1` steps, whatever the values.
pub proof fn lemma_bubble_step_count(m: BubbleModel)
    requires
        BubbleSort::at_start(m),
        1 <= m.values.len() <= u16::MAX,
    ensures
        2 * BubbleSort::measure(m) + 2 == m.values.len() * (m.values.len() + 1),
        forall|k: nat|
            BubbleSort::done(#[trigger] run::<BubbleSort>(m, k)) <==> 2 * k + 2 >= m.values.len()
                * (m.values.len() + 1),
{
    let n = m.values.len() as int;
    BubbleSort::lemma_start(m, m);
    lemma_bubble_passes(n, 0);
    assert forall|k: nat|
        BubbleSort::done(#[trigger] run::<BubbleSort>(m, k)) <==> 2 * k + 2 >= n * (n + 1) by {
        lemma_done_exactly_after::<BubbleSort>(m, k);
    }
}

pub struct BubbleSort {
    vector: Vec<u16>,
    i: usize,
    j: usize,
}

impl View for BubbleSort {
    type V = BubbleModel;

    closed spec fn view(&self) -> BubbleModel {
        BubbleModel { values: self.vector@, i: self.i as int, j: self.j as int }
    }
}

impl BubbleSort {
    /// An engine on a fresh random ordering of the default number of values.
    pub fn new() -> (r: Self)
        ensures
            Self::at_start(r@),
            Self::wf(r@),
            same_values(Self::elems(r@), ascending(DEFAULT_SIZE as nat)),
            !Self::done(r@),
    {
        let r = Self::from_values(random_sequence(DEFAULT_SIZE));
        proof {
            Self::lemma_start(r@, r@);
        }
        r
    }

    /// An engine at its start on the given values.
    pub fn from_values(values: Vec<u16>) -> (r: Self)
        requires
            values@.len() <= u16::MAX,
        ensures
            r@ == (BubbleModel { values: values@, i: 0, j: 0 }),
            Self::wf(r@),
    {
        let r = BubbleSort { vector: values, i: 0, j: 0 };
        proof {
            Self::lemma_start(r@, r@);
        }
        r
    }
}

impl Algorithm for BubbleSort {
    open spec fn elems(m: BubbleModel) -> Seq<u16> {
        m.values
    }

    open spec fn wf(m: BubbleModel) -> bool {
        let v = m.values;
        let n = v.len() as int;
        &&& n <= u16::MAX
        &&& n == 0 ==> m.i == 0 && m.j == 0
        &&& n > 0 ==> {
            &&& 0 <= m.i <= n - 1
            &&& 0 <= m.j <= n - 1 - m.i
            &&& forall|k: int| 0 <= k <= m.j ==> #[trigger] v[k] <= v[m.j]
        }
        &&& forall|a: int, b: int| n - m.i <= a < b < n ==> v[a] <= v[b]
        &&& forall|a: int, b: int| 0 <= a < n - m.i <= b < n ==> v[a] <= v[b]
    }

    open spec fn done(m: BubbleModel) -> bool {
        m.i + 1 >= m.values.len()
    }

    open spec fn next(m: BubbleModel) -> BubbleModel {
        let v = m.values;
        if m.i + 1 >= v.len() {
            m
        } else if m.j + 1 < v.len() - m.i {
            BubbleModel {
                values: if v[m.j] > v[m.j + 1] { swapped(v, m.j, m.j + 1) } else { v },
                j: m.j + 1,
                ..m
            }
        } else {
            BubbleModel { i: m.i + 1, j: 0, ..m }
        }
    }

    open spec fn measure(m: BubbleModel) -> nat {
        let n = m.values.len() as int;
        if m.i + 1 >= n {
            0
        } else {
            ((n - m.i - 1 - m.j) + 1 + bubble_passes(n, m.i + 1)) as nat
        }
    }

    open spec fn at_start(m: BubbleModel) -> bool {
        m.i == 0 && m.j == 0
    }

    open spec fn role(m: BubbleModel, k: int) -> Role {
        if k == m.j || k == m.j + 1 {
            Role::Compared
        } else if k >= m.values.len() - m.i {
            Role::Sorted
        } else {
            Role::Unsorted
        }
    }

    proof fn lemma_next(m: BubbleModel) {
        let v = m.values;
        let n = v.len() as int;
        let r = Self::next(m);
        let w = r.values;
        if m.i + 1 >= n {
        } else if m.j + 1 < n - m.i {
            let j = m.j;
            if v[j] > v[j + 1] {
                lemma_swap_same_values(v, j, j + 1);
                assert forall|k: int| 0 <= k <= j + 1 implies #[trigger] w[k] <= w[j + 1] by {
                    if k < j {
                        assert(w[k] == v[k]);
                    }
                }
                assert forall|a: int, b: int| 0 <= a < n - m.i <= b < n implies w[a] <= w[b] by {
                    assert(w[b] == v[b]);
                    if a == j {
                        assert(w[a] == v[j + 1]);
                    } else if a == j + 1 {
                        assert(w[a] == v[j]);
                    } else {
                        assert(w[a] == v[a]);
                    }
                }
                assert forall|a: int, b: int| n - m.i <= a < b < n implies w[a] <= w[b] by {
                    assert(w[a] == v[a]);
                    assert(w[b] == v[b]);
                }
            } else {
                assert forall|k: int| 0 <= k <= j + 1 implies #[trigger] w[k] <= w[j + 1] by {
                    if k <= j {
                        assert(v[k] <= v[j]);
                    }
                }
            }
            assert(w.len() == n);
        } else {
            let j = m.j;
            assert(j == n - 1 - m.i);
            assert forall|a: int, b: int| n - r.i <= a < b < n implies w[a] <= w[b] by {
                if a == j {
                    assert(v[a] <= v[b]);
                }
            }
            assert forall|a: int, b: int| 0 <= a < n - r.i <= b < n implies w[a] <= w[b] by {
                if b == j {
                    assert(v[a] <= v[j]);
                }
            }
            assert(r.j == 0);
            assert(w[0] <= w[0]);
            assert(bubble_passes(n, m.i + 1) == if m.i + 2 >= n {
                0
            } else {
                (n - m.i - 1) as nat + bubble_passes(n, m.i + 2)
            });
        }
    }

    proof fn lemma_done_sorted(m: BubbleModel) {
        let v = m.values;
        let n = v.len() as int;
        if n > 0 {
            assert forall|a: int, b: int| 0 <= a < b < n implies v[a] <= v[b] by {
                if a == 0 {
                    assert(0 <= a < n - m.i <= b < n);
                }
            }
        }
    }

    proof fn lemma_start(m: BubbleModel, other: BubbleModel) {
        let v = m.values;
        if v.len() > 0 {
            assert(v[0] <= v[m.j]);
        }
    }

    fn step(&mut self) {
        let n = self.vector.len();
        if self.i + 1 >= n {
            return;
        }
        if self.j + 1 < n - self.i {
            if self.vector[self.j] > self.vector[self.j + 1] {
                swap_values(&mut self.vector, self.j, self.j + 1);
            }
            self.j = self.j + 1;
        } else {
            self.i = self.i + 1;
            self.j = 0;
        }
    }

    fn is_done(&self) -> (r: bool) {
        self.i + 1 >= self.vector.len()
    }

    fn reset(&mut self) {
        let n = self.vector.len() as u16;
        self.vector = random_sequence(n);
        self.i = 0;
        self.j = 0;
        proof {
            Self::lemma_start(self@, self@);
        }
    }

    fn values(&self) -> (r: &Vec<u16>) {
        &self.vector
    }

    fn render_state(&self) -> (r: Vec<Bar>) {
        let mut bars: Vec<Bar> = Vec::new();
        let mut k: usize = 0;
        while k < self.vector.len()
            invariant
                Self::wf(self@),
                k <= self.vector@.len(),
                bars@.len() == k,
                forall|x: int|
                    0 <= x < k ==> (#[trigger] bars@[x]) == (Bar {
                        value: Self::elems(self@)[x],
                        role: Self::role(self@, x),
                    }),
            decreases self.vector@.len() - k,
        {
            let role = if k == self.j || k == self.j + 1 {
                Role::Compared
            } else if k + self.i >= self.vector.len() {
                Role::Sorted
            } else {
                Role::Unsorted
            };
            bars.push(Bar { value: self.vector[k], role });
            k = k + 1;
        }
        bars
    }
}

} // verus!
