//! Gnome sort, one comparison per step: a single cursor walks forward while
//! its neighbours are in order and steps back after exchanging them when they
//! are not.

use vstd::prelude::*;

use crate::algorithm::{lemma_done_exactly_after, run, Algorithm, Bar, Role};
use crate::sequence::{
    ascending, inversions, lemma_inversions_swap, lemma_sorted_no_inversions,
    lemma_swap_same_values, random_sequence, same_values, sorted, swap_values, swapped,
    DEFAULT_SIZE,
};

verus! {

/// The state of a gnome sort: the values and the cursor `i`.
pub struct GnomeModel {
    pub values: Seq<u16>,
    pub i: int,
}

/// From its start, gnome sort is done after exactly twice the number of
/// out-of-order pairs plus the number of values: it steps forward once per
/// position and, for each exchange, once back and once forward again.
pub proof fn lemma_gnome_step_count(m: GnomeModel)
    requires
        GnomeSort::at_start(m),
        m.values.len() <= u16::MAX,
    ensures
        GnomeSort::measure(m) == 2 * inversions(m.values) + m.values.len(),
        forall|k: nat|
            GnomeSort::done(#[trigger] run::<GnomeSort>(m, k)) <==> k >= 2 * inversions(m.values)
                + m.values.len(),
{
    if m.values.len() == 0 {
        assert(inversions(m.values) == 0);
    }
    assert forall|k: nat|
        GnomeSort::done(#[trigger] run::<GnomeSort>(m, k)) <==> k >= 2 * inversions(m.values)
            + m.values.len() by {
        lemma_done_exactly_after::<GnomeSort>(m, k);
    }
}

pub struct GnomeSort {
    vector: Vec<u16>,
    i: usize,
}

impl View for GnomeSort {
    type V = GnomeModel;

    closed spec fn view(&self) -> GnomeModel {
        GnomeModel { values: self.vector@, i: self.i as int }
    }
}

impl GnomeSort {
    /// An engine on a fresh random ordering of the default number of values.
    pub fn new() -> (r: Self)
        ensures
            Self::at_start(r@),
            Self::wf(r@),
            same_values(Self::elems(r@), ascending(DEFAULT_SIZE as nat)),
            !Self::done(r@),
    {
        let r = Self::from_values(random_sequence(DEFAULT_SIZE));
        proof {
            Self::lemma_start(r@, r@);
        }
        r
    }

    /// An engine at its start on the given values.
    pub fn from_values(values: Vec<u16>) -> (r: Self)
        requires
            values@.len() <= u16::MAX,
        ensures
            r@ == (GnomeModel { values: values@, i: 0 }),
            Self::wf(r@),
    {
        let r = GnomeSort { vector: values, i: 0 };
        proof {
            Self::lemma_start(r@, r@);
        }
        r
    }
}

impl Algorithm for GnomeSort {
    open spec fn elems(m: GnomeModel) -> Seq<u16> {
        m.values
    }

    open spec fn wf(m: GnomeModel) -> bool {
        let v = m.values;
        &&& v.len() <= u16::MAX
        &&& 0 <= m.i <= v.len()
        &&& forall|a: int, b: int| 0 <= a < b < m.i ==> v[a] <= v[b]
    }

    open spec fn done(m: GnomeModel) -> bool {
        m.i >= m.values.len()
    }

    open spec fn next(m: GnomeModel) -> GnomeModel {
        let v = m.values;
        if m.i >= v.len() {
            m
        } else if m.i == 0 {
            GnomeModel { i: 1, ..m }
        } else if v[m.i] >= v[m.i - 1] {
            GnomeModel { i: m.i + 1, ..m }
        } else {
            GnomeModel { values: swapped(v, m.i - 1, m.i), i: m.i - 1 }
        }
    }

    open spec fn measure(m: GnomeModel) -> nat {
        if m.i >= m.values.len() {
            0
        } else {
            (2 * inversions(m.values) + (m.values.len() - m.i)) as nat
        }
    }

    open spec fn at_start(m: GnomeModel) -> bool {
        m.i == 0
    }

    open spec fn role(m: GnomeModel, k: int) -> Role {
        if k == m.i || k + 1 == m.i {
            Role::Compared
        } else {
            Role::Unsorted
        }
    }

    proof fn lemma_next(m: GnomeModel) {
        let v = m.values;
        let r = Self::next(m);
        let w = r.values;
        if m.i >= v.len() {
        } else if m.i == 0 {
            if v.len() == 1 {
                lemma_sorted_no_inversions(v);
            }
        } else if v[m.i] >= v[m.i - 1] {
            assert forall|a: int, b: int| 0 <= a < b < m.i + 1 implies v[a] <= v[b] by {
                if b == m.i && a < m.i - 1 {
                    assert(v[a] <= v[m.i - 1]);
                }
            }
            if m.i + 1 == v.len() {
                assert(sorted(v));
                lemma_sorted_no_inversions(v);
            }
        } else {
            lemma_swap_same_values(v, m.i - 1, m.i);
            lemma_inversions_swap(v, m.i - 1);
            assert forall|a: int, b: int| 0 <= a < b < r.i implies w[a] <= w[b] by {
                assert(w[a] == v[a]);
                assert(w[b] == v[b]);
            }
        }
    }

    proof fn lemma_done_sorted(m: GnomeModel) {
    }

    proof fn lemma_start(m: GnomeModel, other: GnomeModel) {
    }

    fn step(&mut self) {
        let n = self.vector.len();
        if self.i >= n {
            return;
        }
        if self.i == 0 {
            self.i = 1;
        } else if self.vector[self.i] >= self.vector[self.i - 1] {
            self.i = self.i + 1;
        } else {
            swap_values(&mut self.vector, self.i - 1, self.i);
            self.i = self.i - 1;
        }
    }

    fn is_done(&self) -> (r: bool) {
        self.i >= self.vector.len()
    }

    fn reset(&mut self) {
        let n = self.vector.len() as u16;
        self.vector = random_sequence(n);
        self.i = 0;
        proof {
            Self::lemma_start(self@, self@);
        }
    }

    fn values(&self) -> (r: &Vec<u16>) {
        &self.vector
    }

    fn render_state(&self) -> (r: Vec<Bar>) {
        let mut bars: Vec<Bar> = Vec::new();
        let mut k: usize = 0;
        while k < self.vector.len()
            invariant
                Self::wf(self@),
                k <= self.vector@.len(),
                bars@.len() == k,
                forall|x: int|
                    0 <= x < k ==> (#[trigger] bars@[x]) == (Bar {
                        value: Self::elems(self@)[x],
                        role: Self::role(self@, x),
                    }),
            decreases self.vector@.len() - k,
        {
            let role = if k == self.i || k + 1 == self.i {
                Role::Compared
            } else {
                Role::Unsorted
            };
            bars.push(Bar { value: self.vector[k], role });
            k = k + 1;
        }
        bars
    }
}

} // verus!
