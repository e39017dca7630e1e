//! What every step engine offers, and the laws that follow for any of them
//! from the facts each engine proves about its own single step.

use vstd::prelude::*;

use crate::sequence::{ascending, same_values, sorted};

verus! {

/// How a bar is painted: what the engine is doing at that position.
#[derive(Clone, Copy, Debug, PartialEq, Eq, Structural)]
pub enum Role {
    /// The smallest value found so far in the current scan.
    Candidate,
    /// The position the current scan has reached.
    Cursor,
    /// One of the two positions being compared or exchanged.
    Compared,
    /// A position whose value is in its final place.
    Sorted,
    /// Any other position.
    Unsorted,
}

/// One position of the sequence as it is painted: its value and its role.
#[derive(Clone, Copy, Debug, PartialEq, Eq, Structural)]
pub struct Bar {
    pub value: u16,
    pub role: Role,
}

/// A sorting algorithm that advances by one primitive action per `step`.
///
/// Its state is described by a model (its view); `next` is the step on
/// models, and each engine proves that `next` keeps the values, keeps the
/// cursor well-formed, does nothing once `done`, and otherwise takes one off
/// `measure`, the number of steps still needed.
pub trait Algorithm: View + Sized {
    /// The values in their current order.
    spec fn elems(m: Self::V) -> Seq<u16>;

    /// The cursor fields are consistent with each other and with the values.
    spec fn wf(m: Self::V) -> bool;

    /// The cursor is in its terminal state.
    spec fn done(m: Self::V) -> bool;

    /// The state after one step.
    spec fn next(m: Self::V) -> Self::V;

    /// The number of steps still needed.
    spec fn measure(m: Self::V) -> nat;

    /// The cursor is where a fresh engine puts it.
    spec fn at_start(m: Self::V) -> bool;

    /// How position `k` is painted.
    spec fn role(m: Self::V, k: int) -> Role;

    /// One step keeps the values and well-formedness, is a no-op once done,
    /// and otherwise uses up one of the steps still needed.
    proof fn lemma_next(m: Self::V)
        requires
            Self::wf(m),
        ensures
            Self::wf(Self::next(m)),
            same_values(Self::elems(Self::next(m)), Self::elems(m)),
            Self::done(m) ==> Self::next(m) == m,
            Self::done(m) <==> Self::measure(m) == 0,
            !Self::done(m) ==> Self::measure(Self::next(m)) + 1 == Self::measure(m),
    ;

    /// The terminal state holds a sorted sequence.
    proof fn lemma_done_sorted(m: Self::V)
        requires
            Self::wf(m),
            Self::done(m),
        ensures
            sorted(Self::elems(m)),
    ;

    /// A fresh cursor is well-formed, is determined by the values, and has
    /// work to do when there are two values or more.
    proof fn lemma_start(m: Self::V, other: Self::V)
        requires
            Self::at_start(m),
            Self::elems(m).len() <= u16::MAX,
        ensures
            Self::wf(m),
            Self::elems(m).len() >= 2 ==> !Self::done(m),
            Self::at_start(other) && Self::elems(other) == Self::elems(m) ==> other == m,
    ;

    /// Performs one primitive action.
    fn step(&mut self)
        requires
            Self::wf(old(self)@),
        ensures
            final(self)@ == Self::next(old(self)@),
    ;

    /// Whether the algorithm has finished.
    fn is_done(&self) -> (r: bool)
        requires
            Self::wf(self@),
        ensures
            r == Self::done(self@),
    ;

    /// Starts over on a fresh random ordering of `1..=n`, `n` being the
    /// current length.
    fn reset(&mut self)
        requires
            Self::wf(old(self)@),
        ensures
            Self::at_start(final(self)@),
            Self::wf(final(self)@),
            same_values(Self::elems(final(self)@), ascending(Self::elems(old(self)@).len())),
            Self::elems(final(self)@).len() >= 2 ==> !Self::done(final(self)@),
    ;

    /// The values in their current order.
    fn values(&self) -> (r: &Vec<u16>)
        ensures
            r@ == Self::elems(self@),
    ;

    /// Each position's value and role, for painting.
    fn render_state(&self) -> (r: Vec<Bar>)
        requires
            Self::wf(self@),
        ensures
            r@.len() == Self::elems(self@).len(),
            forall|k: int|
                0 <= k < r@.len() ==> (#[trigger] r@[k]) == (Bar {
                    value: Self::elems(self@)[k],
                    role: Self::role(self@, k),
                }),
    ;
}

/// The state after `k` steps from `m`.
pub open spec fn run<A: Algorithm>(m: A::V, k: nat) -> A::V
    decreases k,
{
    if k == 0 {
        m
    } else {
        run::<A>(A::next(m), (k - 1) as nat)
    }
}

/// Any number of steps keep well-formedness and the values.
pub proof fn lemma_run_keeps_values<A: Algorithm>(m: A::V, k: nat)
    requires
        A::wf(m),
    ensures
        A::wf(run::<A>(m, k)),
        same_values(A::elems(run::<A>(m, k)), A::elems(m)),
    decreases k,
{
    if k > 0 {
        A::lemma_next(m);
        lemma_run_keeps_values::<A>(A::next(m), (k - 1) as nat);
    }
}

/// Once done, further steps change neither the values nor the cursor.
pub proof fn lemma_steps_after_done<A: Algorithm>(m: A::V, k: nat)
    requires
        A::wf(m),
        A::done(m),
    ensures
        run::<A>(m, k) == m,
    decreases k,
{
    if k > 0 {
        A::lemma_next(m);
        lemma_steps_after_done::<A>(A::next(m), (k - 1) as nat);
    }
}

/// Stepping until done leaves the values sorted, and they are the values
/// the engine started with.
pub proof fn lemma_steps_until_done_sort<A: Algorithm>(m: A::V, k: nat)
    requires
        A::wf(m),
        A::done(run::<A>(m, k)),
    ensures
        sorted(A::elems(run::<A>(m, k))),
        same_values(A::elems(run::<A>(m, k)), A::elems(m)),
{
    lemma_run_keeps_values::<A>(m, k);
    A::lemma_done_sorted(run::<A>(m, k));
}

/// The engine is done after `k` steps exactly when `k` is at least the
/// number of steps it still needs: it finishes, and no earlier.
pub proof fn lemma_done_exactly_after<A: Algorithm>(m: A::V, k: nat)
    requires
        A::wf(m),
    ensures
        A::done(run::<A>(m, k)) <==> k >= A::measure(m),
    decreases k,
{
    A::lemma_next(m);
    if k > 0 {
        if A::done(m) {
            lemma_steps_after_done::<A>(m, k);
        } else {
            lemma_done_exactly_after::<A>(A::next(m), (k - 1) as nat);
        }
    }
}

/// `a + b` steps are `a` steps followed by `b` steps.
pub proof fn lemma_run_split<A: Algorithm>(m: A::V, a: nat, b: nat)
    ensures
        run::<A>(m, a + b) == run::<A>(run::<A>(m, a), b),
    decreases a,
{
    if a > 0 {
        lemma_run_split::<A>(A::next(m), (a - 1) as nat, b);
        assert((a + b - 1) as nat == ((a - 1) as nat + b) as nat);
    }
}

/// Two fresh engines on the same values pass through the same states, so
/// they need the same number of steps to finish.
pub proof fn lemma_same_start_same_run<A: Algorithm>(a: A::V, b: A::V, k: nat)
    requires
        A::at_start(a),
        A::at_start(b),
        A::elems(a) == A::elems(b),
        A::elems(a).len() <= u16::MAX,
    ensures
        run::<A>(a, k) == run::<A>(b, k),
        A::done(run::<A>(a, k)) == A::done(run::<A>(b, k)),
{
    A::lemma_start(a, b);
}

} // verus!
