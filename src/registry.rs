//! One engine per algorithm and the choice of the one that receives the
//! driver's commands. Switching keeps every engine's progress.

use vstd::prelude::*;
use vstd::string::*;

use crate::algorithm::{lemma_run_split, run, Algorithm, Bar};
use crate::bubble::{BubbleModel, BubbleSort};
use crate::gnome::{GnomeModel, GnomeSort};
use crate::insertion::{InsertionModel, InsertionSort};
use crate::selection::{SelectionModel, SelectionSort};
use crate::sequence::{ascending, same_values, DEFAULT_SIZE};

verus! {

/// The algorithms the registry holds.
#[derive(Clone, Copy, Debug, PartialEq, Eq, Structural)]
pub enum Kind {
    Selection,
    Bubble,
    Insertion,
    Gnome,
}

/// A name given to `select` that names no algorithm.
#[derive(Clone, Copy, Debug, PartialEq, Eq, Structural)]
pub struct UnknownAlgorithm;

/// The algorithm a name stands for, if any.
pub open spec fn kind_named(name: Seq<char>) -> Option<Kind> {
    if name == "selection"@ {
        Some(Kind::Selection)
    } else if name == "bubble"@ {
        Some(Kind::Bubble)
    } else if name == "insertion"@ {
        Some(Kind::Insertion)
    } else if name == "gnome"@ {
        Some(Kind::Gnome)
    } else {
        None
    }
}

/// The state of every engine and which one is active.
pub struct RegistryModel {
    pub selection: SelectionModel,
    pub bubble: BubbleModel,
    pub insertion: InsertionModel,
    pub gnome: GnomeModel,
    pub active: Kind,
}

/// Every engine's cursor is well-formed.
pub open spec fn registry_wf(m: RegistryModel) -> bool {
    &&& SelectionSort::wf(m.selection)
    &&& BubbleSort::wf(m.bubble)
    &&& InsertionSort::wf(m.insertion)
    &&& GnomeSort::wf(m.gnome)
}

/// `a` and `b` agree on the active kind and on every engine but the one of
/// kind `k`.
pub open spec fn same_except(a: RegistryModel, b: RegistryModel, k: Kind) -> bool {
    &&& a.active == b.active
    &&& k != Kind::Selection ==> a.selection == b.selection
    &&& k != Kind::Bubble ==> a.bubble == b.bubble
    &&& k != Kind::Insertion ==> a.insertion == b.insertion
    &&& k != Kind::Gnome ==> a.gnome == b.gnome
}

/// The registry after `times` steps of its active engine.
pub open spec fn stepped(m: RegistryModel, times: nat) -> RegistryModel {
    match m.active {
        Kind::Selection => RegistryModel {
            selection: run::<SelectionSort>(m.selection, times),
            ..m
        },
        Kind::Bubble => RegistryModel { bubble: run::<BubbleSort>(m.bubble, times), ..m },
        Kind::Insertion => RegistryModel {
            insertion: run::<InsertionSort>(m.insertion, times),
            ..m
        },
        Kind::Gnome => RegistryModel { gnome: run::<GnomeSort>(m.gnome, times), ..m },
    }
}

/// `new` is engine `old` started over on a fresh ordering of `1..=n`.
pub open spec fn restarted<A: Algorithm>(new: A::V, old: A::V) -> bool {
    &&& A::at_start(new)
    &&& A::wf(new)
    &&& same_values(A::elems(new), ascending(A::elems(old).len()))
}

/// The active engine is done.
pub open spec fn active_done(m: RegistryModel) -> bool {
    match m.active {
        Kind::Selection => SelectionSort::done(m.selection),
        Kind::Bubble => BubbleSort::done(m.bubble),
        Kind::Insertion => InsertionSort::done(m.insertion),
        Kind::Gnome => GnomeSort::done(m.gnome),
    }
}

/// How engine state `m` is painted, position by position.
pub open spec fn painted<A: Algorithm>(m: A::V) -> Seq<Bar> {
    Seq::new(A::elems(m).len(), |k: int| Bar { value: A::elems(m)[k], role: A::role(m, k) })
}

/// How the active engine is painted.
pub open spec fn active_painted(m: RegistryModel) -> Seq<Bar> {
    match m.active {
        Kind::Selection => painted::<SelectionSort>(m.selection),
        Kind::Bubble => painted::<BubbleSort>(m.bubble),
        Kind::Insertion => painted::<InsertionSort>(m.insertion),
        Kind::Gnome => painted::<GnomeSort>(m.gnome),
    }
}

pub struct Registry {
    selection: SelectionSort,
    bubble: BubbleSort,
    insertion: InsertionSort,
    gnome: GnomeSort,
    active: Kind,
}

impl View for Registry {
    type V = RegistryModel;

    closed spec fn view(&self) -> RegistryModel {
        RegistryModel {
            selection: self.selection@,
            bubble: self.bubble@,
            insertion: self.insertion@,
            gnome: self.gnome@,
            active: self.active,
        }
    }
}

/// Whether two strings hold the same characters.
fn same_text(a: &str, b: &str) -> (r: bool)
    ensures
        r == (a@ == b@),
{
    let n = a.unicode_len();
    if n != b.unicode_len() {
        return false;
    }
    let mut k: usize = 0;
    while k < n
        invariant
            n == a@.len(),
            n == b@.len(),
            k <= n,
            forall|x: int| 0 <= x < k ==> a@[x] == b@[x],
        decreases n - k,
    {
        if a.get_char(k) != b.get_char(k) {
            return false;
        }
        k = k + 1;
    }
    assert(a@ =~= b@);
    true
}

/// The algorithm `name` stands for, if any.
pub fn kind_from_name(name: &str) -> (r: Option<Kind>)
    ensures
        r == kind_named(name@),
{
    if same_text(name, "selection") {
        Some(Kind::Selection)
    } else if same_text(name, "bubble") {
        Some(Kind::Bubble)
    } else if same_text(name, "insertion") {
        Some(Kind::Insertion)
    } else if same_text(name, "gnome") {
        Some(Kind::Gnome)
    } else {
        None
    }
}

/// Performs `times` steps of `e`.
fn step_times<A: Algorithm>(e: &mut A, times: usize)
    requires
        A::wf(old(e)@),
    ensures
        final(e)@ == run::<A>(old(e)@, times as nat),
        A::wf(final(e)@),
{
    let ghost start = e@;
    let mut k: usize = 0;
    while k < times
        invariant
            k <= times,
            e@ == run::<A>(start, k as nat),
            A::wf(e@),
        decreases times - k,
    {
        proof {
            lemma_run_split::<A>(start, k as nat, 1);
            assert(run::<A>(e@, 1) == run::<A>(A::next(e@), 0));
            A::lemma_next(e@);
        }
        e.step();
        k = k + 1;
    }
}

impl Registry {
    /// Fresh engines of every kind on random orderings of the default number
    /// of values, with selection sort active.
    pub fn new() -> (r: Self)
        ensures
            registry_wf(r@),
            r@.active == Kind::Selection,
            SelectionSort::at_start(r@.selection),
            BubbleSort::at_start(r@.bubble),
            InsertionSort::at_start(r@.insertion),
            GnomeSort::at_start(r@.gnome),
            same_values(r@.selection.values, ascending(DEFAULT_SIZE as nat)),
            same_values(r@.bubble.values, ascending(DEFAULT_SIZE as nat)),
            same_values(r@.insertion.values, ascending(DEFAULT_SIZE as nat)),
            same_values(r@.gnome.values, ascending(DEFAULT_SIZE as nat)),
    {
        Registry {
            selection: SelectionSort::new(),
            bubble: BubbleSort::new(),
            insertion: InsertionSort::new(),
            gnome: GnomeSort::new(),
            active: Kind::Selection,
        }
    }

    /// A registry of the given engines, with selection sort active.
    pub fn with_engines(
        selection: SelectionSort,
        bubble: BubbleSort,
        insertion: InsertionSort,
        gnome: GnomeSort,
    ) -> (r: Self)
        requires
            SelectionSort::wf(selection@),
            BubbleSort::wf(bubble@),
            InsertionSort::wf(insertion@),
            GnomeSort::wf(gnome@),
        ensures
            r@ == (RegistryModel {
                selection: selection@,
                bubble: bubble@,
                insertion: insertion@,
                gnome: gnome@,
                active: Kind::Selection,
            }),
    {
        Registry { selection, bubble, insertion, gnome, active: Kind::Selection }
    }

    /// The kind of the active engine.
    pub fn active(&self) -> (r: Kind)
        ensures
            r == self@.active,
    {
        self.active
    }

    /// Makes `kind` the active engine; no engine changes.
    pub fn select_kind(&mut self, kind: Kind)
        ensures
            final(self)@ == (RegistryModel { active: kind, ..old(self)@ }),
    {
        self.active = kind;
    }

    /// Makes the algorithm called `name` active, or reports that there is
    /// none of that name and changes nothing.
    pub fn select(&mut self, name: &str) -> (r: Result<(), UnknownAlgorithm>)
        ensures
            match kind_named(name@) {
                Some(k) => r == Ok::<(), UnknownAlgorithm>(()) && final(self)@ == (
                RegistryModel { active: k, ..old(self)@ }),
                None => r == Err::<(), UnknownAlgorithm>(UnknownAlgorithm) && final(self)@
                    == old(self)@,
            },
    {
        match kind_from_name(name) {
            Some(k) => {
                self.active = k;
                Ok(())
            },
            None => Err(UnknownAlgorithm),
        }
    }

    /// Performs `times` steps of the active engine, one after another.
    pub fn step_active(&mut self, times: usize)
        requires
            registry_wf(old(self)@),
        ensures
            final(self)@ == stepped(old(self)@, times as nat),
            registry_wf(final(self)@),
    {
        match self.active {
            Kind::Selection => step_times(&mut self.selection, times),
            Kind::Bubble => step_times(&mut self.bubble, times),
            Kind::Insertion => step_times(&mut self.insertion, times),
            Kind::Gnome => step_times(&mut self.gnome, times),
        }
    }

    /// Starts the active engine over on a fresh random ordering; the other
    /// engines keep their state.
    pub fn reset_active(&mut self)
        requires
            registry_wf(old(self)@),
        ensures
            registry_wf(final(self)@),
            same_except(final(self)@, old(self)@, old(self)@.active),
            match old(self)@.active {
                Kind::Selection => restarted::<SelectionSort>(
                    final(self)@.selection,
                    old(self)@.selection,
                ),
                Kind::Bubble => restarted::<BubbleSort>(final(self)@.bubble, old(self)@.bubble),
                Kind::Insertion => restarted::<InsertionSort>(
                    final(self)@.insertion,
                    old(self)@.insertion,
                ),
                Kind::Gnome => restarted::<GnomeSort>(final(self)@.gnome, old(self)@.gnome),
            },
    {
        match self.active {
            Kind::Selection => self.selection.reset(),
            Kind::Bubble => self.bubble.reset(),
            Kind::Insertion => self.insertion.reset(),
            Kind::Gnome => self.gnome.reset(),
        }
    }

    /// Whether the active engine has finished.
    pub fn is_active_done(&self) -> (r: bool)
        requires
            registry_wf(self@),
        ensures
            r == active_done(self@),
    {
        match self.active {
            Kind::Selection => self.selection.is_done(),
            Kind::Bubble => self.bubble.is_done(),
            Kind::Insertion => self.insertion.is_done(),
            Kind::Gnome => self.gnome.is_done(),
        }
    }

    /// Each position of the active engine's sequence with its role.
    pub fn render_active(&self) -> (r: Vec<Bar>)
        requires
            registry_wf(self@),
        ensures
            r@ == active_painted(self@),
    {
        let r = match self.active {
            Kind::Selection => self.selection.render_state(),
            Kind::Bubble => self.bubble.render_state(),
            Kind::Insertion => self.insertion.render_state(),
            Kind::Gnome => self.gnome.render_state(),
        };
        assert(r@ =~= active_painted(self@));
        r
    }

    /// The selection engine.
    pub fn selection(&self) -> (r: &SelectionSort)
        ensures
            r@ == self@.selection,
    {
        &self.selection
    }

    /// The bubble engine.
    pub fn bubble(&self) -> (r: &BubbleSort)
        ensures
            r@ == self@.bubble,
    {
        &self.bubble
    }

    /// The insertion engine.
    pub fn insertion(&self) -> (r: &InsertionSort)
        ensures
            r@ == self@.insertion,
    {
        &self.insertion
    }

    /// The gnome engine.
    pub fn gnome(&self) -> (r: &GnomeSort)
        ensures
            r@ == self@.gnome,
    {
        &self.gnome
    }
}

} // verus!
