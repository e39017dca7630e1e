//! What the driver's input events do: choose an algorithm, step the active
//! one by the current repeat count, restart it, or change the repeat count.

use vstd::prelude::*;

use crate::algorithm::{Algorithm, Bar};
use crate::bubble::BubbleSort;
use crate::gnome::GnomeSort;
use crate::insertion::InsertionSort;
use crate::registry::{
    active_painted, kind_named, registry_wf, restarted, same_except, stepped, Kind, Registry,
    RegistryModel,
};
use crate::selection::SelectionSort;
use crate::sequence::{ascending, same_values, DEFAULT_SIZE};

verus! {

/// The repeat count a session starts with.
pub const START_REPEAT: usize = 10;

/// The largest repeat count.
pub const MAX_REPEAT: usize = 100;

/// The input events the driver passes on.
#[derive(Clone, Copy, Debug, PartialEq, Eq, Structural)]
pub enum Key {
    /// Chooses selection sort.
    One,
    /// Chooses bubble sort.
    Two,
    /// Chooses insertion sort.
    Three,
    /// Chooses gnome sort.
    Four,
    /// Steps the active algorithm by the repeat count.
    Space,
    /// Restarts the active algorithm.
    R,
    /// Raises the repeat count.
    Up,
    /// Lowers the repeat count.
    Down,
    /// Any key without a meaning.
    Other,
}

/// The algorithm a key chooses, if it chooses one.
pub open spec fn kind_of_key(key: Key) -> Option<Kind> {
    match key {
        Key::One => Some(Kind::Selection),
        Key::Two => Some(Kind::Bubble),
        Key::Three => Some(Kind::Insertion),
        Key::Four => Some(Kind::Gnome),
        _ => None,
    }
}

/// The registry and the number of steps one step command performs.
pub struct Session {
    registry: Registry,
    repeat: usize,
}

pub struct SessionModel {
    pub registry: RegistryModel,
    pub repeat: nat,
}

impl View for Session {
    type V = SessionModel;

    closed spec fn view(&self) -> SessionModel {
        SessionModel { registry: self.registry@, repeat: self.repeat as nat }
    }
}

/// The engines are well-formed and the repeat count is in `1..=MAX_REPEAT`.
pub open spec fn session_wf(m: SessionModel) -> bool {
    registry_wf(m.registry) && 1 <= m.repeat <= MAX_REPEAT
}

/// The name an algorithm is selected by.
pub fn kind_name(kind: Kind) -> (r: &'static str)
    ensures
        kind_named(r@) == Some(kind),
{
    let r = match kind {
        Kind::Selection => "selection",
        Kind::Bubble => "bubble",
        Kind::Insertion => "insertion",
        Kind::Gnome => "gnome",
    };
    proof {
        reveal_strlit("selection");
        reveal_strlit("bubble");
        reveal_strlit("insertion");
        reveal_strlit("gnome");
        assert("selection"@.len() == 9 && "selection"@[0] == 's');
        assert("bubble"@.len() == 6);
        assert("insertion"@.len() == 9 && "insertion"@[0] == 'i');
        assert("gnome"@.len() == 5);
    }
    r
}

impl Session {
    /// Fresh engines, selection sort active, the starting repeat count.
    pub fn new() -> (r: Self)
        ensures
            session_wf(r@),
            r@.repeat == START_REPEAT,
            r@.registry.active == Kind::Selection,
            SelectionSort::at_start(r@.registry.selection),
            BubbleSort::at_start(r@.registry.bubble),
            InsertionSort::at_start(r@.registry.insertion),
            GnomeSort::at_start(r@.registry.gnome),
            same_values(r@.registry.selection.values, ascending(DEFAULT_SIZE as nat)),
            same_values(r@.registry.bubble.values, ascending(DEFAULT_SIZE as nat)),
            same_values(r@.registry.insertion.values, ascending(DEFAULT_SIZE as nat)),
            same_values(r@.registry.gnome.values, ascending(DEFAULT_SIZE as nat)),
    {
        Session { registry: Registry::new(), repeat: START_REPEAT }
    }

    /// A session over the given registry with the starting repeat count.
    pub fn with_registry(registry: Registry) -> (r: Self)
        requires
            registry_wf(registry@),
        ensures
            r@ == (SessionModel { registry: registry@, repeat: START_REPEAT as nat }),
    {
        Session { registry, repeat: START_REPEAT }
    }

    /// The registry.
    pub fn registry(&self) -> (r: &Registry)
        ensures
            r@ == self@.registry,
    {
        &self.registry
    }

    /// The number of steps one step command performs.
    pub fn repeat(&self) -> (r: usize)
        ensures
            r == self@.repeat,
    {
        self.repeat
    }

    /// The active engine, painted.
    pub fn render(&self) -> (r: Vec<Bar>)
        requires
            session_wf(self@),
        ensures
            r@ == active_painted(self@.registry),
    {
        self.registry.render_active()
    }

    /// Acts on one input event; returns whether the key has a meaning.
    pub fn handle(&mut self, key: Key) -> (bound: bool)
        requires
            session_wf(old(self)@),
        ensures
            session_wf(final(self)@),
            bound == (key != Key::Other),
            match key {
                Key::Space => final(self)@ == (SessionModel {
                    registry: stepped(old(self)@.registry, old(self)@.repeat),
                    ..old(self)@
                }),
                Key::R => final(self)@.repeat == old(self)@.repeat && same_except(
                    final(self)@.registry,
                    old(self)@.registry,
                    old(self)@.registry.active,
                ) && match old(self)@.registry.active {
                    Kind::Selection => restarted::<SelectionSort>(
                        final(self)@.registry.selection,
                        old(self)@.registry.selection,
                    ),
                    Kind::Bubble => restarted::<BubbleSort>(
                        final(self)@.registry.bubble,
                        old(self)@.registry.bubble,
                    ),
                    Kind::Insertion => restarted::<InsertionSort>(
                        final(self)@.registry.insertion,
                        old(self)@.registry.insertion,
                    ),
                    Kind::Gnome => restarted::<GnomeSort>(
                        final(self)@.registry.gnome,
                        old(self)@.registry.gnome,
                    ),
                },
                Key::Up => final(self)@.registry == old(self)@.registry && final(self)@.repeat == if old(
                    self,
                )@.repeat < MAX_REPEAT {
                    old(self)@.repeat + 1
                } else {
                    old(self)@.repeat
                },
                Key::Down => final(self)@.registry == old(self)@.registry && final(self)@.repeat == if old(
                    self,
                )@.repeat > 1 {
                    (old(self)@.repeat - 1) as nat
                } else {
                    old(self)@.repeat
                },
                Key::Other => final(self)@ == old(self)@,
                _ => final(self)@ == (SessionModel {
                    registry: RegistryModel {
                        active: kind_of_key(key).unwrap(),
                        ..old(self)@.registry
                    },
                    ..old(self)@
                }),
            },
    {
        match key {
            Key::One => self.registry.select_kind(Kind::Selection),
            Key::Two => self.registry.select_kind(Kind::Bubble),
            Key::Three => self.registry.select_kind(Kind::Insertion),
            Key::Four => self.registry.select_kind(Kind::Gnome),
            Key::Space => self.registry.step_active(self.repeat),
            Key::R => self.registry.reset_active(),
            Key::Up => {
                if self.repeat < MAX_REPEAT {
                    self.repeat = self.repeat + 1;
                }
            },
            Key::Down => {
                if self.repeat > 1 {
                    self.repeat = self.repeat - 1;
                }
            },
            Key::Other => {
                return false;
            },
        }
        true
    }
}

} // verus!
