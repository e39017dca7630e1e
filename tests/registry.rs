use sort_steps::algorithm::{Algorithm, Role};
use sort_steps::bubble::BubbleSort;
use sort_steps::gnome::GnomeSort;
use sort_steps::insertion::InsertionSort;
use sort_steps::registry::{kind_from_name, Kind, Registry, UnknownAlgorithm};
use sort_steps::selection::SelectionSort;
use sort_steps::session::{kind_name, Key, Session, MAX_REPEAT, START_REPEAT};

fn small_registry() -> Registry {
    Registry::with_engines(
        SelectionSort::from_values(vec![3, 1, 4, 2]),
        BubbleSort::from_values(vec![2, 1, 4, 3]),
        InsertionSort::from_values(vec![4, 3, 2, 1]),
        GnomeSort::from_values(vec![2, 3, 1]),
    )
}

fn snapshot(r: &Registry) -> Vec<Vec<u16>> {
    vec![
        r.selection().values().clone(),
        r.bubble().values().clone(),
        r.insertion().values().clone(),
        r.gnome().values().clone(),
    ]
}

#[test]
fn unknown_name_changes_nothing() {
    let mut r = small_registry();
    r.step_active(3);
    let before = snapshot(&r);
    let bars = r.render_active();
    assert_eq!(r.select("nonexistent"), Err(UnknownAlgorithm));
    assert_eq!(r.active(), Kind::Selection);
    assert_eq!(snapshot(&r), before);
    assert_eq!(r.render_active(), bars);
}

#[test]
fn names_select_their_engines() {
    let mut r = small_registry();
    assert_eq!(r.select("bubble"), Ok(()));
    assert_eq!(r.active(), Kind::Bubble);
    assert_eq!(r.select("insertion"), Ok(()));
    assert_eq!(r.active(), Kind::Insertion);
    assert_eq!(r.select("gnome"), Ok(()));
    assert_eq!(r.active(), Kind::Gnome);
    assert_eq!(r.select("selection"), Ok(()));
    assert_eq!(r.active(), Kind::Selection);
    assert_eq!(r.select("Selection"), Err(UnknownAlgorithm));
    assert_eq!(r.select(""), Err(UnknownAlgorithm));
}

#[test]
fn names_and_kinds_agree() {
    for k in [Kind::Selection, Kind::Bubble, Kind::Insertion, Kind::Gnome] {
        assert_eq!(kind_from_name(kind_name(k)), Some(k));
    }
    assert_eq!(kind_from_name("bubbles"), None);
}

#[test]
fn switching_keeps_progress() {
    let mut r = small_registry();
    r.step_active(5);
    let selection_after = r.selection().values().clone();
    assert_eq!(selection_after, vec![1, 3, 4, 2]);
    r.select_kind(Kind::Bubble);
    r.step_active(1);
    assert_eq!(r.bubble().values(), &vec![1, 2, 4, 3]);
    r.select_kind(Kind::Selection);
    assert_eq!(r.selection().values(), &selection_after);
    r.step_active(100);
    assert!(r.is_active_done());
    assert_eq!(r.selection().values(), &vec![1, 2, 3, 4]);
    assert_eq!(r.bubble().values(), &vec![1, 2, 4, 3]);
}

#[test]
fn step_active_runs_each_engine_to_the_end() {
    let mut r = small_registry();
    for k in [Kind::Selection, Kind::Bubble, Kind::Insertion, Kind::Gnome] {
        r.select_kind(k);
        assert!(!r.is_active_done());
        r.step_active(100);
        assert!(r.is_active_done());
    }
    assert_eq!(r.selection().values(), &vec![1, 2, 3, 4]);
    assert_eq!(r.bubble().values(), &vec![1, 2, 3, 4]);
    assert_eq!(r.insertion().values(), &vec![1, 2, 3, 4]);
    assert_eq!(r.gnome().values(), &vec![1, 2, 3]);
}

#[test]
fn reset_touches_only_the_active_engine() {
    let mut r = small_registry();
    r.select_kind(Kind::Insertion);
    r.step_active(100);
    let before = snapshot(&r);
    r.reset_active();
    assert!(!r.is_active_done());
    let mut v = r.insertion().values().clone();
    v.sort();
    assert_eq!(v, vec![1, 2, 3, 4]);
    let after = snapshot(&r);
    assert_eq!(after[0], before[0]);
    assert_eq!(after[1], before[1]);
    assert_eq!(after[3], before[3]);
}

#[test]
fn render_active_follows_the_active_engine() {
    let mut r = small_registry();
    r.step_active(2);
    let bars = r.render_active();
    assert_eq!(bars.len(), 4);
    assert_eq!(bars[1].role, Role::Candidate);
    r.select_kind(Kind::Gnome);
    let bars = r.render_active();
    assert_eq!(bars.iter().map(|b| b.value).collect::<Vec<_>>(), vec![2, 3, 1]);
    assert_eq!(bars[0].role, Role::Compared);
}

#[test]
fn fresh_registry_has_eighty_values_each() {
    let r = Registry::new();
    assert_eq!(r.active(), Kind::Selection);
    for v in snapshot(&r) {
        let mut v = v;
        v.sort();
        assert_eq!(v, (1..=80).collect::<Vec<u16>>());
    }
}

#[test]
fn session_keys() {
    let mut s = Session::with_registry(small_registry());
    assert_eq!(s.repeat(), START_REPEAT);
    assert!(s.handle(Key::Two));
    assert_eq!(s.registry().active(), Kind::Bubble);
    assert!(s.handle(Key::Down));
    assert_eq!(s.repeat(), START_REPEAT - 1);
    assert!(s.handle(Key::Space));
    assert!(s.registry().is_active_done());
    assert_eq!(s.registry().bubble().values(), &vec![1, 2, 3, 4]);
    assert!(!s.handle(Key::Other));
    assert!(s.handle(Key::R));
    assert!(!s.registry().is_active_done());
    assert!(s.handle(Key::Four));
    assert_eq!(s.registry().active(), Kind::Gnome);
    assert!(s.handle(Key::Three));
    assert_eq!(s.registry().active(), Kind::Insertion);
    assert!(s.handle(Key::One));
    assert_eq!(s.registry().active(), Kind::Selection);
}

#[test]
fn session_repeat_stays_in_range() {
    let mut s = Session::new();
    for _ in 0..200 {
        s.handle(Key::Up);
    }
    assert_eq!(s.repeat(), MAX_REPEAT);
    for _ in 0..200 {
        s.handle(Key::Down);
    }
    assert_eq!(s.repeat(), 1);
    assert!(s.handle(Key::Up));
    assert_eq!(s.repeat(), 2);
    assert_eq!(s.render().len(), 80);
}

#[test]
fn session_restart_starts_the_active_engine_over() {
    let mut s = Session::with_registry(small_registry());
    assert!(s.handle(Key::Space));
    assert!(!s.registry().is_active_done());
    assert!(s.handle(Key::Space));
    assert!(s.registry().is_active_done());
    let bubble = s.registry().bubble().values().clone();
    assert!(s.handle(Key::R));
    assert!(!s.registry().is_active_done());
    let mut v = s.registry().selection().values().clone();
    v.sort();
    assert_eq!(v, vec![1, 2, 3, 4]);
    assert_eq!(s.registry().bubble().values(), &bubble);
    assert_eq!(s.repeat(), START_REPEAT);
}

#[test]
fn fresh_session_engines_start_on_one_to_eighty() {
    let s = Session::new();
    assert_eq!(s.repeat(), START_REPEAT);
    assert_eq!(s.registry().active(), Kind::Selection);
    for v in snapshot(s.registry()) {
        let mut v = v;
        v.sort();
        assert_eq!(v, (1..=80).collect::<Vec<u16>>());
    }
    assert!(!s.registry().is_active_done());
    assert!(s.render().iter().all(|b| b.role != Role::Sorted));
}
