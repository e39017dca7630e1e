use sort_steps::algorithm::{Algorithm, Bar, Role};
use sort_steps::bubble::BubbleSort;
use sort_steps::gnome::GnomeSort;
use sort_steps::insertion::InsertionSort;
use sort_steps::selection::SelectionSort;
use sort_steps::sequence::{ascending_values, random_sequence, swap_values};

fn run_to_end<A: Algorithm>(e: &mut A, limit: usize) -> usize {
    let mut steps = 0;
    while !e.is_done() {
        assert!(steps < limit, "engine did not finish");
        e.step();
        steps += 1;
    }
    steps
}

fn is_sorted(v: &[u16]) -> bool {
    v.windows(2).all(|w| w[0] <= w[1])
}

fn sorted_copy(v: &[u16]) -> Vec<u16> {
    let mut c = v.to_vec();
    c.sort();
    c
}

fn inputs() -> Vec<Vec<u16>> {
    vec![
        vec![],
        vec![7],
        vec![2, 1],
        vec![1, 2],
        vec![3, 1, 4, 2],
        vec![2, 1, 4, 3],
        vec![5, 4, 3, 2, 1],
        vec![3, 3, 1, 2, 3, 1],
        vec![1, 2, 3, 4, 5, 6],
        vec![9, 1, 8, 2, 7, 3, 6, 4, 5],
    ]
}

fn check_sorts<A: Algorithm>(make: impl Fn(Vec<u16>) -> A) {
    for input in inputs() {
        let mut e = make(input.clone());
        let n = input.len();
        run_to_end(&mut e, 4 * (n + 1) * (n + 1) + 4);
        assert!(is_sorted(e.values()), "{:?} -> {:?}", input, e.values());
        assert_eq!(sorted_copy(e.values()), sorted_copy(&input));
    }
}

#[test]
fn every_algorithm_sorts_and_keeps_values() {
    check_sorts(SelectionSort::from_values);
    check_sorts(BubbleSort::from_values);
    check_sorts(InsertionSort::from_values);
    check_sorts(GnomeSort::from_values);
}

fn check_idle_after_done<A: Algorithm>(make: impl Fn(Vec<u16>) -> A) {
    let mut e = make(vec![4, 2, 5, 1, 3]);
    run_to_end(&mut e, 1000);
    let values = e.values().clone();
    let bars = e.render_state();
    for _ in 0..25 {
        e.step();
        assert!(e.is_done());
    }
    assert_eq!(e.values(), &values);
    assert_eq!(e.render_state(), bars);
}

#[test]
fn steps_after_done_change_nothing() {
    check_idle_after_done(SelectionSort::from_values);
    check_idle_after_done(BubbleSort::from_values);
    check_idle_after_done(InsertionSort::from_values);
    check_idle_after_done(GnomeSort::from_values);
}

fn check_same_count<A: Algorithm>(make: impl Fn(Vec<u16>) -> A) {
    let input = vec![6, 2, 9, 1, 5, 3];
    let mut a = make(input.clone());
    let mut b = make(input);
    let na = run_to_end(&mut a, 1000);
    let nb = run_to_end(&mut b, 1000);
    assert_eq!(na, nb);
    assert_eq!(a.values(), b.values());
}

#[test]
fn step_count_is_reproducible() {
    check_same_count(SelectionSort::from_values);
    check_same_count(BubbleSort::from_values);
    check_same_count(InsertionSort::from_values);
    check_same_count(GnomeSort::from_values);
}

fn is_permutation_of_one_to(v: &[u16], n: u16) -> bool {
    sorted_copy(v) == (1..=n).collect::<Vec<u16>>()
}

fn check_reset<A: Algorithm>(make: impl Fn(Vec<u16>) -> A) {
    let mut e = make(vec![5, 1, 4, 2, 3]);
    run_to_end(&mut e, 1000);
    e.reset();
    assert!(!e.is_done());
    assert!(is_permutation_of_one_to(e.values(), 5));

    let mut single = make(vec![1]);
    single.reset();
    assert_eq!(single.values(), &vec![1]);
    let mut empty = make(vec![]);
    empty.reset();
    assert!(empty.is_done());
    assert!(empty.values().is_empty());
}

#[test]
fn reset_starts_over_on_a_permutation() {
    check_reset(SelectionSort::from_values);
    check_reset(BubbleSort::from_values);
    check_reset(InsertionSort::from_values);
    check_reset(GnomeSort::from_values);
}

#[test]
fn new_engines_hold_one_to_eighty() {
    let s = SelectionSort::new();
    let b = BubbleSort::new();
    let i = InsertionSort::new();
    let g = GnomeSort::new();
    assert!(!s.is_done() && !b.is_done() && !i.is_done() && !g.is_done());
    assert!(is_permutation_of_one_to(s.values(), 80));
    assert!(is_permutation_of_one_to(b.values(), 80));
    assert!(is_permutation_of_one_to(i.values(), 80));
    assert!(is_permutation_of_one_to(g.values(), 80));
}

fn candidate(bars: &[Bar]) -> Option<usize> {
    bars.iter().position(|b| b.role == Role::Candidate)
}

#[test]
fn selection_on_four_values() {
    let mut e = SelectionSort::from_values(vec![3, 1, 4, 2]);
    e.step();
    assert_eq!(candidate(&e.render_state()), Some(0));
    for _ in 0..3 {
        e.step();
        let bars = e.render_state();
        assert_eq!(candidate(&bars), Some(1));
        assert_eq!(bars[1].value, 1);
    }
    e.step();
    assert_eq!(e.values(), &vec![1, 3, 4, 2]);
    let steps = 5 + run_to_end(&mut e, 100);
    assert_eq!(e.values(), &vec![1, 2, 3, 4]);
    assert_eq!(steps, 14);
}

#[test]
fn selection_render_roles() {
    let mut e = SelectionSort::from_values(vec![3, 1, 4, 2]);
    for _ in 0..6 {
        e.step();
    }
    let roles: Vec<Role> = e.render_state().iter().map(|b| b.role).collect();
    assert_eq!(roles, vec![Role::Sorted, Role::Candidate, Role::Cursor, Role::Unsorted]);
}

#[test]
fn bubble_on_four_values() {
    let mut e = BubbleSort::from_values(vec![2, 1, 4, 3]);
    e.step();
    assert_eq!(e.values(), &vec![1, 2, 4, 3]);
    e.step();
    assert_eq!(e.values(), &vec![1, 2, 4, 3]);
    e.step();
    assert_eq!(e.values(), &vec![1, 2, 3, 4]);
    e.step();
    assert_eq!(e.values(), &vec![1, 2, 3, 4]);
    assert!(!e.is_done());
    let steps = 4 + run_to_end(&mut e, 100);
    assert_eq!(steps, 9);
    assert_eq!(e.values(), &vec![1, 2, 3, 4]);
}

#[test]
fn bubble_render_roles() {
    let mut e = BubbleSort::from_values(vec![2, 1, 4, 3]);
    for _ in 0..4 {
        e.step();
    }
    let bars = e.render_state();
    assert_eq!(bars[0], Bar { value: 1, role: Role::Compared });
    assert_eq!(bars[1], Bar { value: 2, role: Role::Compared });
    assert_eq!(bars[2], Bar { value: 3, role: Role::Unsorted });
    assert_eq!(bars[3], Bar { value: 4, role: Role::Sorted });
}

#[test]
fn insertion_carries_each_value_left() {
    let mut e = InsertionSort::from_values(vec![3, 1, 4, 2]);
    e.step();
    assert_eq!(e.values(), &vec![1, 3, 4, 2]);
    e.step();
    assert_eq!(e.values(), &vec![1, 3, 4, 2]);
    e.step();
    assert_eq!(e.values(), &vec![1, 3, 4, 2]);
    e.step();
    assert_eq!(e.values(), &vec![1, 3, 2, 4]);
    e.step();
    assert_eq!(e.values(), &vec![1, 2, 3, 4]);
    assert!(!e.is_done());
    let steps = 5 + run_to_end(&mut e, 100);
    assert_eq!(steps, 6);
}

#[test]
fn gnome_walks_back_after_each_exchange() {
    let mut e = GnomeSort::from_values(vec![2, 3, 1]);
    let mut trace = Vec::new();
    while !e.is_done() {
        e.step();
        trace.push(e.values().clone());
    }
    assert_eq!(
        trace,
        vec![
            vec![2, 3, 1],
            vec![2, 3, 1],
            vec![2, 1, 3],
            vec![1, 2, 3],
            vec![1, 2, 3],
            vec![1, 2, 3],
            vec![1, 2, 3],
        ]
    );
}

#[test]
fn gnome_render_marks_the_pair() {
    let mut e = GnomeSort::from_values(vec![2, 3, 1]);
    e.step();
    e.step();
    let roles: Vec<Role> = e.render_state().iter().map(|b| b.role).collect();
    assert_eq!(roles, vec![Role::Unsorted, Role::Compared, Role::Compared]);
}

#[test]
fn empty_and_single_sequences_start_done() {
    assert!(SelectionSort::from_values(vec![]).is_done());
    assert!(BubbleSort::from_values(vec![]).is_done());
    assert!(BubbleSort::from_values(vec![4]).is_done());
    assert!(InsertionSort::from_values(vec![4]).is_done());
    assert!(GnomeSort::from_values(vec![]).is_done());
    assert!(!GnomeSort::from_values(vec![4]).is_done());
    assert!(!SelectionSort::from_values(vec![4]).is_done());
}

#[test]
fn ascending_values_counts_up() {
    assert_eq!(ascending_values(5), vec![1, 2, 3, 4, 5]);
    assert!(ascending_values(0).is_empty());
}

#[test]
fn random_sequence_is_a_shuffled_permutation() {
    let v = random_sequence(80);
    assert!(is_permutation_of_one_to(&v, 80));
    assert_ne!(v, ascending_values(80));
}

#[test]
fn swap_values_exchanges_two_positions() {
    let mut v = vec![1, 2, 3];
    assert!(swap_values(&mut v, 0, 2));
    assert_eq!(v, vec![3, 2, 1]);
    assert!(swap_values(&mut v, 1, 1));
    assert_eq!(v, vec![3, 2, 1]);
    assert!(!swap_values(&mut v, 1, 3));
    assert!(!swap_values(&mut v, 7, 0));
    assert_eq!(v, vec![3, 2, 1]);
}

fn out_of_order_pairs(v: &[u16]) -> usize {
    let mut c = 0;
    for b in 0..v.len() {
        for a in 0..b {
            if v[a] > v[b] {
                c += 1;
            }
        }
    }
    c
}

#[test]
fn exact_step_counts() {
    for input in inputs() {
        let n = input.len();
        let mut s = SelectionSort::from_values(input.clone());
        assert_eq!(run_to_end(&mut s, 10_000), n * (n + 1) / 2 + n);
        let mut b = BubbleSort::from_values(input.clone());
        let bubble = if n == 0 { 0 } else { n * (n + 1) / 2 - 1 };
        assert_eq!(run_to_end(&mut b, 10_000), bubble);
        let mut i = InsertionSort::from_values(input.clone());
        let insertion = if n < 2 { 0 } else { out_of_order_pairs(&input) + n - 1 };
        assert_eq!(run_to_end(&mut i, 10_000), insertion);
        let mut g = GnomeSort::from_values(input.clone());
        assert_eq!(run_to_end(&mut g, 10_000), 2 * out_of_order_pairs(&input) + n);
    }
}

#[test]
fn one_step_short_is_not_done() {
    let input = vec![5, 3, 8, 1, 9, 2];
    let mut s = SelectionSort::from_values(input.clone());
    for _ in 0..(6 * 7 / 2 + 6 - 1) {
        s.step();
    }
    assert!(!s.is_done());
    s.step();
    assert!(s.is_done());
}
