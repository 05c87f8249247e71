use charge_sim::{steps, Action, Order, StepCursor};

fn force(target: usize, source: usize) -> Action {
    Action::Force { target, source }
}

fn moved(particle: usize) -> Action {
    Action::Move { particle }
}

#[test]
fn empty_step_has_no_actions() {
    assert!(steps(0, Order::InPlace).is_empty());
    let mut cursor = StepCursor::new(0, Order::InPlace);
    assert_eq!(cursor.next_step(), None);
}

#[test]
fn lone_particle_only_moves() {
    assert_eq!(steps(1, Order::InPlace), vec![moved(0)]);
}

#[test]
fn two_particles_in_order() {
    assert_eq!(steps(2, Order::InPlace), vec![force(1, 0), moved(0), force(0, 1), moved(1)]);
}

#[test]
fn three_particles_in_order() {
    assert_eq!(
        steps(3, Order::InPlace),
        vec![
            force(1, 0),
            force(2, 0),
            moved(0),
            force(0, 1),
            force(2, 1),
            moved(1),
            force(0, 2),
            force(1, 2),
            moved(2),
        ]
    );
}

#[test]
fn cursor_stays_exhausted() {
    let mut cursor = StepCursor::new(2, Order::InPlace);
    let mut seen = Vec::new();
    while let Some(a) = cursor.next_step() {
        seen.push(a);
    }
    assert_eq!(seen, steps(2, Order::InPlace));
    assert_eq!(cursor.next_step(), None);
    assert_eq!(cursor.next_step(), None);
}

#[test]
fn every_ordered_pair_once_and_every_move_once() {
    let n: usize = 7;
    let all = steps(n, Order::InPlace);
    assert_eq!(all.len(), n * n);
    for t in 0..n {
        for s in 0..n {
            let hits = all.iter().filter(|a| **a == force(t, s)).count();
            assert_eq!(hits, if t == s { 0 } else { 1 });
        }
        assert_eq!(all.iter().filter(|a| **a == moved(t)).count(), 1);
    }
}

#[test]
fn source_moves_after_its_forces() {
    let n: usize = 5;
    let all = steps(n, Order::InPlace);
    let at = |a: Action| all.iter().position(|b| *b == a).unwrap();
    for t in 0..n {
        for s in 0..n {
            if t != s {
                assert!(at(force(t, s)) < at(moved(s)));
                assert_eq!(at(force(t, s)) > at(moved(t)), t < s);
            }
        }
    }
}

#[test]
fn staged_small_steps() {
    assert!(steps(0, Order::Staged).is_empty());
    assert_eq!(steps(1, Order::Staged), vec![moved(0)]);
    assert_eq!(steps(2, Order::Staged), vec![force(1, 0), force(0, 1), moved(0), moved(1)]);
    assert_eq!(
        steps(3, Order::Staged),
        vec![
            force(1, 0),
            force(2, 0),
            force(0, 1),
            force(2, 1),
            force(0, 2),
            force(1, 2),
            moved(0),
            moved(1),
            moved(2),
        ]
    );
}

#[test]
fn staged_cursor_stays_exhausted() {
    let mut cursor = StepCursor::new(3, Order::Staged);
    let mut seen = Vec::new();
    while let Some(a) = cursor.next_step() {
        seen.push(a);
    }
    assert_eq!(seen, steps(3, Order::Staged));
    assert_eq!(cursor.next_step(), None);
    let mut lone = StepCursor::new(1, Order::Staged);
    assert_eq!(lone.next_step(), Some(moved(0)));
    assert_eq!(lone.next_step(), None);
}

#[test]
fn staged_pairs_once_and_forces_first() {
    let n: usize = 6;
    let all = steps(n, Order::Staged);
    assert_eq!(all.len(), n * n);
    for t in 0..n {
        for s in 0..n {
            let hits = all.iter().filter(|a| **a == force(t, s)).count();
            assert_eq!(hits, if t == s { 0 } else { 1 });
        }
        assert_eq!(all.iter().filter(|a| **a == moved(t)).count(), 1);
    }
    let last_force = all.iter().rposition(|a| matches!(a, Action::Force { .. })).unwrap();
    let first_move = all.iter().position(|a| matches!(a, Action::Move { .. })).unwrap();
    assert!(last_force < first_move);
}
