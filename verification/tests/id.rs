use chat_server::id::Allocator;
use std::collections::BTreeSet;

#[test]
fn fresh_allocator_holds_nothing() {
    let a = Allocator::new();
    assert_eq!(a.len(), 0);
    assert!(!a.is_live(0));
    assert!(!a.is_live(1));
    assert!(a.can_get());
}

#[test]
fn ids_start_at_one_and_rise() {
    let mut a = Allocator::new();
    assert_eq!(a.get(), 1);
    assert_eq!(a.get(), 2);
    assert_eq!(a.get(), 3);
    assert_eq!(a.len(), 3);
}

#[test]
fn n_gets_without_release_give_one_to_n() {
    let mut a = Allocator::new();
    let n: usize = 64;
    let mut seen = BTreeSet::new();
    for _ in 0..n {
        assert!(seen.insert(a.get()));
    }
    assert_eq!(a.len(), n);
    let expected: BTreeSet<usize> = (1..=n).collect();
    assert_eq!(seen, expected);
    for id in 1..=n {
        assert!(a.is_live(id));
    }
    assert!(!a.is_live(0));
    assert!(!a.is_live(n + 1));
}

#[test]
fn released_id_comes_back_before_a_new_one() {
    let mut a = Allocator::new();
    assert_eq!(a.get(), 1);
    assert_eq!(a.get(), 2);
    assert_eq!(a.get(), 3);
    a.remove(2);
    assert_eq!(a.len(), 2);
    assert!(!a.is_live(2));
    assert_eq!(a.get(), 2);
    assert_eq!(a.get(), 4);
    assert_eq!(a.len(), 4);
}

#[test]
fn reuse_is_last_in_first_out() {
    let mut a = Allocator::new();
    for _ in 0..5 {
        a.get();
    }
    a.remove(2);
    a.remove(5);
    a.remove(1);
    assert_eq!(a.len(), 2);
    assert_eq!(a.get(), 1);
    assert_eq!(a.get(), 5);
    assert_eq!(a.get(), 2);
    assert_eq!(a.get(), 6);
}

#[test]
fn count_is_high_water_mark_less_pending() {
    let mut a = Allocator::new();
    for _ in 0..10 {
        a.get();
    }
    a.remove(3);
    a.remove(7);
    a.remove(10);
    assert_eq!(a.len(), 7);
    a.get();
    assert_eq!(a.len(), 8);
}

#[test]
fn an_id_in_use_is_never_issued_again() {
    let mut a = Allocator::new();
    let mut held: BTreeSet<usize> = BTreeSet::new();
    let mut turn: usize = 0;
    while turn < 500 {
        if turn % 3 == 2 {
            let victim = *held.iter().nth(turn % held.len()).unwrap();
            assert!(a.is_live(victim));
            a.remove(victim);
            held.remove(&victim);
            assert!(!a.is_live(victim));
        } else {
            let id = a.get();
            assert!(id >= 1);
            assert!(held.insert(id));
        }
        assert_eq!(a.len(), held.len());
        turn += 1;
    }
}
