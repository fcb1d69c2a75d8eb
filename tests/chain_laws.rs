use std::rc::Rc;

use yewtil::{Lrc, LrcArena};

#[test]
fn new_reads_back_with_one_handle() {
    let mut arena = LrcArena::new();
    let lrc = Lrc::new(&mut arena, String::from("v"));
    assert_eq!(lrc.as_ref(&arena), "v");
    assert_eq!(lrc.get_count(&arena), 1);
    assert_eq!(lrc.len(&arena), 1);
}

#[test]
fn clone_counts_and_last_release_frees() {
    let probe = Rc::new(0);
    let mut arena = LrcArena::new();
    let lrc = Lrc::new(&mut arena, probe.clone());
    let copy = lrc.clone(&mut arena);
    assert_eq!(lrc.get_count(&arena), 2);
    copy.release(&mut arena);
    assert_eq!(lrc.get_count(&arena), 1);
    assert_eq!(Rc::strong_count(&probe), 2);
    let slot = lrc.slot();
    lrc.release(&mut arena);
    assert_eq!(Rc::strong_count(&probe), 1);
    assert!(!arena.is_live(slot));
}

#[test]
fn exclusive_set_and_make_mut_keep_the_chain() {
    let mut arena = LrcArena::new();
    let mut lrc = Lrc::new(&mut arena, 1);
    let slot = lrc.slot();
    lrc.set(&mut arena, 2);
    *lrc.make_mut(&mut arena) = 3;
    assert_eq!(lrc.slot(), slot);
    assert_eq!(arena.allocated(), 1);
    assert_eq!(lrc.len(&arena), 1);
    assert_eq!(lrc.as_ref(&arena), &3);
}

#[test]
fn shared_set_pushes_one_node() {
    let mut arena = LrcArena::new();
    let mut lrc = Lrc::new(&mut arena, 'a');
    let other = lrc.clone(&mut arena);
    let before = lrc.len(&arena);
    lrc.set(&mut arena, 'b');
    assert_eq!(lrc.len(&arena), before + 1);
    assert_eq!(other.as_ref(&arena), &'a');
    assert_eq!(other.get_count(&arena), 1);
    assert_eq!(lrc.get_count(&arena), 1);
}

#[test]
fn update_reaches_sibling_value() {
    let mut arena = LrcArena::new();
    let mut lrc = Lrc::new(&mut arena, 10);
    let mut sibling = lrc.clone(&mut arena);
    sibling.set(&mut arena, 11);
    assert!(!Lrc::ptr_eq(&lrc, &sibling));
    lrc.update(&mut arena);
    assert_eq!(lrc.as_ref(&arena), &11);
    assert!(Lrc::ptr_eq(&lrc, &sibling));
    assert_eq!(lrc.get_count(&arena), 2);
    assert_eq!(lrc.len(&arena), 1);
}

#[test]
fn release_middle_joins_outer_nodes() {
    let mut arena = LrcArena::new();
    let mut head = Lrc::new(&mut arena, 0);
    let mut tail = head.clone(&mut arena);
    head.set(&mut arena, 1);
    let middle = head.clone(&mut arena);
    head.set(&mut arena, 2);
    assert_eq!(head.len(&arena), 3);

    middle.release(&mut arena);

    assert_eq!(head.len(&arena), 2);
    assert_eq!(arena.next_of(head.slot()), Some(tail.slot()));
    assert_eq!(arena.prev_of(tail.slot()), Some(head.slot()));
    assert_eq!(tail.len(&arena), 1);
    let newer = tail.next_back(&mut arena).expect("the head");
    assert!(Lrc::ptr_eq(&newer, &head));
    assert!(tail.next_back(&mut arena).is_none());
}

#[test]
fn try_unwrap_needs_exclusive_handle() {
    let mut arena = LrcArena::new();
    let lrc = Lrc::new(&mut arena, vec![1]);
    let copy = lrc.clone(&mut arena);
    let lrc = match lrc.try_unwrap(&mut arena) {
        Ok(_) => panic!("shared handle must not unwrap"),
        Err(back) => back,
    };
    assert_eq!(lrc.get_count(&arena), 2);
    assert_eq!(lrc.as_ref(&arena), &vec![1]);
    copy.release(&mut arena);
    assert_eq!(lrc.try_unwrap(&mut arena).ok(), Some(vec![1]));
}

#[test]
fn try_unwrap_joins_neighbours() {
    let mut arena = LrcArena::new();
    let mut head = Lrc::new(&mut arena, 0);
    let tail = head.clone(&mut arena);
    head.set(&mut arena, 1);
    let mut middle = head.clone(&mut arena);
    head.set(&mut arena, 2);
    middle.set(&mut arena, 5);
    assert_eq!(middle.try_unwrap(&mut arena).ok(), Some(5));
    assert_eq!(arena.next_of(head.slot()), Some(tail.slot()));
    assert_eq!(head.len(&arena), 2);
}

#[test]
fn advance_next_succeeds_len_minus_one_times() {
    let mut arena = LrcArena::new();
    let mut lrc = Lrc::new(&mut arena, 0);
    let mut keep = Vec::new();
    for v in 1..4 {
        keep.push(lrc.clone(&mut arena));
        lrc.set(&mut arena, v);
    }
    let n = lrc.len(&arena);
    assert_eq!(n, 4);
    let mut successes = 0;
    while lrc.advance_next(&mut arena) {
        successes += 1;
    }
    assert_eq!(successes, n - 1);
    assert_eq!(lrc.as_ref(&arena), &0);
    assert!(!lrc.advance_next(&mut arena));
}

#[test]
fn set_then_update_scenario() {
    let mut arena = LrcArena::new();
    let mut lrc = Lrc::new(&mut arena, 0);
    let mut cloned = lrc.clone(&mut arena);
    lrc.set(&mut arena, 1);
    assert_eq!(lrc.as_ref(&arena), &1);
    assert_eq!(cloned.as_ref(&arena), &0);
    assert_eq!(lrc.get_count(&arena), 1);
    assert_eq!(lrc.len(&arena), 2);
    cloned.update(&mut arena);
    assert_eq!(cloned.as_ref(&arena), &1);
    assert!(Lrc::ptr_eq(&lrc, &cloned));
}

#[test]
fn alter_sets_computed_value() {
    let mut arena = LrcArena::new();
    let mut lrc = Lrc::new(&mut arena, 0);
    lrc.alter(&mut arena, |current| current + 1);
    assert_eq!(lrc.as_ref(&arena), &1);
    assert_eq!(arena.allocated(), 1);
}

#[test]
fn get_mut_only_when_exclusive() {
    let mut arena = LrcArena::new();
    let lrc = Lrc::new(&mut arena, 1);
    assert_eq!(lrc.get_mut(&mut arena), Some(&mut 1));
    let lrc_clone = lrc.clone(&mut arena);
    assert_eq!(lrc.get_mut(&mut arena), None);
    assert_eq!(lrc_clone.get_count(&arena), 2);
}

#[test]
fn make_mut_on_shared_copies_onto_new_node() {
    let mut arena = LrcArena::new();
    let mut lrc = Lrc::new(&mut arena, 1);
    let _lrc_clone = lrc.clone(&mut arena);
    assert_eq!(lrc.get_count(&arena), 2);
    assert_eq!(lrc.len(&arena), 1);
    *lrc.make_mut(&mut arena) = 2;
    assert_eq!(lrc.get_count(&arena), 1);
    assert_eq!(lrc.len(&arena), 2);
    *lrc.make_mut(&mut arena) = 3;
    assert_eq!(lrc.len(&arena), 2);
    assert_eq!(lrc.as_ref(&arena), &3);
}

#[test]
fn set_on_older_shared_node_keeps_links_live() {
    let mut arena = LrcArena::new();
    let mut a = Lrc::new(&mut arena, 0);
    let mut b = a.clone(&mut arena);
    let c = a.clone(&mut arena);
    b.set(&mut arena, 1);
    a.set(&mut arena, 2);
    c.release(&mut arena);
    assert_eq!(b.len(&arena), 1);
    assert_eq!(a.len(&arena), 1);
    assert_eq!(b.as_ref(&arena), &1);
    assert_eq!(a.as_ref(&arena), &2);
    assert!(!b.advance_next(&mut arena));
}

#[test]
fn value_eq_ignores_position() {
    let mut arena = LrcArena::new();
    let a = Lrc::new(&mut arena, 10);
    let b = Lrc::new(&mut arena, 10);
    let c = Lrc::new(&mut arena, 11);
    assert!(a.value_eq(&b, &arena));
    assert!(!a.value_eq(&c, &arena));
    assert!(!Lrc::ptr_eq(&a, &b));
}

#[test]
fn value_partial_cmp_orders_by_value() {
    let mut arena = LrcArena::new();
    let a = Lrc::new(&mut arena, 1);
    let b = Lrc::new(&mut arena, 2);
    assert_eq!(a.value_partial_cmp(&b, &arena), Some(std::cmp::Ordering::Less));
    assert_eq!(b.value_partial_cmp(&a, &arena), Some(std::cmp::Ordering::Greater));
}
