use yewtil::{Lrc, LrcArena};

#[test]
fn lrc_new() {
    let mut arena = LrcArena::new();
    let lrc = Lrc::new(&mut arena, 25);
    let other = Lrc::new(&mut arena, 25);
    assert!(lrc.value_eq(&other, &arena));
    assert_eq!(lrc.as_ref(&arena), &25);
}

#[test]
fn clone_lrc() {
    let mut arena = LrcArena::new();
    let lrc = Lrc::new(&mut arena, 25);
    let copy = lrc.clone(&mut arena);
    assert_eq!(copy.as_ref(&arena), &25);
}

#[test]
fn set_lrc() {
    let mut arena = LrcArena::new();
    let mut lrc = Lrc::new(&mut arena, 25);
    lrc.set(&mut arena, 30);
    assert_eq!(lrc.as_ref(&arena), &30);
}

#[test]
fn len_1() {
    let mut arena = LrcArena::new();
    let mut lrc = Lrc::new(&mut arena, 25);
    lrc.set(&mut arena, 24);
    assert_eq!(lrc.len(&arena), 1);
}

#[test]
fn droping_middle_connects_prev_and_next() {
    let mut arena = LrcArena::new();
    let mut lrc = Lrc::new(&mut arena, 0);
    assert_eq!(arena.count_of(lrc.slot()), 1, "exclusive ownership");

    // Clone the initial value so it will stick around towards the end of this test
    let og_clone = lrc.clone(&mut arena);
    assert_eq!(arena.count_of(lrc.slot()), 2, "shared ownership");

    lrc.set(&mut arena, 1);

    let head = lrc.slot();
    assert_eq!(arena.prev_of(head), None);
    assert_eq!(arena.value_of(head), &1);
    assert_eq!(arena.count_of(head), 1);
    assert!(arena.next_of(head).is_some(), "Should have pointer to previous head");

    let lrcs_next = arena.next_of(head).expect("Should have next node");
    let lrcs_nexts_prev = arena.prev_of(lrcs_next).expect("next.prev should be some");
    assert_eq!(arena.value_of(lrcs_next), &0);
    assert_eq!(arena.count_of(lrcs_next), 1, "Should still be owned by the Og Clone");
    assert!(arena.prev_of(lrcs_next).is_some(), "Should point to head");
    assert_eq!(lrcs_nexts_prev, head, "the head's next ptr's prev ptr should point back to the head");

    // Clone the head.
    let cloned_lrc = lrc.clone(&mut arena);
    assert_eq!(lrc.len(&arena), 2);

    let cloned_head = cloned_lrc.slot();
    assert_eq!(arena.prev_of(cloned_head), None);
    assert_eq!(arena.value_of(cloned_head), &1);
    assert_eq!(arena.count_of(cloned_head), 2);
    assert!(arena.next_of(cloned_head).is_some(), "Should have pointer to previous head");

    // Replace the head again
    lrc.set(&mut arena, 2);

    let head = lrc.slot();
    assert_eq!(arena.prev_of(head), None);
    assert_eq!(arena.value_of(head), &2, "value should now be updated to 2");
    assert_eq!(arena.count_of(head), 1, "there should only be one owner of this node");
    assert!(arena.next_of(head).is_some(), "Should have pointer to previous head");

    // This should have modified the cloned_lrc's head's prev ptr to point to the head of the lrc
    let cloned_lrcs_heads_prev = arena.prev_of(cloned_head).expect("Should point to head");
    assert_eq!(cloned_lrcs_heads_prev, head);

    assert_eq!(lrc.len(&arena), 3);

    // Drop the cloned_lrc, which in cleanup,
    // should attach the head node of lrc (currently of value 2),
    // with the lail node of lrc (value of 0)
    cloned_lrc.release(&mut arena);

    assert_eq!(lrc.len(&arena), 2);

    let lrcs_next = arena.next_of(lrc.slot()).expect("Should have next node");
    assert_eq!(arena.value_of(lrcs_next), &0);
    assert_eq!(lrcs_next, og_clone.slot());
}

#[test]
fn single_node_older_yeilds_none() {
    let mut arena = LrcArena::new();
    let mut lrc = Lrc::new(&mut arena, 25);
    let older = lrc.next(&mut arena);
    assert!(older.is_none());
}

#[test]
fn single_node_newer_yeilds_none() {
    let mut arena = LrcArena::new();
    let mut lrc = Lrc::new(&mut arena, 25);
    let newer = lrc.next_back(&mut arena);
    assert!(newer.is_none());
}

#[test]
fn older_traverses_to_previous_lrc() {
    let mut arena = LrcArena::new();
    let mut lrc = Lrc::new(&mut arena, 25);
    let _clone = lrc.clone(&mut arena);
    lrc.set(&mut arena, 26);
    let older = lrc.next(&mut arena);
    let expected = Lrc::new(&mut arena, 25);
    assert!(older.expect("an older node").value_eq(&expected, &arena));
}

#[test]
fn newer_traverses_back_to_original_head_lrc() {
    let mut arena = LrcArena::new();
    let mut lrc = Lrc::new(&mut arena, 25);
    let _clone = lrc.clone(&mut arena);
    lrc.set(&mut arena, 26);
    let head = lrc.clone(&mut arena);
    let older = lrc.next(&mut arena);
    let expected = Lrc::new(&mut arena, 25);
    let mut older = older.expect("an older node");
    assert!(older.value_eq(&expected, &arena));
    let newer = older.next_back(&mut arena);
    assert!(newer.expect("a newer node").value_eq(&head, &arena));
}

#[test]
fn attempt_to_dangle_ref() {
    let mut arena = LrcArena::new();
    let lrc = Lrc::new(&mut arena, vec![25]);
    let mut cloned_lrc = lrc.clone(&mut arena);
    let first_item = lrc.as_ref(&arena)[0];
    cloned_lrc.set(&mut arena, vec![22, 23]);
    assert_eq!(first_item, 25);
    assert_eq!(lrc.as_ref(&arena)[0], 25);
}

#[test]
fn ptr_eq_positive() {
    let mut arena = LrcArena::new();
    let lrc = Lrc::new(&mut arena, 24);
    let cloned_lrc = lrc.clone(&mut arena);
    assert!(Lrc::ptr_eq(&lrc, &cloned_lrc));
}

#[test]
fn ptr_eq_negative() {
    let mut arena = LrcArena::new();
    let lrc = Lrc::new(&mut arena, 24);
    let other_lrc = Lrc::new(&mut arena, 24);
    assert!(!Lrc::ptr_eq(&lrc, &other_lrc));
}

#[test]
fn update_sets_lrc_to_have_newest_value() {
    let mut arena = LrcArena::new();
    let mut lrc = Lrc::new(&mut arena, 0);
    let mut cloned_lrc = lrc.clone(&mut arena);

    cloned_lrc.set(&mut arena, 1);
    assert_eq!(cloned_lrc.as_ref(&arena), &1);
    assert_eq!(lrc.as_ref(&arena), &0);

    lrc.update(&mut arena);
    assert_eq!(lrc.as_ref(&arena), &1);
}

#[test]
fn advance_next() {
    let mut arena = LrcArena::new();
    let mut lrc = Lrc::new(&mut arena, 0);
    let mut clone = lrc.clone(&mut arena);
    lrc.set(&mut arena, 1);
    clone.advance_back(&mut arena);

    assert_eq!(clone.as_ref(&arena), &1);
}
