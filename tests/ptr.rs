use std::rc::Rc;

use yewtil::{Irc, Mrc, RcArena};

#[test]
fn create_new() {
    let mut arena = RcArena::new();
    let _irc = Irc::new(&mut arena, 0);
}

#[test]
fn irc_new_reads_back_with_one_handle() {
    let mut arena = RcArena::new();
    let irc = Irc::new(&mut arena, 7);
    assert_eq!(irc.as_ref(&arena), &7);
    assert_eq!(irc.get_count(&arena), 1);
    assert!(irc.is_exclusive(&arena));
}

#[test]
fn irc_clone_counts_and_release_frees() {
    let probe = Rc::new(5);
    let mut arena = RcArena::new();
    let irc = Irc::new(&mut arena, probe.clone());
    assert_eq!(Rc::strong_count(&probe), 2);
    let copy = irc.clone(&mut arena);
    assert_eq!(irc.get_count(&arena), 2);
    assert!(Irc::ptr_eq(&irc, &copy));
    copy.release(&mut arena);
    assert_eq!(irc.get_count(&arena), 1);
    assert_eq!(Rc::strong_count(&probe), 2);
    let slot_count = arena.allocated();
    irc.release(&mut arena);
    assert_eq!(Rc::strong_count(&probe), 1);
    assert!(!arena.is_live(slot_count - 1));
}

#[test]
fn irc_try_unwrap_only_when_exclusive() {
    let mut arena = RcArena::new();
    let irc = Irc::new(&mut arena, String::from("a"));
    let copy = irc.clone(&mut arena);
    let irc = match irc.try_unwrap(&mut arena) {
        Ok(_) => panic!("shared handle must not unwrap"),
        Err(back) => back,
    };
    assert_eq!(irc.get_count(&arena), 2);
    assert_eq!(irc.as_ref(&arena), "a");
    copy.release(&mut arena);
    assert_eq!(irc.try_unwrap(&mut arena).ok(), Some(String::from("a")));
    assert!(!arena.is_live(0));
}

#[test]
fn irc_clone_inner_and_unwrap_clone() {
    let mut arena = RcArena::new();
    let irc = Irc::new(&mut arena, vec![1, 2]);
    assert_eq!(irc.clone_inner(&arena), vec![1, 2]);
    let copy = irc.clone(&mut arena);
    assert_eq!(copy.unwrap_clone(&mut arena), vec![1, 2]);
    assert_eq!(irc.get_count(&arena), 1);
    assert_eq!(irc.unwrap_clone(&mut arena), vec![1, 2]);
    assert!(!arena.is_live(0));
}

#[test]
fn irc_value_eq_compares_values() {
    let mut arena = RcArena::new();
    let a = Irc::new(&mut arena, 3);
    let b = Irc::new(&mut arena, 3);
    let c = Irc::new(&mut arena, 4);
    assert!(a.value_eq(&b, &arena));
    assert!(!a.value_eq(&c, &arena));
    assert!(!Irc::ptr_eq(&a, &b));
}

#[test]
fn mrc_get_mut_only_when_exclusive() {
    let mut arena = RcArena::new();
    let mrc = Mrc::new(&mut arena, 1);
    *mrc.get_mut(&mut arena).expect("exclusive") = 2;
    assert_eq!(mrc.as_ref(&arena), &2);
    let copy = mrc.clone(&mut arena);
    assert!(mrc.get_mut(&mut arena).is_none());
    assert_eq!(copy.as_ref(&arena), &2);
}

#[test]
fn mrc_make_mut_exclusive_does_not_allocate() {
    let mut arena = RcArena::new();
    let mut mrc = Mrc::new(&mut arena, 1);
    let before = arena.allocated();
    *mrc.make_mut(&mut arena) = 5;
    *mrc.make_mut(&mut arena) = 6;
    assert_eq!(arena.allocated(), before);
    assert_eq!(mrc.as_ref(&arena), &6);
}

#[test]
fn mrc_make_mut_shared_copies_once() {
    let mut arena = RcArena::new();
    let mut mrc = Mrc::new(&mut arena, String::from("x"));
    let other = mrc.clone(&mut arena);
    mrc.make_mut(&mut arena).push('y');
    assert_eq!(arena.allocated(), 2);
    assert_eq!(mrc.as_ref(&arena), "xy");
    assert_eq!(other.as_ref(&arena), "x");
    assert_eq!(other.get_count(&arena), 1);
    assert_eq!(mrc.get_count(&arena), 1);
    mrc.make_mut(&mut arena).push('z');
    assert_eq!(arena.allocated(), 2);
    assert_eq!(mrc.as_ref(&arena), "xyz");
}

#[test]
fn mrc_irc_shares_the_cell() {
    let mut arena = RcArena::new();
    let mrc = Mrc::new(&mut arena, 9);
    let irc = mrc.irc(&mut arena);
    assert_eq!(mrc.get_count(&arena), 2);
    assert_eq!(irc.as_ref(&arena), &9);
    let second = mrc.clone(&mut arena).into_irc();
    assert_eq!(second.get_count(&arena), 3);
    irc.release(&mut arena);
    second.release(&mut arena);
    assert!(mrc.is_exclusive(&arena));
}

#[test]
fn mrc_try_unwrap_and_unwrap_clone() {
    let mut arena = RcArena::new();
    let mrc = Mrc::new(&mut arena, 4);
    let copy = mrc.clone(&mut arena);
    let mrc = mrc.try_unwrap(&mut arena).expect_err("shared");
    assert_eq!(mrc.clone_inner(&arena), 4);
    assert_eq!(copy.unwrap_clone(&mut arena), 4);
    assert_eq!(mrc.get_count(&arena), 1);
    assert_eq!(mrc.try_unwrap(&mut arena).ok(), Some(4));
}

#[test]
fn irc_and_mrc_order_by_value() {
    let mut arena = RcArena::new();
    let a = Irc::new(&mut arena, 'a');
    let b = Irc::new(&mut arena, 'b');
    assert_eq!(a.value_partial_cmp(&b, &arena), Some(std::cmp::Ordering::Less));
    let m = Mrc::new(&mut arena, 'b');
    let n = Mrc::new(&mut arena, 'b');
    assert_eq!(m.value_partial_cmp(&n, &arena), Some(std::cmp::Ordering::Equal));
    assert!(m.value_eq(&n, &arena));
}
