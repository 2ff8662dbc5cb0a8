use crayon::utils::{Handle, HandlePool};

#[test]
fn nil_is_the_only_invalid_handle() {
    assert!(!Handle::nil().is_valid());
    assert!(Handle::new(0, 1).is_valid());
    assert!(Handle::new(1, 0).is_valid());
    assert_eq!(Handle::new(3, 4).index(), 3);
    assert_eq!(Handle::new(3, 4).version(), 4);
    assert_eq!(Handle::nil(), Handle::new(0, 0));
}

#[test]
fn a_new_pool_knows_no_handle() {
    let pool = HandlePool::new();
    assert_eq!(pool.size(), 0);
    assert!(!pool.is_alive(Handle::nil()));
    assert!(!pool.is_alive(Handle::new(0, 1)));
    assert_eq!(pool.at(0), None);
}

#[test]
fn handles_come_with_new_indices_and_version_one() {
    let mut pool = HandlePool::new();
    let a = pool.create().unwrap();
    let b = pool.create().unwrap();
    assert_eq!(a, Handle::new(0, 1));
    assert_eq!(b, Handle::new(1, 1));
    assert!(pool.is_alive(a));
    assert!(pool.is_alive(b));
    assert_eq!(pool.size(), 2);
    assert_eq!(pool.at(1), Some(b));
    assert_eq!(pool.at(2), None);
}

#[test]
fn a_freed_handle_is_dead_for_good() {
    let mut pool = HandlePool::new();
    let a = pool.create().unwrap();
    assert!(pool.free(a));
    assert!(!pool.is_alive(a));
    assert!(!pool.free(a));
    assert_eq!(pool.at(0), None);
    let again = pool.create().unwrap();
    assert_eq!(again, Handle::new(0, 3));
    assert!(pool.is_alive(again));
    assert!(!pool.is_alive(a));
    assert_eq!(pool.size(), 1);
}

#[test]
fn the_index_freed_last_is_handed_out_first() {
    let mut pool = HandlePool::new();
    let a = pool.create().unwrap();
    let b = pool.create().unwrap();
    let c = pool.create().unwrap();
    assert!(pool.free(a));
    assert!(pool.free(c));
    assert_eq!(pool.create().unwrap().index(), c.index());
    assert_eq!(pool.create().unwrap().index(), a.index());
    assert_eq!(pool.create().unwrap().index(), 3);
    assert!(pool.is_alive(b));
}

#[test]
fn a_handle_with_a_wrong_version_is_not_alive() {
    let mut pool = HandlePool::new();
    let a = pool.create().unwrap();
    assert!(!pool.is_alive(Handle::new(a.index(), 2)));
    assert!(!pool.is_alive(Handle::new(a.index(), 3)));
    assert!(!pool.free(Handle::new(a.index(), 3)));
    assert!(pool.is_alive(a));
}
