use std::sync::Arc;

use reclipse::handle::Handle;
use reclipse::pool::AssetPool;

#[test]
fn empty_pool_serves_default() {
    let default = Arc::new(String::from("default"));
    let pool = AssetPool::new(default.clone());
    assert_eq!(pool.len(), 0);
    assert!(Arc::ptr_eq(&pool.get(0), &default));
    assert!(Arc::ptr_eq(&pool.get(42), &default));
}

#[test]
fn inserted_asset_is_served() {
    let default = Arc::new(String::from("default"));
    let mut pool = AssetPool::new(default.clone());
    let brick = Arc::new(String::from("brick"));
    pool.insert(5, brick.clone());
    assert_eq!(pool.len(), 1);
    assert!(Arc::ptr_eq(&pool.get(5), &brick));
    assert!(Arc::ptr_eq(&pool.get(4), &default));
    assert!(Arc::ptr_eq(&pool.get(6), &default));
}

#[test]
fn insert_replaces_earlier_asset() {
    let mut pool = AssetPool::new(Arc::new(0u32));
    pool.insert(2, Arc::new(10u32));
    pool.insert(2, Arc::new(20u32));
    assert_eq!(pool.len(), 1);
    assert_eq!(*pool.get(2), 20);
}

#[test]
fn unknown_identities_read_default() {
    let mut pool = AssetPool::new(Arc::new(7u32));
    pool.insert(3, Arc::new(30u32));
    assert_eq!(*pool.get(0), 7);
    assert_eq!(*pool.get(2), 7);
    assert_eq!(*pool.get(4), 7);
    assert_eq!(*pool.get(usize::MAX), 7);
}

#[test]
fn primitives_take_the_lowest_identities() {
    let quad = Arc::new(String::from("quad"));
    let tri = Arc::new(String::from("triangle"));
    let pool = AssetPool::with_primitives(vec![quad.clone(), tri.clone()]);
    assert_eq!(pool.len(), 2);
    assert!(Arc::ptr_eq(&pool.get(0), &quad));
    assert!(Arc::ptr_eq(&pool.get(1), &tri));
    // the first primitive is the fallback
    assert!(Arc::ptr_eq(&pool.get(2), &quad));
}

#[test]
fn handles_compare_by_identity() {
    let a = Handle::<u8>::new(3);
    let b = Handle::<u8>::new(3);
    let c = Handle::<u8>::new(4);
    assert!(a == b);
    assert!(a != c);
    assert_eq!(a.id(), 3);
    assert_eq!(a.asset_id, 3);
    let d = a;
    let e = a.clone();
    assert!(d == e);
    assert_eq!(e.id(), 3);
}
