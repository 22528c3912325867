use reactive_multimap::rc_borrow::{Borrow, RcBorrow};

#[test]
fn test_rc_borrow() {
    let x: u32 = 123;
    {
        let mut rcb = RcBorrow::new(x);
        let r = rcb.get();
        assert_eq!(r.value(), 123);
        rcb.release(r);
        assert!(rcb.finish());
    }
}

#[test]
fn test_rc_borrow_deref() {
    let x: u32 = 123;
    {
        let rcb = RcBorrow::new(x);
        assert_eq!(rcb.value(), 123);
        assert!(rcb.finish());
    }
}

#[test]
#[should_panic]
fn test_rc_borrow_panic() {
    let x: u32 = 123;
    let mut _evil: Option<Borrow<u32>> = None;
    {
        let mut rcb = RcBorrow::new(x);
        let handle = rcb.get();
        assert_eq!(handle.value(), 123);
        _evil = Some(handle);
        // The handle outlives the cell: tearing the cell down while it
        // survives is the fatal ownership violation.
        assert!(rcb.finish());
    }
}

#[test]
fn teardown_in_dependency_order_succeeds() {
    let mut rcb = RcBorrow::new(5u64);
    let a = rcb.get();
    let b = rcb.get();
    rcb.release(a);
    rcb.release(b);
    assert!(rcb.finish());
}
