use std::sync::Arc;

use corus_v2::unsafe_wrapper::UnsafeWrapper;

#[test]
fn wrapper_shares_its_value() {
    let w = UnsafeWrapper::new(vec![1, 2, 3]);
    let c = w.clone();
    assert_eq!(*w, vec![1, 2, 3]);
    assert_eq!(*c, vec![1, 2, 3]);
    assert!(Arc::ptr_eq(&w.0, &c.0));
}
