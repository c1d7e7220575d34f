use std::cell::Cell;

use corus_v2::synth::cache::Cache;

#[test]
fn cache_recomputes_only_for_new_arguments() {
    let calls = Cell::new(0);
    let mut cache = Cache::new(|x: u32| {
        calls.set(calls.get() + 1);
        x * 2
    });
    assert_eq!(cache.get_ref(3), None);
    assert_eq!(*cache.get(3), 6);
    assert_eq!(*cache.get(3), 6);
    assert_eq!(calls.get(), 1);
    assert_eq!(cache.get_ref(3), Some(&6));
    assert_eq!(cache.get_ref(4), None);
    assert_eq!(*cache.get(4), 8);
    assert_eq!(calls.get(), 2);
    cache.update(4);
    assert_eq!(calls.get(), 3);
    assert_eq!(cache.get_ref(4), Some(&8));
    assert_eq!(cache.get_ref(3), None);
}

#[derive(Clone, Debug)]
struct LastDigit(u32);

impl PartialEq for LastDigit {
    fn eq(&self, other: &Self) -> bool {
        self.0 % 10 == other.0 % 10
    }
}

#[test]
fn cache_hits_by_the_keys_own_equality() {
    let calls = Cell::new(0);
    let mut cache = Cache::new(|x: LastDigit| {
        calls.set(calls.get() + 1);
        x.0 + 100
    });
    assert_eq!(*cache.get(LastDigit(3)), 103);
    assert_eq!(*cache.get(LastDigit(13)), 103);
    assert_eq!(calls.get(), 1);
    assert_eq!(cache.get_ref(LastDigit(23)), Some(&103));
    assert_eq!(cache.get_ref(LastDigit(4)), None);
    assert_eq!(*cache.get(LastDigit(4)), 104);
    assert_eq!(calls.get(), 2);
}
