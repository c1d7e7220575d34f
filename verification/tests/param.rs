use corus_v2::nodes::param::{held_handle, Emission, Handle, Timeline};

fn times<V>(t: &mut Timeline<V>) -> Vec<u64> {
    let mut out = vec![];
    while let Some((time, _)) = t.pop_due(u64::MAX) {
        out.push(time);
    }
    out
}

#[test]
fn timeline_keeps_time_order() {
    let mut t = Timeline::new();
    t.push_handle(20, Handle::SetValue { value: 2 });
    t.push_handle(10, Handle::SetValue { value: 1 });
    t.push_handle(20, Handle::LinearRamp { value: 3 });
    t.push_handle(15, Handle::SetValue { value: 4 });
    assert_eq!(times(&mut t), vec![10, 15, 20, 20]);
}

#[test]
fn timeline_segment_on_a_ramp() {
    let mut t = Timeline::new();
    t.push_handle(10, Handle::SetValue { value: 1 });
    t.push_handle(20, Handle::LinearRamp { value: 2 });
    let s = t.segment(15);
    assert_eq!(s.before, Some(0));
    assert_eq!(s.after, Some(1));
    let s = t.segment(25);
    assert_eq!(s.before, Some(1));
    assert_eq!(s.after, None);
    let s = t.segment(5);
    assert_eq!(s.before, None);
    assert_eq!(s.after, None);
}

#[test]
fn timeline_segment_toward_a_target() {
    let mut t = Timeline::new();
    t.push_handle(10, Handle::SetValue { value: 1 });
    t.push_handle(20, Handle::SetTarget { target: 5, time_constant: 1 });
    t.push_handle(40, Handle::SetValue { value: 7 });
    let s = t.segment(30);
    assert_eq!(s.before, Some(0));
    assert_eq!(s.after, Some(1));
    let s = t.segment(40);
    assert_eq!(s.before, Some(2));
    assert_eq!(s.after, None);
}

#[test]
fn timeline_cancel_drops_later_changes() {
    let mut t = Timeline::new();
    t.push_handle(10, Handle::SetValue { value: 1 });
    t.push_handle(20, Handle::ExponentialRamp { value: 2 });
    t.push_handle(30, Handle::SetValue { value: 3 });
    match t.cancel_scheduled_values(15) {
        Some((20, Handle::ExponentialRamp { value: 2 })) => {}
        other => panic!("unexpected {:?}", other),
    }
    assert_eq!(t.first().map(|e| e.0), Some(10));
    assert!(t.cancel_scheduled_values(15).is_none());
    assert_eq!(times(&mut t), vec![10]);
}

#[test]
fn timeline_pop_due_respects_end_time() {
    let mut t = Timeline::new();
    t.push_handle(10, Handle::SetValue { value: 1 });
    assert!(t.pop_due(9).is_none());
    assert!(t.first().is_some());
    assert!(t.pop_due(10).is_some());
    assert!(t.first().is_none());
}

#[test]
fn held_handle_keeps_the_ramp_kind() {
    match held_handle(&Some((5, Handle::LinearRamp { value: 1 })), 9) {
        Handle::LinearRamp { value: 9 } => {}
        other => panic!("unexpected {:?}", other),
    }
    match held_handle(&Some((5, Handle::ExponentialRamp { value: 1 })), 9) {
        Handle::ExponentialRamp { value: 9 } => {}
        other => panic!("unexpected {:?}", other),
    }
    match held_handle(&Some((5, Handle::SetTarget { target: 1, time_constant: 2 })), 9) {
        Handle::SetValue { value: 9 } => {}
        other => panic!("unexpected {:?}", other),
    }
    match held_handle::<i32>(&None, 9) {
        Handle::SetValue { value: 9 } => {}
        other => panic!("unexpected {:?}", other),
    }
}

#[test]
fn timeline_jumps_hold_the_latest_due_call() {
    let mut t = Timeline::new();
    t.push_handle(5, Handle::SetValue { value: 1 });
    t.push_handle(3, Handle::SetValue { value: 2 });
    t.push_handle(5, Handle::SetValue { value: 3 });
    t.push_handle(9, Handle::SetValue { value: 4 });
    let s = t.segment(6);
    assert_eq!(s.after, None);
    match t.get(s.before.unwrap()) {
        (5, Handle::SetValue { value: 3 }) => {}
        _ => panic!("the last call at the latest due time holds"),
    }
    let s = t.segment(4);
    match t.get(s.before.unwrap()) {
        (3, Handle::SetValue { value: 2 }) => {}
        _ => panic!("the call at time 3 holds"),
    }
    let s = t.segment(2);
    assert_eq!(s.before, None);
    assert_eq!(s.after, None);
}

#[test]
fn timeline_take_due_emits_in_order() {
    let mut t = Timeline::new();
    t.push_handle(10, Handle::SetValue { value: 1 });
    t.push_handle(20, Handle::LinearRamp { value: 3 });
    t.push_handle(25, Handle::SetTarget { target: 7, time_constant: 2 });
    t.push_handle(40, Handle::ExponentialRamp { value: 8 });
    let taken = t.take_due(30, (0, Handle::SetValue { value: 0 }), 0);
    let e = taken.emissions;
    assert_eq!(e.len(), 5);
    assert!(matches!(e[0], Emission::Constant { at: 10, value: 1 }));
    assert!(matches!(e[1], Emission::Linear { at: 10, from: 1, until: 20, to: 3 }));
    assert!(matches!(e[2], Emission::Constant { at: 20, value: 3 }));
    assert!(matches!(e[3], Emission::Target { at: 25, target: 7, time_constant: 2 }));
    assert!(matches!(e[4], Emission::Exponential { at: 25, from: 3, until: 40, to: 8 }));
    assert!(matches!(taken.last, (25, Handle::SetTarget { target: 7, time_constant: 2 })));
    assert_eq!(taken.last_value, 3);
    assert_eq!(t.len(), 1);
    let taken = t.take_due(50, taken.last, taken.last_value);
    assert_eq!(taken.emissions.len(), 2);
    assert!(matches!(taken.emissions[0], Emission::Exponential { at: 25, from: 3, until: 40, to: 8 }));
    assert!(matches!(taken.emissions[1], Emission::Constant { at: 40, value: 8 }));
    assert_eq!(taken.last_value, 8);
    assert_eq!(t.len(), 0);
}

#[test]
fn timeline_take_due_with_nothing_due() {
    let mut t = Timeline::new();
    t.push_handle(10, Handle::LinearRamp { value: 5 });
    let taken = t.take_due(5, (2, Handle::SetValue { value: 1 }), 1);
    assert_eq!(taken.emissions.len(), 1);
    assert!(matches!(taken.emissions[0], Emission::Linear { at: 2, from: 1, until: 10, to: 5 }));
    assert!(matches!(taken.last, (2, Handle::SetValue { value: 1 })));
    assert_eq!(taken.last_value, 1);
    assert_eq!(t.len(), 1);
}
