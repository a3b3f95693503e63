use go_stub::host::{
    go__runtime_clearTimeoutEvent, go__runtime_nanotime1, go__runtime_scheduleTimeoutEvent,
    wavm__go_after_run, Anomaly, GoStub,
};
use go_stub::timers::{TimeoutInfo, TimeoutState};
use std::cmp::Ordering;

fn deliver(stub: &mut GoStub, guest: &mut dyn FnMut(&mut GoStub, TimeoutInfo)) -> Vec<u32> {
    let mut fired: Vec<u32> = Vec::new();
    let mut current: Option<TimeoutInfo> = None;
    loop {
        current = wavm__go_after_run(stub, current);
        match current {
            Some(info) => {
                fired.push(info.id);
                guest(stub, info);
            }
            None => return fired,
        }
    }
}

fn acknowledge(stub: &mut GoStub, info: TimeoutInfo) {
    assert_eq!(go__runtime_clearTimeoutEvent(stub, info.id), None);
}

#[test]
fn timers_fire_in_the_order_of_their_delays() {
    let mut stub = GoStub::new();
    let thirty: u32 = go__runtime_scheduleTimeoutEvent(&mut stub, 30);
    let ten: u32 = go__runtime_scheduleTimeoutEvent(&mut stub, 10);
    let twenty: u32 = go__runtime_scheduleTimeoutEvent(&mut stub, 20);
    assert_eq!((thirty, ten, twenty), (0, 1, 2));
    let fired: Vec<u32> = deliver(&mut stub, &mut acknowledge);
    assert_eq!(fired, vec![ten, twenty, thirty]);
    assert_eq!(stub.clock.peek(), 30_000_000);
    assert_eq!(stub.timers.queued(), 0);
}

#[test]
fn a_cancelled_timer_is_skipped() {
    let mut stub = GoStub::new();
    let thirty: u32 = go__runtime_scheduleTimeoutEvent(&mut stub, 30);
    let ten: u32 = go__runtime_scheduleTimeoutEvent(&mut stub, 10);
    let twenty: u32 = go__runtime_scheduleTimeoutEvent(&mut stub, 20);
    assert_eq!(go__runtime_clearTimeoutEvent(&mut stub, twenty), None);
    assert_eq!(stub.timers.queued(), 3);
    let fired: Vec<u32> = deliver(&mut stub, &mut acknowledge);
    assert_eq!(fired, vec![ten, thirty]);
}

#[test]
fn the_clock_follows_the_timers() {
    let mut stub = GoStub::new();
    assert_eq!(go__runtime_nanotime1(&mut stub), 10_000_000);
    go__runtime_scheduleTimeoutEvent(&mut stub, 5);
    go__runtime_scheduleTimeoutEvent(&mut stub, 0);
    let mut times: Vec<u64> = Vec::new();
    let fired: Vec<u32> = deliver(&mut stub, &mut |stub: &mut GoStub, info: TimeoutInfo| {
        times.push(stub.clock.peek());
        acknowledge(stub, info);
    });
    assert_eq!(fired, vec![1, 0]);
    assert_eq!(times, vec![10_000_000, 15_000_000]);
}

#[test]
fn the_clock_does_not_go_back_for_a_timer_that_is_overdue() {
    let mut stub = GoStub::new();
    go__runtime_scheduleTimeoutEvent(&mut stub, 15);
    go__runtime_nanotime1(&mut stub);
    go__runtime_nanotime1(&mut stub);
    let fired: Vec<u32> = deliver(&mut stub, &mut acknowledge);
    assert_eq!(fired, vec![0]);
    assert_eq!(stub.clock.peek(), 20_000_000);
}

#[test]
fn a_timer_scheduled_by_a_callback_fires_in_its_turn() {
    let mut stub = GoStub::new();
    let first: u32 = go__runtime_scheduleTimeoutEvent(&mut stub, 10);
    let late: u32 = go__runtime_scheduleTimeoutEvent(&mut stub, 50);
    let mut added: Option<u32> = None;
    let fired: Vec<u32> = deliver(&mut stub, &mut |stub: &mut GoStub, info: TimeoutInfo| {
        acknowledge(stub, info);
        if info.id == 0 {
            added = Some(go__runtime_scheduleTimeoutEvent(stub, 5));
        }
    });
    assert_eq!(added, Some(2));
    assert_eq!(fired, vec![first, 2, late]);
    assert_eq!(stub.clock.peek(), 50_000_000);
}

#[test]
fn a_callback_can_cancel_a_later_timer() {
    let mut stub = GoStub::new();
    go__runtime_scheduleTimeoutEvent(&mut stub, 10);
    go__runtime_scheduleTimeoutEvent(&mut stub, 20);
    go__runtime_scheduleTimeoutEvent(&mut stub, 30);
    let fired: Vec<u32> = deliver(&mut stub, &mut |stub: &mut GoStub, info: TimeoutInfo| {
        acknowledge(stub, info);
        if info.id == 0 {
            assert_eq!(go__runtime_clearTimeoutEvent(stub, 1), None);
        }
    });
    assert_eq!(fired, vec![0, 2]);
}

#[test]
fn a_timer_fires_again_until_the_guest_cancels_it() {
    let mut stub = GoStub::new();
    go__runtime_scheduleTimeoutEvent(&mut stub, 10);
    go__runtime_scheduleTimeoutEvent(&mut stub, 20);
    let mut deliveries: u32 = 0;
    let fired: Vec<u32> = deliver(&mut stub, &mut |stub: &mut GoStub, info: TimeoutInfo| {
        deliveries += 1;
        if deliveries != 1 && deliveries != 2 {
            acknowledge(stub, info);
        }
    });
    assert_eq!(fired, vec![0, 0, 0, 1]);
}

#[test]
fn nothing_scheduled_means_nothing_delivered() {
    let mut stub = GoStub::new();
    assert_eq!(wavm__go_after_run(&mut stub, None), None);
    assert_eq!(wavm__go_after_run(&mut stub, Some(TimeoutInfo { time: 5, id: 3 })), None);
    assert_eq!(stub.clock.peek(), 0);
}

#[test]
fn equal_times_fire_in_the_order_of_scheduling() {
    let mut stub = GoStub::new();
    go__runtime_scheduleTimeoutEvent(&mut stub, 7);
    go__runtime_scheduleTimeoutEvent(&mut stub, 7);
    go__runtime_scheduleTimeoutEvent(&mut stub, 3);
    go__runtime_scheduleTimeoutEvent(&mut stub, 7);
    assert_eq!(deliver(&mut stub, &mut acknowledge), vec![2, 0, 1, 3]);
}

#[test]
fn cancelling_what_is_not_pending_is_an_anomaly() {
    let mut stub = GoStub::new();
    assert_eq!(go__runtime_clearTimeoutEvent(&mut stub, 0), Some(Anomaly::NotPending));
    let id: u32 = go__runtime_scheduleTimeoutEvent(&mut stub, 1);
    assert!(stub.timers.is_pending(id));
    assert!(!stub.timers.is_pending(id + 1));
    assert_eq!(go__runtime_clearTimeoutEvent(&mut stub, id), None);
    assert!(!stub.timers.is_pending(id));
    assert_eq!(go__runtime_clearTimeoutEvent(&mut stub, id), Some(Anomaly::NotPending));
    assert_eq!(go__runtime_clearTimeoutEvent(&mut stub, 99), Some(Anomaly::NotPending));
}

#[test]
fn fire_times_saturate() {
    let mut timers = TimeoutState::new();
    assert!(timers.can_schedule());
    timers.schedule(5, u64::MAX);
    timers.schedule(u64::MAX - 3, 1);
    timers.schedule(7, u64::MAX / 1_000_000);
    timers.schedule(1, 2);
    timers.schedule(u64::MAX - 2_000_000, 2);
    assert_eq!(timers.next_due(None), Some(TimeoutInfo { time: 2_000_001, id: 3 }));
    assert_eq!(
        timers.next_due(None),
        Some(TimeoutInfo { time: (u64::MAX / 1_000_000) * 1_000_000 + 7, id: 2 })
    );
    assert_eq!(timers.next_due(None), Some(TimeoutInfo { time: u64::MAX, id: 0 }));
    assert_eq!(timers.next_due(None), Some(TimeoutInfo { time: u64::MAX, id: 1 }));
    assert_eq!(timers.next_due(None), Some(TimeoutInfo { time: u64::MAX, id: 4 }));
    assert_eq!(timers.next_due(None), None);
}

#[test]
fn the_queue_is_exhausted_when_every_timer_is_cancelled() {
    let mut timers = TimeoutState::new();
    let a: u32 = timers.schedule(0, 3);
    let b: u32 = timers.schedule(0, 1);
    assert!(timers.cancel(a));
    assert!(timers.cancel(b));
    assert!(!timers.cancel(b));
    assert_eq!(timers.queued(), 2);
    assert_eq!(timers.next_due(None), None);
    assert_eq!(timers.queued(), 0);
}

#[test]
fn the_earlier_wake_up_is_the_greater() {
    let early = TimeoutInfo { time: 10, id: 5 };
    let late = TimeoutInfo { time: 20, id: 1 };
    let tie = TimeoutInfo { time: 10, id: 6 };
    assert_eq!(early.cmp(&late), Ordering::Greater);
    assert_eq!(late.cmp(&early), Ordering::Less);
    assert_eq!(early.cmp(&tie), Ordering::Greater);
    assert_eq!(tie.cmp(&early), Ordering::Less);
    assert_eq!(early.cmp(&early), Ordering::Equal);
    assert_eq!(early.partial_cmp(&late), Some(Ordering::Greater));
    assert_eq!(tie.partial_cmp(&tie), Some(Ordering::Equal));
    assert!(early.is_due_before(&late));
    assert!(early.is_due_before(&tie));
    assert!(!late.is_due_before(&early));
    assert!(!early.is_due_before(&early));
}

#[test]
fn the_guest_is_handed_no_more_wake_ups_than_were_scheduled() {
    let mut stub = GoStub::new();
    go__runtime_scheduleTimeoutEvent(&mut stub, 10);
    go__runtime_scheduleTimeoutEvent(&mut stub, 20);
    go__runtime_scheduleTimeoutEvent(&mut stub, 30);
    let mut budget: u32 = 4;
    let fired: Vec<u32> = deliver(&mut stub, &mut |stub: &mut GoStub, info: TimeoutInfo| {
        if budget > 0 {
            budget -= 1;
            go__runtime_scheduleTimeoutEvent(stub, u64::from(budget));
        }
        acknowledge(stub, info);
    });
    assert_eq!(fired.len(), 7);
    assert_eq!(stub.timers.queued(), 0);
    let mut sorted: Vec<u32> = fired.clone();
    sorted.sort();
    assert_eq!(sorted, vec![0, 1, 2, 3, 4, 5, 6]);
}
