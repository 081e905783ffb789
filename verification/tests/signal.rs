use fanctrl::signal::{lowest_pending, signal_bit, SignalBridge, WaitOutcome};

#[test]
fn repeated_deliveries_coalesce() {
    let mut b = SignalBridge::new();
    b.deliver(10);
    b.deliver(10);
    assert_eq!(b.take(), 10);
    assert_eq!(b.take(), 0);
}

#[test]
fn distinct_signals_drain_lowest_first() {
    let mut b = SignalBridge::new();
    b.deliver(12);
    b.deliver(2);
    assert_eq!(b.take(), 2);
    assert_eq!(b.take(), 12);
    assert_eq!(b.take(), 0);
}

#[test]
fn out_of_range_deliveries_mark_nothing() {
    let mut b = SignalBridge::new();
    b.deliver(0);
    b.deliver(-3);
    b.deliver(64);
    b.deliver(1000);
    assert_eq!(b.mask, 0);
    assert_eq!(b.take(), 0);
}

#[test]
fn signal_bit_places_one_bit() {
    assert_eq!(signal_bit(3), 0b1000);
    assert_eq!(signal_bit(1), 0b10);
    assert_eq!(signal_bit(63), 1u64 << 63);
    assert_eq!(signal_bit(0), 0);
    assert_eq!(signal_bit(64), 0);
    assert_eq!(signal_bit(-1), 0);
}

#[test]
fn lowest_pending_finds_the_least_bit() {
    assert_eq!(lowest_pending(0), 64);
    assert_eq!(lowest_pending(0b1100), 2);
    assert_eq!(lowest_pending(1u64 << 63), 63);
    assert_eq!(lowest_pending(u64::MAX), 0);
}

#[test]
fn timed_out_wait_is_the_routine_tick() {
    let mut b = SignalBridge::new();
    b.deliver(15);
    // A timeout reports the tick and leaves the pending mask alone.
    assert_eq!(b.finish_wait(true), WaitOutcome::Tick);
    assert_eq!(b.take(), 15);
}

#[test]
fn woken_wait_drains_one_signal() {
    let mut b = SignalBridge::new();
    b.deliver(2);
    b.deliver(15);
    assert_eq!(b.finish_wait(false), WaitOutcome::Signal(2));
    assert_eq!(b.finish_wait(false), WaitOutcome::Signal(15));
}

#[test]
fn spurious_wake_is_no_failure() {
    let mut b = SignalBridge::new();
    // A wake with nothing pending just sends the waiter back to waiting.
    assert_eq!(b.finish_wait(false), WaitOutcome::WaitAgain);
    // Nothing was lost or broken: a later delivery is still drained.
    b.deliver(9);
    assert_eq!(b.finish_wait(false), WaitOutcome::Signal(9));
}
