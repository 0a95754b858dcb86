use glia::clock::{now, Timestamp};

#[test]
fn spans_are_exact() {
    let a = Timestamp { seconds: 10, nanos: 999_999_999 };
    let b = Timestamp { seconds: 12, nanos: 1 };
    assert_eq!(b.since(&a), 1_000_000_002);
    assert_eq!(a.since(&b), -1_000_000_002);
}

#[test]
fn milliseconds_are_whole() {
    assert_eq!(Timestamp { seconds: 7, nanos: 123_999_999 }.millis(), 7_123);
    assert_eq!(Timestamp { seconds: -1, nanos: 500_000_000 }.millis(), -500);
}

#[test]
fn going_back_borrows_a_second() {
    let t = Timestamp { seconds: 100, nanos: 100_000_000 };
    assert_eq!(t.before(300), Timestamp { seconds: 99, nanos: 800_000_000 });
    assert_eq!(t.before(100), Timestamp { seconds: 100, nanos: 0 });
    assert_eq!(t.before(2_050), Timestamp { seconds: 98, nanos: 50_000_000 });
}

#[test]
fn the_clock_goes_on() {
    let a = now();
    let b = now();
    assert!(a.seconds > 1_500_000_000);
    assert!(b.since(&a) >= 0);
    assert!(b.since(&a) < 10_000_000_000);
}
