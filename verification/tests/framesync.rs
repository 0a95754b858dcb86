use glia::clock::Timestamp;
use glia::framesync::{FrameSync, FrameWindowingRanges};
use glia::netting::client_id::ClientId;
use glia::netting::client_map::ClientMap;

fn id(last: u8) -> ClientId {
    ClientId::from_bytes(&[0, 0, 0, 0, 0, 0, 0, 0, last]).unwrap()
}

fn at(millis: u32) -> Timestamp {
    Timestamp { seconds: 100 + (millis / 1000) as i64, nanos: (millis % 1000) * 1_000_000 }
}

#[test]
fn distances_are_signed() {
    let r = FrameWindowingRanges::new(1_000);
    assert_eq!(r.signed_distance(1_000), 0);
    assert_eq!(r.signed_distance(1_300), 300);
    // A frame behind is one closer than it is apart.
    assert_eq!(r.signed_distance(700), -299);
    assert!(r.is_wraparound(700));
    assert!(!r.is_wraparound(1_300));
}

#[test]
fn distances_wrap_around() {
    let r = FrameWindowingRanges::new(u64::MAX);
    assert_eq!(r.signed_distance(4), 5);
    assert!(r.is_wraparound(4));
    let r = FrameWindowingRanges::new(4);
    assert_eq!(r.signed_distance(u64::MAX), -4);
    assert_eq!(r.signed_distance(4 + u64::MAX / 2), i64::MAX);
    assert_eq!(r.signed_distance(5 + u64::MAX / 2), -i64::MAX);
}

#[test]
fn frames_far_behind_do_not_count() {
    let mut f = FrameSync::new();
    assert_eq!(f.signed_distance(20_000, 20_000 + 9_999), Some((false, 9_999)));
    assert_eq!(f.signed_distance(20_000, 20_000 + 10_000), Some((false, 10_000)));
    assert_eq!(f.signed_distance(0, u64::MAX / 2), Some((false, i64::MAX)));
    assert_eq!(f.signed_distance(u64::MAX, 20_000), Some((true, 20_001)));
    assert_eq!(f.signed_distance(20_000, 20_000 - 501), Some((true, -500)));
    assert_eq!(f.signed_distance(20_000, 20_000 - 502), None);
}

#[test]
fn the_delay_grows_beyond_the_tolerance_up_to_twenty_frames() {
    let mut f = FrameSync::new();
    assert_eq!(f.required_delay(1_000, 1_000), None);
    assert_eq!(f.required_delay(1_000, 750), None);
    assert_eq!(f.required_delay(1_000, 749), Some(0));
    assert_eq!(f.required_delay(1_000, 739), Some(-80));
    assert_eq!(f.required_delay(1_000, 729), Some(-160));
    assert_eq!(f.required_delay(1_000, 728), Some(-160));
    assert_eq!(f.required_delay(1_000, 700), Some(-160));
    assert_eq!(f.required_delay(4, 5 + u64::MAX / 2), Some(-160));
}

#[test]
fn the_slowest_peer_limits() {
    let mut f = FrameSync::new();
    assert_eq!(f.calculate_delay_at(1_000, &at(0)), None);
    f.record_framesync_at(id(1), 990, &at(0));
    assert_eq!(f.calculate_delay_at(1_000, &at(0)), None);
    f.record_framesync_at(id(2), 735, &at(0));
    f.record_framesync_at(id(3), 740, &at(0));
    assert_eq!(f.calculate_delay_at(1_000, &at(0)), Some(-112));
}

#[test]
fn only_advancing_frames_are_recorded() {
    let mut f = FrameSync::new();
    f.record_framesync_at(id(2), 739, &at(0));
    f.record_framesync_at(id(2), 731, &at(1));
    assert_eq!(f.calculate_delay_at(1_000, &at(1)), Some(-80));
    f.record_framesync_at(id(2), 1_000, &at(2));
    assert_eq!(f.calculate_delay_at(1_000, &at(2)), None);
}

#[test]
fn old_reports_do_not_count() {
    let mut f = FrameSync::new();
    f.record_framesync_at(id(2), 699, &at(0));
    assert_eq!(f.calculate_delay_at(1_000, &at(4_000)), Some(-160));
    assert_eq!(f.calculate_delay_at(1_000, &at(4_001)), None);
}

#[test]
fn peers_far_off_are_ignored() {
    let mut f = FrameSync::new();
    f.record_framesync_at(id(1), 100, &at(0));
    assert_eq!(f.calculate_delay_at(1_000, &at(0)), None);
    f.record_framesync_at(id(2), 50_000, &at(0));
    assert_eq!(f.calculate_delay_at(1_000, &at(0)), None);
    f.record_framesync_at(id(3), 699, &at(0));
    assert_eq!(f.calculate_delay_at(1_000, &at(0)), Some(-160));
}

#[test]
fn the_clock_dates_reports() {
    let mut f = FrameSync::new();
    f.record_framesync(id(3), 699);
    assert_eq!(f.calculate_delay(1_000), Some(-160));
    assert_eq!(f.get_ranges(5), FrameWindowingRanges { center: 5 });
    assert_eq!(f.get_ranges(5), FrameWindowingRanges { center: 5 });
}

#[test]
fn a_client_has_one_row() {
    let mut m: ClientMap<u32> = ClientMap::new();
    m.insert(id(1), 5);
    m.insert(id(2), 6);
    m.insert(id(1), 7);
    assert_eq!(m.rows.len(), 2);
    assert_eq!(m.find(id(1)), Some(0));
    assert_eq!(m.rows[0].1, 7);
    assert_eq!(m.find(id(3)), None);
}
