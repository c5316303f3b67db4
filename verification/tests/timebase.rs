use atool::packet::Packet;
use atool::packet::NO_POSITION;
use atool::timebase::rescale;
use atool::timebase::Rational;
use atool::timebase::TimeBase;

fn tb(num: i32, den: i32) -> TimeBase {
    Rational::new(num, den)
}

#[test]
fn rescale_between_frame_and_tick_bases() {
    assert_eq!(rescale(1, tb(1, 25), tb(1, 90000)), Some(3600));
    assert_eq!(rescale(3600, tb(1, 90000), tb(1, 25)), Some(1));
    assert_eq!(rescale(0, tb(1, 25), tb(1, 90000)), Some(0));
    assert_eq!(rescale(-2, tb(1, 25), tb(1, 90000)), Some(-7200));
}

#[test]
fn rescale_rounds_to_nearest() {
    // 100 * 1001/30000 s = 3.33666.. s
    assert_eq!(rescale(100, tb(1001, 30000), tb(1, 1000)), Some(3337));
    // 2/3 rounds up, 1/3 rounds down
    assert_eq!(rescale(1, tb(1, 3), tb(1, 2)), Some(1));
    assert_eq!(rescale(1, tb(1, 3), tb(1, 1)), Some(0));
    assert_eq!(rescale(-1, tb(1, 3), tb(1, 2)), Some(-1));
    assert_eq!(rescale(-1, tb(1, 3), tb(1, 1)), Some(0));
}

#[test]
fn rescale_ties_go_up() {
    assert_eq!(rescale(1, tb(1, 2), tb(1, 1)), Some(1));
    assert_eq!(rescale(3, tb(1, 2), tb(1, 1)), Some(2));
    assert_eq!(rescale(-1, tb(1, 2), tb(1, 1)), Some(0));
    assert_eq!(rescale(-3, tb(1, 2), tb(1, 1)), Some(-1));
}

#[test]
fn rescale_rejects_bases_that_are_not_valid() {
    assert_eq!(rescale(5, tb(0, 0), tb(1, 25)), None);
    assert_eq!(rescale(5, tb(1, 25), tb(0, 1)), None);
    assert_eq!(rescale(5, tb(1, 0), tb(1, 25)), None);
    assert_eq!(rescale(5, tb(-1, 25), tb(1, 25)), None);
    assert_eq!(rescale(5, tb(1, 25), tb(1, -25)), None);
}

#[test]
fn rescale_reports_overflow() {
    assert_eq!(rescale(i64::MAX, tb(1, 1), tb(1, 2)), None);
    assert_eq!(rescale(i64::MIN, tb(1, 1), tb(1, 2)), None);
    assert_eq!(rescale(i64::MAX, tb(1, 1), tb(1, 1)), Some(i64::MAX));
    assert_eq!(rescale(i64::MIN, tb(1, 1), tb(1, 1)), Some(i64::MIN));
    assert_eq!(rescale(i64::MAX, tb(1, 2), tb(1, 1)), Some(4611686018427387904));
    assert_eq!(
        rescale(i64::MAX, tb(i32::MAX, 1), tb(1, i32::MAX)),
        None
    );
    assert_eq!(rescale(1, tb(i32::MAX, 1), tb(1, i32::MAX)), Some(4611686014132420609));
}

#[test]
fn round_trip_through_a_finer_base_is_exact() {
    let a = tb(1, 25);
    let b = tb(1, 90000);
    for v in [-100i64, -1, 0, 1, 7, 12345, 1 << 40] {
        let there = rescale(v, a, b).unwrap();
        assert_eq!(rescale(there, b, a), Some(v));
    }
    let c = tb(1001, 30000);
    let d = tb(1, 1000000);
    for v in [-3i64, 0, 1, 2, 29, 30000] {
        let there = rescale(v, c, d).unwrap();
        assert_eq!(rescale(there, d, c), Some(v));
    }
}

#[test]
fn round_trip_through_a_coarser_base_stays_within_the_bound() {
    let a = tb(1, 1000);
    let b = tb(1, 1);
    let there = rescale(499, a, b).unwrap();
    assert_eq!(there, 0);
    assert_eq!(rescale(there, b, a), Some(0));
    let there = rescale(500, a, b).unwrap();
    assert_eq!(there, 1);
    assert_eq!(rescale(there, b, a), Some(1000));
    // p = 1, q = 1000: 2p * |back - v| <= p + q
    for v in -2000i64..2000 {
        let back = rescale(rescale(v, a, b).unwrap(), b, a).unwrap();
        assert!(2 * (back - v) <= 1001);
        assert!(2 * (v - back) < 1001);
    }
}

#[test]
fn rescale_keeps_order() {
    let a = tb(1001, 30000);
    let b = tb(1, 90);
    let mut last = rescale(-50, a, b).unwrap();
    for v in -49i64..200 {
        let now = rescale(v, a, b).unwrap();
        assert!(last <= now);
        last = now;
    }
}

#[test]
fn invert_swaps_the_parts() {
    let rate = tb(30000, 1001);
    assert_eq!(rate.invert(), tb(1001, 30000));
    assert_eq!(tb(0, 1).invert(), tb(1, 0));
    assert!(rate.is_valid());
    assert!(!tb(0, 1).is_valid());
    assert!(!tb(1, 0).is_valid());
    assert!(!tb(-1, -1).is_valid());
}

#[test]
fn packet_times_are_rescaled_together() {
    let p = Packet { stream: 3, pts: Some(10), dts: Some(9), duration: 1, position: 4096 };
    let q = p.rescale_ts(tb(1, 25), tb(1, 90000));
    assert_eq!(
        q,
        Packet { stream: 3, pts: Some(36000), dts: Some(32400), duration: 3600, position: 4096 }
    );
}

#[test]
fn absent_times_stay_absent() {
    let p = Packet { stream: 0, pts: None, dts: Some(5), duration: 0, position: NO_POSITION };
    let q = p.rescale_ts(tb(1, 1000), tb(1, 100));
    assert_eq!(q.pts, None);
    assert_eq!(q.dts, Some(1));
    assert_eq!(q.duration, 0);
    let r = Packet { duration: -7, ..p }.rescale_ts(tb(1, 1000), tb(1, 100));
    assert_eq!(r.duration, -7);
}

#[test]
fn times_that_do_not_fit_become_absent() {
    let p = Packet { stream: 0, pts: Some(i64::MAX), dts: Some(1), duration: i64::MAX, position: 0 };
    let q = p.rescale_ts(tb(1, 1), tb(1, 1000));
    assert_eq!(q.pts, None);
    assert_eq!(q.dts, Some(1000));
    assert_eq!(q.duration, 0);
    let r = p.rescale_ts(tb(1, 1), tb(0, 0));
    assert_eq!(r.pts, None);
    assert_eq!(r.dts, None);
    assert_eq!(r.duration, 0);
}

#[test]
fn stamp_sets_the_stream_only() {
    let p = Packet { stream: 9, pts: Some(1), dts: None, duration: 2, position: 3 };
    assert_eq!(p.stamp(1), Packet { stream: 1, pts: Some(1), dts: None, duration: 2, position: 3 });
}
