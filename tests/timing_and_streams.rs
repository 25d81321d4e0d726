use textart::streams::{out_time_base, MediaKind, Route, StreamMap};
use textart::timing::{rescale_timing, rescale_ts, PacketTiming, Timebase};

fn tb(num: i32, den: i32) -> Timebase {
    Timebase { num, den }
}

#[test]
fn rescale_to_finer_timebase_is_exact() {
    assert_eq!(rescale_ts(3, tb(1, 25), tb(1, 1000)), Some(120));
    assert_eq!(rescale_ts(120, tb(1, 1000), tb(1, 25)), Some(3));
}

#[test]
fn rescale_rounds_down() {
    assert_eq!(rescale_ts(500, tb(1, 1000), tb(1, 3)), Some(1));
    assert_eq!(rescale_ts(999, tb(1, 1000), tb(1, 1)), Some(0));
    assert_eq!(rescale_ts(-1, tb(1, 1000), tb(1, 3)), Some(-1));
    assert_eq!(rescale_ts(-3000, tb(1, 1000), tb(1, 3)), Some(-9));
    assert_eq!(rescale_ts(7, tb(1001, 30000), tb(1, 90000)), Some(21021));
}

#[test]
fn rescale_reports_overflow() {
    assert_eq!(rescale_ts(i64::MAX, tb(1, 1), tb(1, 1000)), None);
    assert_eq!(rescale_ts(i64::MIN, tb(1, 1), tb(1, 2)), None);
    assert_eq!(rescale_ts(i64::MAX, tb(1, 1), tb(1, 1)), Some(i64::MAX));
}

#[test]
fn rescale_round_trip() {
    let a = tb(1, 25);
    let b = tb(1, 1000);
    for ts in [-1000i64, -7, 0, 1, 2, 99, 123456] {
        let there = rescale_ts(ts, a, b).unwrap();
        assert_eq!(rescale_ts(there, b, a), Some(ts));
        // the other way round rounds, but never upwards
        let back = rescale_ts(rescale_ts(ts, b, a).unwrap(), a, b).unwrap();
        assert!(back <= ts);
    }
}

#[test]
fn rescale_timing_keeps_unknown_timestamps() {
    let t = PacketTiming { pts: Some(2), dts: None, duration: 1 };
    assert_eq!(
        rescale_timing(t, tb(1, 25), tb(1, 1000)),
        Some(PacketTiming { pts: Some(80), dts: None, duration: 40 })
    );
    let big = PacketTiming { pts: None, dts: Some(i64::MAX), duration: 0 };
    assert_eq!(rescale_timing(big, tb(1, 25), tb(1, 1000)), None);
}

#[test]
fn stream_map_routes_streams() {
    let kinds = vec![
        MediaKind::Audio,
        MediaKind::Video,
        MediaKind::Subtitle,
        MediaKind::Unknown,
        MediaKind::Video,
        MediaKind::Data,
    ];
    let tbs = vec![tb(1, 48000), tb(1, 25), tb(1, 1000), tb(1, 1), tb(1, 30), tb(1, 90000)];
    let m = StreamMap::build(&kinds, &tbs, 1, false);
    assert_eq!(
        m.routes,
        vec![
            Route::Passthrough { out_index: 0, in_tb: tb(1, 48000), out_tb: tb(1, 48000) },
            Route::Rendered { out_index: 1 },
            Route::Passthrough { out_index: 2, in_tb: tb(1, 1000), out_tb: tb(1, 1000) },
            Route::Dropped,
            Route::Dropped,
            Route::Passthrough { out_index: 3, in_tb: tb(1, 90000), out_tb: tb(1, 90000) },
        ]
    );
    assert_eq!(m.route(6), None);
    assert_eq!(m.route(3), Some(Route::Dropped));
}

#[test]
fn stream_map_into_matroska_uses_milliseconds() {
    let m = StreamMap::build(&vec![MediaKind::Video, MediaKind::Audio], &vec![tb(1, 25), tb(1, 44100)], 0, true);
    assert_eq!(
        m.routes,
        vec![Route::Rendered { out_index: 0 }, Route::Passthrough { out_index: 1, in_tb: tb(1, 44100), out_tb: tb(1, 1000) }]
    );
    assert_eq!(out_time_base(true, tb(1, 25)), tb(1, 1000));
    assert_eq!(out_time_base(false, tb(1, 25)), tb(1, 25));
}
