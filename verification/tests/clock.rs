use zaimeter::clock::{
    delta_seconds, epoch_ms_to_iso, reset_delta_seconds, seconds_until, seconds_until_from,
};

#[test]
fn test_reset_delta_seconds_holds_vs_advances() {
    let a = "2026-06-18T04:00:00+00:00";
    let b = "2026-06-18T03:59:59+00:00";
    // Anchor held: ~1s apart.
    assert_eq!(reset_delta_seconds(a, b), Some(1));
    // Anchor advanced ~7 days.
    let later = "2026-06-25T04:00:00+00:00";
    assert!(reset_delta_seconds(later, a).unwrap() > 600_000);
}

#[test]
fn test_reset_delta_seconds_equal_and_bad() {
    // Identical timestamps: zero delta, treated as anchor held.
    let t = "2026-06-18T04:00:00+00:00";
    assert_eq!(reset_delta_seconds(t, t), Some(0));
    // Unparseable input yields None rather than panicking.
    assert_eq!(reset_delta_seconds("not-a-date", t), None);
    assert_eq!(reset_delta_seconds(t, ""), None);
}

#[test]
fn test_epoch_ms_to_iso() {
    let iso = epoch_ms_to_iso(1781817824865_i64).unwrap();
    assert!(iso.starts_with("2026-06-18"));
}

#[test]
fn epoch_ms_to_iso_is_exact() {
    assert_eq!(epoch_ms_to_iso(0).unwrap(), "1970-01-01T00:00:00+00:00");
    assert_eq!(epoch_ms_to_iso(1).unwrap(), "1970-01-01T00:00:00.001+00:00");
    assert_eq!(epoch_ms_to_iso(-1).unwrap(), "1969-12-31T23:59:59.999+00:00");
}

#[test]
fn epoch_ms_range_has_exact_ends() {
    assert!(epoch_ms_to_iso(8_210_266_876_799_999).is_some());
    assert!(epoch_ms_to_iso(8_210_266_876_800_000).is_none());
    assert!(epoch_ms_to_iso(-8_334_601_228_800_000).is_some());
    assert!(epoch_ms_to_iso(-8_334_601_228_800_001).is_none());
    assert!(epoch_ms_to_iso(i64::MAX).is_none());
    assert!(epoch_ms_to_iso(i64::MIN).is_none());
}

#[test]
fn timestamps_of_millis_read_back() {
    let moments = [
        -62_167_219_200_000,
        -62_167_219_199_999,
        -1,
        0,
        1781817824865,
        1782384430998,
        253_402_300_799_999,
    ];
    for a in moments {
        for b in moments {
            let (ta, tb) = (epoch_ms_to_iso(a).unwrap(), epoch_ms_to_iso(b).unwrap());
            assert_eq!(reset_delta_seconds(&ta, &tb), Some((a - b) / 1000));
        }
    }
}

#[test]
fn delta_is_signed_and_drops_fractions_toward_zero() {
    let a = "2026-06-18T04:00:00.900+00:00";
    let b = "2026-06-18T04:00:02+00:00";
    assert_eq!(reset_delta_seconds(a, b), Some(-1));
    assert_eq!(reset_delta_seconds(b, a), Some(1));
    // The same instant in two offsets.
    assert_eq!(
        reset_delta_seconds("2026-06-18T06:00:00+02:00", "2026-06-18T04:00:00Z"),
        Some(0)
    );
}

#[test]
fn delta_counts_a_leap_second_between_times_of_day() {
    let leap = "2016-12-31T23:59:60.500Z";
    assert_eq!(reset_delta_seconds("2017-01-01T00:00:02Z", leap), Some(1));
    assert_eq!(reset_delta_seconds(leap, "2016-12-31T23:59:59Z"), Some(1));
    assert_eq!(reset_delta_seconds(leap, leap), Some(0));
    // Between times of day, whatever the date: 12:00 is before 23:59:60.5.
    assert_eq!(reset_delta_seconds("2017-01-01T12:00:00Z", leap), Some(43_199));
    // Both inside a leap second of one and the same minute.
    assert_eq!(reset_delta_seconds("2016-12-31T23:59:60.900Z", leap), Some(0));
}

#[test]
fn delta_of_given_instants() {
    assert_eq!(delta_seconds(Some((100, 0)), Some((40, 0))), Some(60));
    assert_eq!(delta_seconds(Some((40, 0)), Some((100, 1))), Some(-60));
    assert_eq!(delta_seconds(Some((119, 1_500_000_000)), Some((119, 0))), Some(1));
    // The earlier time of day is inside a leap second, the later one is not.
    assert_eq!(delta_seconds(Some((180, 0)), Some((119, 1_000_000_000))), Some(61));
    assert_eq!(delta_seconds(None, Some((0, 0))), None);
    assert_eq!(delta_seconds(Some((0, 0)), None), None);
}

#[test]
fn seconds_until_counts_from_now() {
    // 2026-06-18T04:00:00Z is 1781755200.
    assert_eq!(seconds_until_from("2026-06-18T04:00:00+00:00", (1781755190, 0)), Some(10));
    assert_eq!(seconds_until_from("2026-06-18T04:00:00+00:00", (1781755190, 1)), Some(9));
    assert_eq!(seconds_until_from("2026-06-18T04:00:00+00:00", (1781755210, 0)), Some(-10));
    assert_eq!(seconds_until_from("soon", (0, 0)), None);
    assert!(seconds_until("9999-12-31T23:59:59Z").unwrap() > 0);
    assert!(seconds_until("1999-12-31T23:59:59Z").unwrap() < 0);
    assert_eq!(seconds_until(""), None);
}
