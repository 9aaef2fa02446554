use zaimeter::celebration::{
    anchor_advanced, backfill_celebration, celebration_step, detect_live_flush, find_live_flush,
    is_flush, update_celebration, CelebrateState, CelebrationCfg,
};
use zaimeter::double::Double;
use zaimeter::usage::{ExtraMetrics, UsageMetric, UsageResponse};

fn d(x: f64) -> Double {
    Double::from_bits(x.to_bits()).unwrap()
}

fn f(x: Double) -> f64 {
    f64::from_bits(x.to_bits())
}

fn flush(prev: f64, cur: f64, anchor_advanced: bool, threshold: f64) -> bool {
    is_flush(d(prev), d(cur), anchor_advanced, d(threshold))
}

#[test]
fn test_is_flush_free_flush() {
    // 54% -> 0% with anchor held: a free flush.
    assert!(flush(54.0, 0.0, false, 15.0));
}

#[test]
fn test_is_flush_scheduled_reset_suppressed() {
    // Same big drop, but the anchor jumped forward: a scheduled reset, not
    // a free flush. Must not celebrate.
    assert!(!flush(54.0, 0.0, true, 15.0));
}

#[test]
fn test_is_flush_small_wobble_ignored() {
    // Normal poll-to-poll noise under the threshold is not a flush.
    assert!(!flush(54.0, 50.0, false, 15.0));
}

#[test]
fn test_is_flush_threshold_boundary() {
    // Exactly at the threshold counts.
    assert!(flush(20.0, 5.0, false, 15.0));
}

#[test]
fn test_is_flush_flat_zero() {
    // Both readings at 0%: no delta, no party.
    assert!(!flush(0.0, 0.0, false, 15.0));
}

#[test]
fn test_is_flush_rising_utilization() {
    // Utilization went UP (negative drop): never a flush.
    assert!(!flush(10.0, 40.0, false, 15.0));
}

#[test]
fn flush_agrees_with_the_machine() {
    let xs = [0.0, 0.1, 0.2, 0.3, 4.999, 5.0, 15.0, 15.1, 20.1, 54.3, 99.9, 1e17];
    for p in xs {
        for c in xs {
            for t in [0.1, 0.2, 5.0, 15.0, 15.000000000000002] {
                assert_eq!(flush(p, c, false, t), (p - c) >= t);
            }
        }
    }
}

fn cfg() -> CelebrationCfg {
    CelebrationCfg {
        enabled: true,
        stop_at_percent: d(5.0),
        drop_threshold: d(15.0),
        anchor_tolerance_seconds: 3600,
    }
}

fn reading(ts: &str, util: f64, reset: &str) -> (String, Double, Option<String>) {
    (ts.to_string(), d(util), Some(reset.to_string()))
}

const A: &str = "2026-06-18T04:00:00+00:00";
const B: &str = "2026-06-25T04:00:00+00:00"; // ~7 days later (scheduled reset)

#[test]
fn test_detect_live_flush_active() {
    let rows = vec![reading("t0", 54.0, A), reading("t1", 0.0, A)];
    assert_eq!(detect_live_flush(&rows, cfg()), Some(1));
}

#[test]
fn test_detect_live_flush_latest_flush_wins() {
    // Two real flushes (both drops exceed the 15pt threshold): 54->0, then
    // usage climbed to 20% (which consumed the first party), then 20->0.
    // The later flush at idx 3 wins; the consumed scan runs only from there,
    // so the intermediate 20% does NOT end this party.
    let rows = vec![
        reading("t0", 54.0, A),
        reading("t1", 0.0, A),
        reading("t2", 20.0, A),
        reading("t3", 0.0, A),
    ];
    assert_eq!(detect_live_flush(&rows, cfg()), Some(3));
}

#[test]
fn test_detect_live_flush_stop_threshold_boundary() {
    // Post-flush util exactly at the stop threshold (5.0, stop=5.0): the
    // consumed scan uses >=, so the party does NOT start.
    let at = vec![
        reading("t0", 54.0, A),
        reading("t1", 0.0, A),
        reading("t2", 5.0, A),
    ];
    assert_eq!(detect_live_flush(&at, cfg()), None);
    // A hair under the threshold: party starts.
    let under = vec![
        reading("t0", 54.0, A),
        reading("t1", 0.0, A),
        reading("t2", 4.999, A),
    ];
    assert_eq!(detect_live_flush(&under, cfg()), Some(1));
}

#[test]
fn test_detect_live_flush_consumed_by_usage() {
    // Flush, then usage climbed back past the stop threshold: party over.
    let rows = vec![
        reading("t0", 54.0, A),
        reading("t1", 0.0, A),
        reading("t2", 8.0, A),
    ];
    assert_eq!(detect_live_flush(&rows, cfg()), None);
}

#[test]
fn test_detect_live_flush_ended_by_scheduled_reset() {
    // Flush, then a scheduled reset advanced the anchor: party over.
    let rows = vec![
        reading("t0", 54.0, A),
        reading("t1", 0.0, A),
        reading("t2", 0.0, B),
    ];
    assert_eq!(detect_live_flush(&rows, cfg()), None);
}

#[test]
fn test_detect_live_flush_no_flush() {
    let rows = vec![reading("t0", 3.0, A), reading("t1", 4.0, A)];
    assert_eq!(detect_live_flush(&rows, cfg()), None);
}

#[test]
fn test_detect_live_flush_drop_landing_high_is_not_party() {
    // Big drop but still well above the stop threshold (90% -> 70%): you are
    // clearly using it, no party.
    let rows = vec![reading("t0", 90.0, A), reading("t1", 70.0, A)];
    assert_eq!(detect_live_flush(&rows, cfg()), None);
}

#[test]
fn detect_live_flush_needs_two_readings_and_the_feature() {
    let rows = vec![reading("t0", 54.0, A), reading("t1", 0.0, A)];
    let off = CelebrationCfg { enabled: false, ..cfg() };
    assert_eq!(detect_live_flush(&rows, off), None);
    assert_eq!(detect_live_flush(&rows[..1], cfg()), None);
    assert_eq!(detect_live_flush(&[], cfg()), None);
}

#[test]
fn scheduled_reset_drop_is_no_flush_in_the_history() {
    let rows = vec![reading("t0", 54.0, A), reading("t1", 0.0, B)];
    assert_eq!(detect_live_flush(&rows, cfg()), None);
    // An anchor that is no timestamp does not count as a jump.
    let rows = vec![reading("t0", 54.0, "?"), reading("t1", 0.0, B)];
    assert_eq!(detect_live_flush(&rows, cfg()), Some(1));
}

#[test]
fn scan_of_given_instants() {
    let anchor = Some((1781755200, 0));
    let held = vec![(d(54.0), anchor), (d(0.0), Some((1781755200 + 3599, 0)))];
    assert_eq!(find_live_flush(&held, cfg()), Some(1));
    let jumped = vec![(d(54.0), anchor), (d(0.0), Some((1781755200 + 3600, 0)))];
    assert_eq!(find_live_flush(&jumped, cfg()), None);
    let unknown = vec![(d(54.0), None), (d(0.0), anchor)];
    assert_eq!(find_live_flush(&unknown, cfg()), Some(1));
}

#[test]
fn anchor_advances_by_the_tolerance() {
    let a = Some(A.to_string());
    let b = Some(B.to_string());
    assert!(anchor_advanced(&b, &a, 3600));
    assert!(!anchor_advanced(&a, &b, 3600));
    assert!(anchor_advanced(&b, &a, 7 * 86_400));
    assert!(!anchor_advanced(&b, &a, 7 * 86_400 + 1));
    assert!(!anchor_advanced(&b, &None, 3600));
    assert!(!anchor_advanced(&None, &a, 3600));
    assert!(!anchor_advanced(&Some("?".to_string()), &a, 3600));
}

#[test]
fn unmoved_anchor_holds_at_tolerance_zero() {
    let strict = CelebrationCfg { anchor_tolerance_seconds: 0, ..cfg() };
    let a = Some(A.to_string());
    assert!(!anchor_advanced(&a, &a, 0));
    assert!(anchor_advanced(&Some("2026-06-18T04:00:01+00:00".to_string()), &a, 0));
    assert!(!anchor_advanced(&Some("2026-06-18T03:59:59+00:00".to_string()), &a, 0));
    let rows = vec![reading("t0", 54.0, A), reading("t1", 0.0, A), reading("t2", 0.0, A)];
    assert_eq!(detect_live_flush(&rows, strict), Some(1));
    assert!(backfill_celebration(&CelebrateState::default(), &rows, strict).unwrap().active);
    let r = update_celebration(state(54.0, A, None), &usage(Some((0.0, A))), strict);
    assert!(r.celebrate.is_some() && r.flushed.is_some());
    let r = update_celebration(state(0.0, A, Some("then")), &usage(Some((0.0, A))), strict);
    assert_eq!(r.celebrate.unwrap().since.as_deref(), Some("then"));
    let r = update_celebration(state(0.0, A, Some("then")), &usage(Some((0.0, B))), strict);
    assert!(r.celebrate.is_none());
    // Below zero, a move of more than the tolerance is a jump.
    assert!(anchor_advanced(&a, &a, -1));
    assert!(!anchor_advanced(&Some("2026-06-18T03:59:59+00:00".to_string()), &a, -1));
}

#[test]
fn reset_is_seen_from_the_first_known_anchor() {
    let bare = |ts: &str, util: f64| (ts.to_string(), d(util), None);
    let rows = vec![
        bare("t0", 54.0),
        bare("t1", 0.0),
        reading("t2", 0.0, A),
        reading("t3", 0.0, B),
    ];
    assert_eq!(detect_live_flush(&rows, cfg()), None);
    assert!(backfill_celebration(&CelebrateState::default(), &rows, cfg()).is_none());
    // Before the second anchor is known nothing speaks of a reset.
    assert_eq!(detect_live_flush(&rows[..3], cfg()), Some(1));
    // An anchor that is no timestamp is as good as none.
    let rows = vec![
        reading("t0", 54.0, A),
        reading("t1", 0.0, "?"),
        bare("t2", 0.0),
        reading("t3", 0.0, A),
        reading("t4", 0.0, "?"),
        reading("t5", 0.0, B),
    ];
    assert_eq!(detect_live_flush(&rows, cfg()), None);
    assert_eq!(detect_live_flush(&rows[..5], cfg()), Some(1));
}

#[test]
fn resets_are_measured_from_the_flush() {
    // No step reaches the tolerance, all of them together do.
    let at = |seconds: i64| (d(0.0), Some((1781755200 + seconds, 0)));
    let creeping = vec![(d(54.0), Some((1781755200, 0))), at(1800), at(3600), at(5400)];
    assert_eq!(find_live_flush(&creeping, cfg()), None);
    assert_eq!(find_live_flush(&creeping[..3], cfg()), Some(1));
}

fn usage(week: Option<(f64, &str)>) -> UsageResponse {
    UsageResponse {
        five_hour: None,
        seven_day: week.map(|(util, reset)| UsageMetric {
            utilization: d(util),
            resets_at: Some(reset.to_string()),
        }),
        seven_day_sonnet: None,
        seven_day_opus: None,
        seven_day_oauth_apps: None,
        extra: ExtraMetrics::new(),
        subscription_type: None,
        rate_limit_tier: None,
    }
}

fn state(util: f64, reset: &str, since: Option<&str>) -> CelebrateState {
    CelebrateState {
        last_util: Some(d(util)),
        last_reset: Some(reset.to_string()),
        active: since.is_some(),
        since: since.map(|s| s.to_string()),
    }
}

#[test]
fn flush_starts_a_party() {
    let r = celebration_step(
        state(54.0, A, None),
        &usage(Some((0.0, A))),
        cfg(),
        "now".to_string(),
        false,
    );
    let shown = r.celebrate.unwrap();
    assert!(shown.active);
    assert_eq!(shown.since.as_deref(), Some("now"));
    assert_eq!(shown.reason, "Free weekly flush - fresh bucket");
    let (from, to) = r.flushed.unwrap();
    assert_eq!((f(from), f(to)), (54.0, 0.0));
    let kept = r.state.unwrap();
    assert!(kept.active);
    assert_eq!(kept.last_util.map(f), Some(0.0));
    assert_eq!(kept.last_reset.as_deref(), Some(A));
    assert!(r.ended_at.is_none());
}

#[test]
fn flat_readings_keep_the_party_up() {
    let mut st = state(0.0, A, Some("then"));
    for _ in 0..5 {
        let r = celebration_step(st, &usage(Some((0.0, A))), cfg(), "now".to_string(), false);
        assert_eq!(r.celebrate.unwrap().since.as_deref(), Some("then"));
        st = r.state.unwrap();
    }
    // A poll without a weekly reading does not end it either.
    let r = celebration_step(st, &usage(None), cfg(), "now".to_string(), false);
    assert!(r.celebrate.is_some());
    let kept = r.state.unwrap();
    assert!(kept.last_util.is_none() && kept.last_reset.is_none());
}

#[test]
fn usage_ends_the_party() {
    let r = celebration_step(
        state(0.0, A, Some("then")),
        &usage(Some((5.0, A))),
        cfg(),
        "now".to_string(),
        false,
    );
    assert!(r.celebrate.is_none());
    assert_eq!(r.ended_at.map(f), Some(5.0));
    let kept = r.state.unwrap();
    assert!(!kept.active && kept.since.is_none());
}

#[test]
fn scheduled_reset_ends_the_party() {
    let r = celebration_step(
        state(0.0, A, Some("then")),
        &usage(Some((0.0, B))),
        cfg(),
        "now".to_string(),
        true,
    );
    assert!(r.celebrate.is_none());
    assert!(r.ended_at.is_none());
    assert!(!r.state.unwrap().active);
}

#[test]
fn drop_that_lands_high_begins_no_party() {
    let r = celebration_step(
        state(90.0, A, None),
        &usage(Some((70.0, A))),
        cfg(),
        "now".to_string(),
        false,
    );
    assert!(r.celebrate.is_none());
    assert!(r.flushed.is_some());
    assert_eq!(r.ended_at.map(f), Some(70.0));
}

#[test]
fn disabled_celebration_keeps_nothing() {
    let off = CelebrationCfg { enabled: false, ..cfg() };
    let r = celebration_step(
        state(0.0, A, Some("then")),
        &usage(Some((0.0, A))),
        off,
        "now".to_string(),
        false,
    );
    assert!(r.state.is_none() && r.celebrate.is_none() && r.flushed.is_none());
}

#[test]
fn update_celebration_reads_anchors_and_clock() {
    let r = update_celebration(state(54.0, A, None), &usage(Some((0.0, A))), cfg());
    let since = r.celebrate.unwrap().since.unwrap();
    assert!(zaimeter::clock::seconds_until(&since).unwrap() > -60);
    // The same drop with the anchor moved is a scheduled reset.
    let r = update_celebration(state(54.0, A, None), &usage(Some((0.0, B))), cfg());
    assert!(r.celebrate.is_none() && r.flushed.is_none());
    let kept = r.state.unwrap();
    assert_eq!(kept.last_reset.as_deref(), Some(B));
    // An anchor that moved by the tolerance did not hold; by less, it did.
    let moved = "2026-06-18T05:00:00+00:00";
    let r = update_celebration(state(54.0, A, None), &usage(Some((0.0, moved))), cfg());
    assert!(r.celebrate.is_none() && r.flushed.is_none());
    assert!(!r.state.unwrap().active);
    let held = "2026-06-18T04:59:59+00:00";
    let r = update_celebration(state(54.0, A, None), &usage(Some((0.0, held))), cfg());
    assert!(r.celebrate.is_some() && r.flushed.is_some());
}

#[test]
fn backfill_resumes_a_live_party() {
    let rows = vec![
        reading("t0", 54.0, A),
        reading("t1", 0.0, A),
        reading("t2", 1.0, A),
    ];
    let resumed = backfill_celebration(&CelebrateState::default(), &rows, cfg()).unwrap();
    assert!(resumed.active);
    assert_eq!(resumed.since.as_deref(), Some("t1"));
    assert_eq!(resumed.last_util.map(f), Some(1.0));
    assert_eq!(resumed.last_reset.as_deref(), Some(A));
    // Already active, or off: nothing to do.
    assert!(backfill_celebration(&state(0.0, A, Some("then")), &rows, cfg()).is_none());
    let off = CelebrationCfg { enabled: false, ..cfg() };
    assert!(backfill_celebration(&CelebrateState::default(), &rows, off).is_none());
    assert!(backfill_celebration(&CelebrateState::default(), &rows[..1], cfg()).is_none());
}

#[test]
fn backfill_agrees_with_polling_all_along() {
    let histories: Vec<Vec<f64>> = vec![
        vec![54.0, 0.0, 1.0, 2.0],
        vec![54.0, 0.0, 8.0, 0.0],
        vec![54.0, 0.0, 20.0, 0.0, 4.0],
        vec![90.0, 70.0, 50.0],
        vec![3.0, 4.0],
    ];
    for utils in histories {
        let rows: Vec<(String, Double, Option<String>)> =
            utils.iter().enumerate().map(|(i, u)| reading(&format!("t{i}"), *u, A)).collect();
        let mut st = CelebrateState::default();
        for (ts, util, _) in rows.iter() {
            let u = usage(Some((f(*util), A)));
            st = celebration_step(st, &u, cfg(), ts.clone(), false).state.unwrap();
        }
        let resumed = backfill_celebration(&CelebrateState::default(), &rows, cfg());
        assert_eq!(resumed.is_some(), st.active);
        if let Some(r) = resumed {
            assert_eq!(r.since, st.since);
        }
    }
}
