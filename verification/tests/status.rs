use zaimeter::celebration::Celebrate;
use zaimeter::double::Double;
use zaimeter::providers::{with_credential, Backend, Provider};
use zaimeter::status::{
    live_status, mark_refreshing, publish_status, published, write_error, MacStatus,
};
use zaimeter::tier::{build_tier_note, lower_tier, multiplier_of, plan_multiplier};
use zaimeter::usage::{
    format_metric_name, save_history, ExtraMetrics, UsageMetric, UsageResponse,
};

fn d(x: f64) -> Double {
    Double::from_bits(x.to_bits()).unwrap()
}

fn f(x: Double) -> f64 {
    f64::from_bits(x.to_bits())
}

fn metric(util: f64) -> UsageMetric {
    UsageMetric { utilization: d(util), resets_at: None }
}

fn usage(five: Option<f64>, week: Option<f64>) -> UsageResponse {
    UsageResponse {
        five_hour: five.map(metric),
        seven_day: week.map(metric),
        seven_day_sonnet: None,
        seven_day_opus: None,
        seven_day_oauth_apps: None,
        extra: ExtraMetrics::new(),
        subscription_type: Some("GLM Max".to_string()),
        rate_limit_tier: None,
    }
}

fn tiered() -> Provider {
    Provider::Claude(Backend {
        id: "tiered".to_string(),
        title: "Tiered".to_string(),
        command: "tiered-login".to_string(),
    })
}

#[test]
fn test_refreshing_status_shape() {
    let status = MacStatus::refreshing();
    assert_eq!(status.state, "refreshing");
    assert_eq!(status.title, "Refreshing...");
    assert!(status.percent.is_none());
}

#[test]
fn placeholders_carry_no_data() {
    let status = MacStatus::refreshing();
    assert_eq!(status.detail, "Requesting fresh usage data");
    assert!(status.plan.is_none() && status.error.is_none() && status.tier_note.is_none());
    assert!(status.metrics.is_empty() && status.chart.is_empty());
    assert!(status.chart_resets.is_empty() && status.celebrate.is_none());
    assert!(status.last_api_update.is_none() && status.data_age_seconds.is_none());
    let status = MacStatus::error("boom".to_string());
    assert_eq!(status.state, "error");
    assert_eq!(status.title, "API error");
    assert_eq!(status.detail, "boom");
    assert_eq!(status.error.as_deref(), Some("boom"));
    assert!(status.percent.is_none());
}

fn live() -> MacStatus {
    live_status(
        &usage(Some(12.5), Some(3.0)),
        None,
        &Provider::Zai,
        None,
        &vec![d(0.0), d(12.4)],
        Some(2 * 3600),
        "then".to_string(),
    )
}

#[test]
fn live_status_shows_the_usage() {
    let status = live();
    assert_eq!(status.state, "live");
    assert_eq!(status.title, "13%");
    assert_eq!(status.detail, "GLM Max: 13% max usage");
    assert_eq!(status.plan.as_deref(), Some("GLM Max"));
    assert_eq!(status.percent, Some(13));
    assert_eq!(status.last_api_update.as_deref(), Some("then"));
    assert_eq!(status.data_age_seconds, Some(0));
    assert!(status.error.is_none() && status.tier_note.is_none());
    assert_eq!(status.chart, vec![0, 12]);
    let points: Vec<f64> = status.chart_resets.iter().map(|p| f(*p)).collect();
    assert_eq!(points, vec![3.0, 8.0, 13.0, 18.0, 23.0]);
    let entries: Vec<(&str, &str, u32)> = status
        .metrics
        .iter()
        .map(|m| (m.key.as_str(), m.name.as_str(), m.percent))
        .collect();
    assert_eq!(
        entries,
        vec![("five_hour", "5-hour session", 13), ("seven_day", "Weekly (7-day)", 3)]
    );
}

#[test]
fn status_without_metrics_is_zero_percent() {
    let status = live_status(
        &usage(None, None),
        Some("Max 20x"),
        &Provider::Zai,
        None,
        &Vec::new(),
        None,
        "then".to_string(),
    );
    assert_eq!(status.title, "0%");
    assert!(status.metrics.is_empty() && status.chart.is_empty() && status.chart_resets.is_empty());
}

#[test]
fn plan_override_counts_for_tiered_plans_only() {
    let show = |provider: &Provider, plan: Option<&str>| {
        live_status(
            &usage(Some(31.0), Some(24.0)),
            plan,
            provider,
            None,
            &Vec::new(),
            None,
            "then".to_string(),
        )
    };
    let status = show(&tiered(), Some("Max 20x"));
    assert_eq!(status.plan.as_deref(), Some("Max 20x"));
    assert_eq!(
        status.tier_note.as_deref(),
        Some("On Max 5x: weekly ~96%, session ~124% \u{2014} would throttle")
    );
    let status = show(&tiered(), None);
    assert_eq!(status.plan.as_deref(), Some("GLM Max"));
    assert!(status.tier_note.is_none());
    let status = show(&Provider::Zai, Some("Max 20x"));
    assert_eq!(status.plan.as_deref(), Some("GLM Max"));
    assert!(status.tier_note.is_none());
}

#[test]
fn refresh_keeps_the_last_reading() {
    let failed = write_error(Some(live()), "boom".to_string());
    assert_eq!(failed.percent, Some(13));
    assert_eq!(failed.state, "live");
    assert_eq!(failed.error.as_deref(), Some("boom"));
    let failed = write_error(Some(failed), "again".to_string());
    assert_eq!(failed.error.as_deref(), Some("again"));
    let refreshed = mark_refreshing(Some(failed));
    assert!(refreshed.error.is_none());
    assert_eq!(refreshed.title, "13%");
    assert_eq!(refreshed.metrics.len(), 2);
}

#[test]
fn placeholder_is_shown_without_a_reading() {
    assert_eq!(mark_refreshing(None).state, "refreshing");
    assert_eq!(mark_refreshing(Some(MacStatus::error("x".to_string()))).state, "refreshing");
    assert_eq!(write_error(None, "boom".to_string()).state, "error");
    let failed = write_error(Some(MacStatus::refreshing()), "boom".to_string());
    assert_eq!(failed.detail, "boom");
}

#[test]
fn publishing_reads_the_clock_and_alarms_at_ninety() {
    let mut report = usage(Some(89.4), None);
    report.five_hour = Some(UsageMetric {
        utilization: d(89.4),
        resets_at: Some("1999-01-01T00:00:00Z".to_string()),
    });
    let party = Celebrate { active: true, since: None, reason: "r".to_string() };
    let published = publish_status(&report, None, &Provider::Zai, Some(party), &vec![d(1.5)]);
    assert!(published.alarm.is_none());
    assert_eq!(published.status.percent, Some(89));
    assert_eq!(published.status.chart, vec![2]);
    // The session ended long ago: every point is more than a day back.
    assert!(published.status.chart_resets.is_empty());
    assert_eq!(published.status.celebrate.unwrap().reason, "r");
    let stamp = published.status.last_api_update.unwrap();
    assert!(zaimeter::clock::seconds_until(&stamp).unwrap() > -60);
    // The log shows the same date and time of day.
    let plain = stamp[..19].replace('T', " ");
    assert_eq!(published.log_line, format!("[{plain}] GLM Max: 89% max usage"));

    let published = publish_status(&usage(Some(89.5), None), None, &Provider::Zai, None, &vec![]);
    let alarm = published.alarm.unwrap();
    assert_eq!(alarm.title, "ZaiMeter: high usage");
    assert_eq!(alarm.message, "GLM Max: 90% max usage");
}

#[test]
fn published_status_is_logged() {
    let r = published(live(), "2026-06-18 04:00:00");
    assert_eq!(r.log_line, "[2026-06-18 04:00:00] GLM Max: 13% max usage");
    assert_eq!(r.status.detail, "GLM Max: 13% max usage");
    assert!(r.alarm.is_none());
    assert!(published(MacStatus::refreshing(), "").alarm.is_none());
}

#[test]
fn plan_labels_give_multipliers() {
    assert_eq!(plan_multiplier("Max 20x"), Some(20));
    assert_eq!(plan_multiplier("MAX 5X"), Some(5));
    assert_eq!(plan_multiplier("max"), Some(5));
    assert_eq!(plan_multiplier("Pro"), Some(1));
    assert_eq!(plan_multiplier("Promax"), Some(5));
    assert_eq!(plan_multiplier("Free"), None);
    assert_eq!(plan_multiplier(""), None);
    // The Kelvin sign is not ASCII, and its lower-case form is.
    assert_eq!(plan_multiplier("\u{212a} MAX"), Some(5));
    assert_eq!(multiplier_of("max 20x"), Some(20));
    assert_eq!(multiplier_of("MAX"), None);
}

#[test]
fn tiers_step_down() {
    assert_eq!(lower_tier(20), Some(("Max 5x", 5)));
    assert_eq!(lower_tier(19), Some(("Pro", 1)));
    assert_eq!(lower_tier(5), Some(("Pro", 1)));
    assert_eq!(lower_tier(4), None);
    assert_eq!(lower_tier(1), None);
}

#[test]
fn tier_notes() {
    let note = |plan: &str, five: Option<f64>, week: Option<f64>| {
        build_tier_note(plan, &usage(five, week))
    };
    assert_eq!(
        note("Max 20x", Some(31.0), Some(24.0)).as_deref(),
        Some("On Max 5x: weekly ~96%, session ~124% \u{2014} would throttle")
    );
    assert_eq!(
        note("Max 5x", Some(2.5), None).as_deref(),
        Some("On Pro: session ~13% \u{2014} would fit")
    );
    assert_eq!(
        note("Max 5x", None, Some(20.0)).as_deref(),
        Some("On Pro: weekly ~100% \u{2014} would fit")
    );
    assert_eq!(
        note("Max 5x", None, Some(20.01)).as_deref(),
        Some("On Pro: weekly ~100% \u{2014} would throttle")
    );
    assert_eq!(note("Max 20x", None, None), None);
    assert_eq!(note("Pro", Some(50.0), Some(50.0)), None);
    assert_eq!(note("Free", Some(50.0), Some(50.0)), None);
}

#[test]
fn metric_names() {
    assert_eq!(format_metric_name("five_hour"), "5-hour session");
    assert_eq!(format_metric_name("seven_day"), "Weekly (7-day)");
    assert_eq!(format_metric_name("tools_5h"), "Tools 5h");
    assert_eq!(format_metric_name(""), "");
}

#[test]
fn extra_metrics_hold_one_metric_per_key() {
    let mut extra = ExtraMetrics::new();
    assert!(extra.is_empty());
    extra.insert("a".to_string(), metric(1.0));
    extra.insert("b".to_string(), metric(2.0));
    extra.insert("a".to_string(), metric(3.0));
    assert_eq!(extra.len(), 2);
    assert_eq!(f(extra.get("a").unwrap().utilization), 3.0);
    assert_eq!(f(extra.get("b").unwrap().utilization), 2.0);
    assert!(extra.get("c").is_none());
}

#[test]
fn history_records_every_metric() {
    let mut report = usage(Some(1.0), Some(2.0));
    report.extra.insert(
        "tools_5h".to_string(),
        UsageMetric { utilization: d(9.0), resets_at: Some("soon".to_string()) },
    );
    let rows = save_history(&report, "zai");
    let seen: Vec<(&str, &str, f64, Option<&str>)> = rows
        .iter()
        .map(|r| {
            (r.provider.as_str(), r.metric.as_str(), f(r.utilization), r.resets_at.as_deref())
        })
        .collect();
    assert_eq!(
        seen,
        vec![
            ("zai", "five_hour", 1.0, None),
            ("zai", "seven_day", 2.0, None),
            ("zai", "tools_5h", 9.0, Some("soon")),
        ]
    );
    assert_eq!(report.max_utilization().map(f), Some(9.0));
}

#[test]
fn credential_completes_a_report() {
    let report = with_credential(
        usage(Some(1.0), None),
        Some("max".to_string()),
        Some("tier".to_string()),
    );
    assert_eq!(report.subscription_type.as_deref(), Some("max"));
    assert_eq!(report.rate_limit_tier.as_deref(), Some("tier"));
    assert!(report.five_hour.is_some());
}
