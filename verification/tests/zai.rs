use zaimeter::double::Double;
use zaimeter::json::{Json, JsonNumber};
use zaimeter::providers::zai::{
    api_error, body_error, decode_metric, judge_status, network_error, parse_quota_response,
    spell_key, StatusVerdict,
};

fn f(x: Double) -> f64 {
    f64::from_bits(x.to_bits())
}

fn num(n: i64) -> Json {
    if n < 0 {
        Json::Number(JsonNumber::NegInt(n))
    } else {
        Json::Number(JsonNumber::PosInt(n as u64))
    }
}

fn float(x: f64) -> Json {
    Json::Number(JsonNumber::Float(Double::from_bits(x.to_bits()).unwrap()))
}

fn text(s: &str) -> Json {
    Json::Text(s.to_string())
}

fn object(members: Vec<(&str, Json)>) -> Json {
    Json::Object(members.into_iter().map(|(k, v)| (k.to_string(), v)).collect())
}

fn envelope(level: &str, limits: Vec<Json>) -> Json {
    object(vec![
        ("code", num(200)),
        ("success", Json::Bool(true)),
        ("data", object(vec![("level", text(level)), ("limits", Json::Array(limits))])),
    ])
}

fn limit(kind: &str, unit: i64, number: i64, percentage: Json) -> Json {
    object(vec![
        ("type", text(kind)),
        ("unit", num(unit)),
        ("number", num(number)),
        ("percentage", percentage),
        ("nextResetTime", num(1781817824865)),
    ])
}

#[test]
fn test_decode_verified_live_payload() {
    // The exact shape probed against the live account on 2026-06-18.
    let json = object(vec![
        ("code", num(200)),
        ("msg", text("Operation successful")),
        ("success", Json::Bool(true)),
        (
            "data",
            object(vec![
                ("level", text("max")),
                (
                    "limits",
                    Json::Array(vec![
                        object(vec![
                            ("type", text("TIME_LIMIT")),
                            ("unit", num(5)),
                            ("number", num(1)),
                            ("usage", num(4000)),
                            ("currentValue", num(2)),
                            ("remaining", num(3998)),
                            ("percentage", num(1)),
                            ("nextResetTime", num(1784371630956_i64)),
                            (
                                "usageDetails",
                                Json::Array(vec![object(vec![
                                    ("modelCode", text("search-prime")),
                                    ("usage", num(1)),
                                ])]),
                            ),
                        ]),
                        object(vec![
                            ("type", text("TOKENS_LIMIT")),
                            ("unit", num(3)),
                            ("number", num(5)),
                            ("percentage", num(1)),
                            ("nextResetTime", num(1781817824865_i64)),
                        ]),
                        object(vec![
                            ("type", text("TOKENS_LIMIT")),
                            ("unit", num(6)),
                            ("number", num(1)),
                            ("percentage", num(2)),
                            ("nextResetTime", num(1782384430998_i64)),
                        ]),
                    ]),
                ),
            ]),
        ),
    ]);
    let resp = parse_quota_response(json).unwrap();

    // 5-hour token limit -> five_hour.
    let fh = resp.five_hour.as_ref().expect("five_hour should be populated");
    assert!((f(fh.utilization) - 1.0).abs() < 1e-9);
    assert!(fh.resets_at.as_deref().unwrap().starts_with("2026-06-"));

    // Weekly token limit -> seven_day.
    let wk = resp.seven_day.as_ref().expect("seven_day should be populated");
    assert!((f(wk.utilization) - 2.0).abs() < 1e-9);
    // Weekly reset is ~7 days out (2026-06-25).
    assert!(wk.resets_at.as_deref().unwrap().starts_with("2026-06-25"));

    // Built-in tools quota -> extra.
    assert_eq!(f(resp.extra.get("tools_5h").unwrap().utilization), 1.0);

    // Plan label flows through detected_plan().
    assert_eq!(resp.subscription_type.as_deref(), Some("GLM Max"));
    assert_eq!(resp.detected_plan(), "GLM Max");
    // The two token limits are the only named metrics surfaced.
    assert_eq!(resp.max_utilization().map(f), Some(2.0));
}

#[test]
fn test_rejects_failed_envelope() {
    let json = object(vec![
        ("code", num(401)),
        ("success", Json::Bool(false)),
        ("msg", text("bad token")),
    ]);
    assert!(parse_quota_response(json).is_err());
}

#[test]
fn test_missing_data_is_error() {
    let json = object(vec![("code", num(200)), ("success", Json::Bool(true))]);
    assert!(parse_quota_response(json).is_err());
}

#[test]
fn test_unknown_limit_goes_to_extra() {
    let json = envelope("pro", vec![limit("TOKENS_LIMIT", 99, 9, num(7))]);
    let resp = parse_quota_response(json).unwrap();
    assert!(resp.five_hour.is_none());
    assert!(resp.seven_day.is_none());
    assert_eq!(resp.extra.len(), 1);
    assert_eq!(resp.subscription_type.as_deref(), Some("GLM Pro"));
}

#[test]
fn test_limit_without_percentage_skipped() {
    // A limit with no percentage contributes no metric.
    let json = envelope(
        "max",
        vec![object(vec![
            ("type", text("TOKENS_LIMIT")),
            ("unit", num(3)),
            ("number", num(5)),
            ("nextResetTime", num(1781817824865_i64)),
        ])],
    );
    let resp = parse_quota_response(json).unwrap();
    assert!(resp.five_hour.is_none());
    assert!(resp.extra.is_empty());
}

#[test]
fn failures_say_code_and_message() {
    let json = object(vec![
        ("code", num(-401)),
        ("success", Json::Bool(false)),
        ("msg", text("bad token")),
    ]);
    assert_eq!(
        parse_quota_response(json).unwrap_err(),
        "[api_error] z.ai reported failure (code -401): bad token"
    );
    assert_eq!(
        parse_quota_response(Json::Null).unwrap_err(),
        "[api_error] z.ai reported failure (code 0): unknown error"
    );
    let json = object(vec![("success", Json::Bool(true))]);
    assert_eq!(
        parse_quota_response(json).unwrap_err(),
        "[api_error] z.ai response missing data"
    );
}

#[test]
fn either_success_or_code_accepts_an_envelope() {
    let data = || ("data", object(vec![]));
    for json in [
        object(vec![("success", Json::Bool(true)), ("code", num(500)), data()]),
        object(vec![("success", Json::Bool(false)), ("code", num(200)), data()]),
        object(vec![("code", num(200)), data()]),
    ] {
        let resp = parse_quota_response(json).unwrap();
        assert_eq!(resp.detected_plan(), "GLM Plan");
        assert!(resp.extra.is_empty());
        assert!(resp.max_utilization().is_none());
    }
}

#[test]
fn other_limits_are_keyed_by_kind_unit_and_number() {
    let json = envelope(
        "max",
        vec![
            limit("TOKENS_LIMIT", 99, 9, float(7.25)),
            limit("Other_Limit", -1, 3, num(8)),
            object(vec![("percentage", num(9))]),
            limit("TIME_LIMIT", 5, 1, num(10)),
            limit("TIME_LIMIT", 6, 2, num(11)),
        ],
    );
    let resp = parse_quota_response(json).unwrap();
    let rows: Vec<(String, f64)> =
        resp.all_metrics().into_iter().map(|(k, m)| (k, f(m.utilization))).collect();
    assert_eq!(
        rows,
        vec![
            ("zai_tokens_limit_99_9".to_string(), 7.25),
            ("zai_other_limit_-1_3".to_string(), 8.0),
            ("zai__0_0".to_string(), 9.0),
            ("tools_5h".to_string(), 11.0),
        ]
    );
}

#[test]
fn kinds_outside_ascii_are_lowered_too() {
    let json = envelope("\u{e9}t\u{e9}", vec![limit("\u{c9}TAT", 1, 2, num(3))]);
    let resp = parse_quota_response(json).unwrap();
    assert_eq!(resp.detected_plan(), "GLM \u{c9}t\u{e9}");
    assert!(resp.extra.get("zai_\u{e9}tat_1_2").is_some());
    assert_eq!(spell_key("\u{e9}tat", 1, 2), "zai_\u{e9}tat_1_2");
}

#[test]
fn last_token_limit_counts() {
    let json = envelope(
        "max",
        vec![
            limit("TOKENS_LIMIT", 3, 5, num(1)),
            limit("TOKENS_LIMIT", 3, 5, num(2)),
            limit("TOKENS_LIMIT", 6, 1, num(3)),
            object(vec![
                ("type", text("TOKENS_LIMIT")),
                ("unit", num(6)),
                ("number", num(1)),
            ]),
        ],
    );
    let resp = parse_quota_response(json).unwrap();
    assert_eq!(resp.five_hour.map(|m| f(m.utilization)), Some(2.0));
    assert!(resp.seven_day.is_none());
}

#[test]
fn order_of_limits_does_not_matter() {
    let pick = |i: usize| match i {
        0 => limit("TOKENS_LIMIT", 3, 5, num(10)),
        1 => limit("TOKENS_LIMIT", 6, 1, num(20)),
        2 => limit("TIME_LIMIT", 5, 1, num(30)),
        3 => limit("TOKENS_LIMIT", 99, 9, float(40.5)),
        // Nothing is metered here.
        4 => limit("TOKENS_LIMIT", 98, 9, Json::Null),
        _ => limit("TIME_LIMIT", 5, 1, text("30")),
    };
    let orders: Vec<Vec<usize>> = vec![
        vec![0, 1, 2, 3],
        vec![3, 2, 1, 0],
        vec![2, 0, 4, 3, 1],
        vec![5, 1, 3, 4, 2, 5, 0, 4],
    ];
    for order in orders {
        let limits = order.into_iter().map(pick).collect();
        let usage = parse_quota_response(envelope("max", limits)).unwrap();
        assert_eq!(f(usage.five_hour.unwrap().utilization), 10.0);
        assert_eq!(f(usage.seven_day.unwrap().utilization), 20.0);
        assert_eq!(usage.extra.len(), 2);
        assert_eq!(f(usage.extra.get("tools_5h").unwrap().utilization), 30.0);
        assert_eq!(f(usage.extra.get("zai_tokens_limit_99_9").unwrap().utilization), 40.5);
        assert_eq!(usage.subscription_type.as_deref(), Some("GLM Max"));
    }
}

#[test]
fn metric_of_a_limit() {
    let m = decode_metric(&limit("X", 0, 0, float(12.5))).unwrap();
    assert_eq!(f(m.utilization), 12.5);
    assert_eq!(m.resets_at.as_deref(), Some("2026-06-18T21:23:44.865+00:00"));
    let m = decode_metric(&object(vec![("percentage", num(-3))])).unwrap();
    assert_eq!(f(m.utilization), -3.0);
    assert!(m.resets_at.is_none());
    // A reset out of the calendar's range, or no whole number, is none.
    for reset in [num(i64::MAX), float(1.5), text("soon"), Json::Number(JsonNumber::PosInt(u64::MAX))] {
        let l = object(vec![("percentage", num(1)), ("nextResetTime", reset)]);
        assert!(decode_metric(&l).unwrap().resets_at.is_none());
    }
    assert!(decode_metric(&object(vec![("percentage", text("7"))])).is_none());
    assert!(decode_metric(&Json::Null).is_none());
    let large = object(vec![("percentage", Json::Number(JsonNumber::PosInt(u64::MAX)))]);
    assert_eq!(f(decode_metric(&large).unwrap().utilization), u64::MAX as f64);
}

#[test]
fn statuses_are_judged() {
    for status in [200u16, 204, 299] {
        assert!(matches!(judge_status(status, "x"), StatusVerdict::Decode));
    }
    for status in [100u16, 199, 300, 302, 400, 404, 418, 499, 600, 999] {
        assert!(matches!(judge_status(status, "x"), StatusVerdict::FailWithBody));
    }
    let message = |status: u16, line: &str| match judge_status(status, line) {
        StatusVerdict::Fail(m) => m,
        _ => panic!("status {status} has an error of its own"),
    };
    assert_eq!(message(429, "x"), "[rate_limited] z.ai quota API rate limited");
    for status in [401u16, 403] {
        assert_eq!(
            message(status, "x"),
            "[token_expired] z.ai token rejected (check GLM_API_KEY)"
        );
    }
    for status in [500u16, 503, 599] {
        assert_eq!(message(status, "503 Busy"), "[server_error] z.ai returned 503 Busy");
    }
}

#[test]
fn transport_errors_have_texts() {
    assert_eq!(api_error("404 Not Found", "gone"), "[api_error] z.ai returned 404 Not Found: gone");
    assert_eq!(network_error("timeout"), "[network_error] timeout");
    assert_eq!(body_error("eof"), "Failed to parse z.ai response JSON: eof");
}
