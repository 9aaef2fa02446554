//! The z.ai (GLM Coding Plan) usage provider.
//!
//! The account-monitoring API answers with a list of limits, which become the
//! metrics of a usage report:
//!
//!   TOKENS_LIMIT unit=3 number=5  -> five_hour  (5-hour token limit)
//!   TOKENS_LIMIT unit=6 number=1  -> seven_day  (weekly token limit)
//!   TIME_LIMIT                    -> extra "tools_5h" (built-in tools quota)
//!
//! `data.level` becomes the plan label, e.g. "max" -> "GLM Max".

use vstd::prelude::*;
use vstd::string::StringExecFns;

use crate::clock::{
    epoch_ms_to_iso, is_moment, iso_of_millis, law_instant_of_millis, rfc3339_instant, rfc3339_text,
};
use crate::json::Json;
use crate::providers::is_credential_failure;
use crate::text::{
    append_signed, begins_with, lowercase, same, signed_decimal, title_case, title_cased,
    to_lowercase,
};
use crate::usage::{
    distinct_keys, law_put, lookup, metric_of, named_row, position, put, ExtraMetrics, MetricView,
    Rows, UsageMetric, UsageResponse, UsageView,
};

verus! {

/// The metric of a limit: its `percentage`, with `nextResetTime` (epoch ms) as a
/// timestamp. `None` when the limit carries no `percentage`.
pub open spec fn decoded_metric(limit: Json) -> Option<MetricView> {
    match limit.member_double("percentage"@) {
        Some(utilization) => Some(
            MetricView {
                utilization,
                resets_at: match limit.member_whole("nextResetTime"@) {
                    Some(ms) => iso_of_millis(ms as int),
                    None => None,
                },
            },
        ),
        None => None,
    }
}

/// Builds the metric of a limit. `None` when the limit carries no `percentage`.
pub fn decode_metric(limit: &Json) -> (r: Option<UsageMetric>)
    ensures
        metric_of(r) == decoded_metric(*limit),
        r is Some <==> limit.member_double("percentage"@) is Some,
        r matches Some(m) ==> limit.member_double("percentage"@) == Some(m.utilization),
        r matches Some(m) ==> match limit.member_whole("nextResetTime"@) {
            Some(ms) => {
                &&& m.resets_at is Some <==> -8_334_601_228_800_000 <= ms
                    <= 8_210_266_876_799_999
                &&& m.resets_at matches Some(text) ==> exists|i: (i64, u32)|
                    is_moment(i, ms as int) && text@ == #[trigger] rfc3339_text(i, 0)
                &&& -62_167_219_200_000 <= ms <= 253_402_300_799_999 ==> m.resets_at is Some
                    && rfc3339_instant(m.resets_at->0@) is Some && is_moment(
                    rfc3339_instant(m.resets_at->0@)->0,
                    ms as int,
                )
            },
            None => m.resets_at is None,
        },
{
    match limit.get_double("percentage") {
        Some(utilization) => {
            let resets_at = match limit.get_i64("nextResetTime") {
                Some(ms) => epoch_ms_to_iso(ms),
                None => None,
            };
            Some(UsageMetric { utilization, resets_at })
        },
        None => None,
    }
}

/// The kind of a limit.
pub open spec fn limit_kind(limit: Json) -> Seq<char> {
    match limit.member_text("type"@) {
        Some(kind) => kind,
        None => ""@,
    }
}

/// A whole number that defaults to zero.
pub open spec fn or_zero(n: Option<i64>) -> int {
    match n {
        Some(v) => v as int,
        None => 0,
    }
}

/// Whether the limit is the token limit with this unit and number.
pub open spec fn is_token_limit(limit: Json, unit: i64, number: i64) -> bool {
    &&& limit_kind(limit) == "TOKENS_LIMIT"@
    &&& limit.member_whole("unit"@) == Some(unit)
    &&& limit.member_whole("number"@) == Some(number)
}

/// The key under which a limit is kept that has no field of its own.
pub open spec fn extra_key(limit: Json) -> Seq<char> {
    if limit_kind(limit) == "TIME_LIMIT"@ {
        "tools_5h"@
    } else {
        spelled_key(
            lowercase(limit_kind(limit)),
            or_zero(limit.member_whole("unit"@)),
            or_zero(limit.member_whole("number"@)),
        )
    }
}

/// The usage report after one more limit.
pub open spec fn with_limit(usage: UsageView, limit: Json) -> UsageView {
    let metric = decoded_metric(limit);
    if is_token_limit(limit, 3, 5) {
        UsageView { five_hour: metric, ..usage }
    } else if is_token_limit(limit, 6, 1) {
        UsageView { seven_day: metric, ..usage }
    } else {
        match metric {
            Some(m) => UsageView { extra: put(usage.extra, extra_key(limit), m), ..usage },
            None => usage,
        }
    }
}

/// A usage report with a plan label and no metric.
pub open spec fn unmetered(plan: Seq<char>) -> UsageView {
    UsageView {
        five_hour: None,
        seven_day: None,
        seven_day_sonnet: None,
        seven_day_opus: None,
        seven_day_oauth_apps: None,
        extra: Rows::empty(),
        subscription_type: Some(plan),
        rate_limit_tier: None,
    }
}

/// The usage report of a list of limits, taken in order.
pub open spec fn with_limits(plan: Seq<char>, limits: Seq<Json>) -> UsageView
    decreases limits.len(),
{
    if limits.len() == 0 {
        unmetered(plan)
    } else {
        with_limit(with_limits(plan, limits.drop_last()), limits.last())
    }
}

/// The key that a kind in lower case gives with its unit and number.
pub open spec fn spelled_key(lower_kind: Seq<char>, unit: int, number: int) -> Seq<char> {
    "zai_"@ + lower_kind + "_"@ + signed_decimal(unit) + "_"@ + signed_decimal(number)
}

/// The key that a kind in lower case gives with its unit and number, as in
/// "zai_tokens_limit_99_9".
pub fn spell_key(lower_kind: &str, unit: i64, number: i64) -> (key: String)
    ensures
        key@ == spelled_key(lower_kind@, unit as int, number as int),
{
    let mut key = "zai_".to_owned();
    key.append(lower_kind);
    key.append("_");
    append_signed(&mut key, unit);
    key.append("_");
    append_signed(&mut key, number);
    key
}

/// The key of a limit that has no field of its own.
fn key_of(limit: &Json, kind: &str, unit: Option<i64>, number: Option<i64>) -> (key: String)
    requires
        kind@ == limit_kind(*limit),
        unit == limit.member_whole("unit"@),
        number == limit.member_whole("number"@),
    ensures
        key@ == extra_key(*limit),
{
    if same(kind, "TIME_LIMIT") {
        "tools_5h".to_owned()
    } else {
        let lower = to_lowercase(kind);
        spell_key(lower.as_str(), unit.unwrap_or(0), number.unwrap_or(0))
    }
}

/// Takes one more limit into a usage report.
fn add_limit(usage: &mut UsageResponse, limit: &Json)
    requires
        old(usage).wf(),
    ensures
        final(usage).wf(),
        final(usage)@ == with_limit(old(usage)@, *limit),
{
    let kind = limit.get_str("type").unwrap_or("");
    let unit = limit.get_i64("unit");
    let number = limit.get_i64("number");
    let metric = decode_metric(limit);
    let token = same(kind, "TOKENS_LIMIT");
    if token && unit == Some(3i64) && number == Some(5i64) {
        usage.five_hour = metric;
    } else if token && unit == Some(6i64) && number == Some(1i64) {
        usage.seven_day = metric;
    } else if let Some(m) = metric {
        usage.extra.insert(key_of(limit, kind, unit, number), m);
    }
}

/// Whether the envelope reports a failure.
pub open spec fn failed(envelope: Json) -> bool {
    envelope.member_truth("success"@) != Some(true) && envelope.member_whole("code"@) != Some(200i64)
}

/// What a failed envelope says.
pub open spec fn failure_message(envelope: Json) -> Seq<char> {
    "[api_error] z.ai reported failure (code "@ + signed_decimal(
        or_zero(envelope.member_whole("code"@)),
    ) + "): "@ + match envelope.member_text("msg"@) {
        Some(msg) => msg,
        None => "unknown error"@,
    }
}

/// The plan label of the account data.
pub open spec fn plan_label(data: Json) -> Seq<char> {
    "GLM "@ + title_cased(
        match data.member_text("level"@) {
            Some(level) => level,
            None => "plan"@,
        },
    )
}

/// The limits of the account data.
pub open spec fn limits_of(data: Json) -> Seq<Json> {
    match data.member("limits"@) {
        Some(limits) => limits.items(),
        None => Seq::empty(),
    }
}

/// What a `quota/limit` envelope decodes to.
pub open spec fn quota(envelope: Json) -> Result<UsageView, Seq<char>> {
    if failed(envelope) {
        Err(failure_message(envelope))
    } else {
        match envelope.member("data"@) {
            Some(data) => Ok(with_limits(plan_label(data), limits_of(data))),
            None => Err("[api_error] z.ai response missing data"@),
        }
    }
}

/// Decodes the `quota/limit` envelope into a usage report.
///
/// Top-level shape: `{ code, msg, success, data: { level, limits: [...] } }`.
/// Each limit carries `type`, `unit`, `number`, `percentage`, `nextResetTime`
/// (epoch ms).
pub fn parse_quota_response(value: Json) -> (r: Result<UsageResponse, String>)
    ensures
        r is Ok <==> quota(value) is Ok,
        r matches Ok(usage) ==> usage.wf() && quota(value) == Ok::<UsageView, Seq<char>>(usage@),
        r matches Err(message) ==> quota(value) == Err::<UsageView, Seq<char>>(message@),
{
    let success = value.get_bool("success").unwrap_or(false);
    let code = value.get_i64("code").unwrap_or(0);
    if !success && code != 200 {
        let mut message = "[api_error] z.ai reported failure (code ".to_owned();
        append_signed(&mut message, code);
        message.append("): ");
        message.append(value.get_str("msg").unwrap_or("unknown error"));
        return Err(message);
    }
    let data = match value.get("data") {
        Some(data) => data,
        None => {
            return Err("[api_error] z.ai response missing data".to_owned());
        },
    };
    let level = data.get_str("level").unwrap_or("plan");
    let mut plan = "GLM ".to_owned();
    let title = title_case(level);
    plan.append(title.as_str());
    let ghost label = plan@;
    let mut usage = UsageResponse {
        five_hour: None,
        seven_day: None,
        seven_day_sonnet: None,
        seven_day_opus: None,
        seven_day_oauth_apps: None,
        extra: ExtraMetrics::new(),
        subscription_type: Some(plan),
        rate_limit_tier: None,
    };
    match data.get_array("limits") {
        Some(limits) => {
            let mut i: usize = 0;
            while i < limits.len()
                invariant
                    i <= limits@.len(),
                    usage.wf(),
                    usage@ == with_limits(label, limits@.take(i as int)),
                decreases limits@.len() - i,
            {
                proof {
                    let longer = limits@.take(i + 1);
                    assert(longer.drop_last() =~= limits@.take(i as int));
                    assert(longer.last() == limits@[i as int]);
                }
                add_limit(&mut usage, &limits[i]);
                i = i + 1;
            }
            assert(limits@.take(limits@.len() as int) =~= limits@);
        },
        None => {},
    }
    Ok(usage)
}

/// What to do with an HTTP answer, by its status.
#[derive(Debug)]
pub enum StatusVerdict {
    /// Give up with this error.
    Fail(String),
    /// Read the body and give up with [`api_error`].
    FailWithBody,
    /// Decode the body as JSON.
    Decode,
}

/// What an answer with this status is rejected with, where the body does not
/// matter. `line` is the status as it is shown.
pub open spec fn status_error(status: u16, line: Seq<char>) -> Option<Seq<char>> {
    if status == 429 {
        Some("[rate_limited] z.ai quota API rate limited"@)
    } else if status == 401 || status == 403 {
        Some("[token_expired] z.ai token rejected (check GLM_API_KEY)"@)
    } else if 500 <= status < 600 {
        Some("[server_error] z.ai returned "@ + line)
    } else {
        None
    }
}

/// Decides what to do with an HTTP answer: rate limiting, a rejected token and
/// server errors have errors of their own, other failures show the body, and
/// a success is decoded.
pub fn judge_status(status: u16, line: &str) -> (r: StatusVerdict)
    ensures
        match r {
            StatusVerdict::Fail(message) => status_error(status, line@) == Some(message@),
            StatusVerdict::FailWithBody => status_error(status, line@) is None && !(200 <= status
                < 300),
            StatusVerdict::Decode => 200 <= status < 300,
        },
        200 <= status < 300 ==> r is Decode,
        status == 429 ==> r is Fail && r->Fail_0@ == "[rate_limited] z.ai quota API rate limited"@,
        status == 401 || status == 403 ==> r is Fail && r->Fail_0@
            == "[token_expired] z.ai token rejected (check GLM_API_KEY)"@,
        500 <= status < 600 ==> r is Fail && r->Fail_0@ == "[server_error] z.ai returned "@ + line@,
        !(200 <= status < 300) && status != 429 && status != 401 && status != 403 && !(500 <= status
            < 600) ==> r is FailWithBody,
{
    if status == 429 {
        StatusVerdict::Fail("[rate_limited] z.ai quota API rate limited".to_owned())
    } else if status == 401 || status == 403 {
        StatusVerdict::Fail("[token_expired] z.ai token rejected (check GLM_API_KEY)".to_owned())
    } else if 500 <= status && status < 600 {
        let mut message = "[server_error] z.ai returned ".to_owned();
        message.append(line);
        StatusVerdict::Fail(message)
    } else if 200 <= status && status < 300 {
        StatusVerdict::Decode
    } else {
        StatusVerdict::FailWithBody
    }
}

/// The error of an answer that failed with a body.
pub open spec fn api_error_message(line: Seq<char>, body: Seq<char>) -> Seq<char> {
    "[api_error] z.ai returned "@ + line + ": "@ + body
}

/// The error of an answer that failed with a body.
pub fn api_error(line: &str, body: &str) -> (r: String)
    ensures
        r@ == api_error_message(line@, body@),
        r@ == "[api_error] z.ai returned "@ + line@ + ": "@ + body@,
{
    let mut r = "[api_error] z.ai returned ".to_owned();
    r.append(line);
    r.append(": ");
    r.append(body);
    r
}

/// The error of a request that got no answer.
pub fn network_error(reason: &str) -> (r: String)
    ensures
        r@ == "[network_error] "@ + reason@,
{
    let mut r = "[network_error] ".to_owned();
    r.append(reason);
    r
}

/// The error of an answer whose body is no JSON.
pub fn body_error(reason: &str) -> (r: String)
    ensures
        r@ == "Failed to parse z.ai response JSON: "@ + reason@,
{
    let mut r = "Failed to parse z.ai response JSON: ".to_owned();
    r.append(reason);
    r
}

/// No failure of the z.ai API is taken for a missing credential, whatever the
/// status, the answer or the reason.
pub proof fn law_api_failures_are_not_credential_failures(
    status: u16,
    line: Seq<char>,
    body: Seq<char>,
    reason: Seq<char>,
    envelope: Json,
)
    ensures
        status_error(status, line) matches Some(e) ==> !is_credential_failure(e),
        !is_credential_failure(api_error_message(line, body)),
        !is_credential_failure("[network_error] "@ + reason),
        !is_credential_failure("Failed to parse z.ai response JSON: "@ + reason),
        quota(envelope) matches Err(e) ==> !is_credential_failure(e),
{
    reveal_strlit("[rate_limited] z.ai quota API rate limited");
    reveal_strlit("[token_expired] z.ai token rejected (check GLM_API_KEY)");
    reveal_strlit("[server_error] z.ai returned ");
    reveal_strlit("[api_error] z.ai returned ");
    reveal_strlit("[network_error] ");
    reveal_strlit("Failed to parse z.ai response JSON: ");
    reveal_strlit("[api_error] z.ai reported failure (code ");
    reveal_strlit("[api_error] z.ai response missing data");
    assert forall|e: Seq<char>| e.len() >= 2 && e[1] != 'c' implies !#[trigger] is_credential_failure(
        e,
    ) by {
        reveal_strlit("[cred]");
        if is_credential_failure(e) {
            assert(e.subrange(0, 6)[1] == e[1]);
        }
    }
}

/// Every limit with a percentage is a metric, whatever its type, unit and number:
/// its utilization is the percentage, and it resets at the moment that
/// `nextResetTime` gives. Without a percentage there is no metric.
pub proof fn law_metric_of_a_limit(limit: Json)
    ensures
        decoded_metric(limit) is Some <==> limit.member_double("percentage"@) is Some,
        decoded_metric(limit) matches Some(m) ==> {
            &&& limit.member_double("percentage"@) == Some(m.utilization)
            &&& limit.member_whole("nextResetTime"@) is None ==> m.resets_at is None
            &&& limit.member_whole("nextResetTime"@) matches Some(ms) ==> {
                &&& m.resets_at is Some <==> -8_334_601_228_800_000 <= ms
                    <= 8_210_266_876_799_999
                &&& m.resets_at matches Some(text) ==> forall|i: (i64, u32)| #[trigger]
                    is_moment(i, ms as int) ==> text == rfc3339_text(i, 0)
            }
        },
{
    if let Some(ms) = limit.member_whole("nextResetTime"@) {
        if -8_334_601_228_800_000 <= ms <= 8_210_266_876_799_999 {
            law_instant_of_millis(ms as int);
        }
    }
}

/// Two limits with the same percentage and the same reset have the same metric,
/// whatever else they say.
pub proof fn law_metric_depends_on_percentage_and_reset(a: Json, b: Json)
    requires
        a.member_double("percentage"@) == b.member_double("percentage"@),
        a.member_whole("nextResetTime"@) == b.member_whole("nextResetTime"@),
    ensures
        decoded_metric(a) == decoded_metric(b),
{
}

/// The last 5-hour token limit of a list is the 5-hour metric of the report: type
/// TOKENS_LIMIT, unit 3, number 5.
pub proof fn law_five_hour_limit(plan: Seq<char>, limits: Seq<Json>, i: int)
    requires
        0 <= i < limits.len(),
        limits[i].member_text("type"@) == Some("TOKENS_LIMIT"@),
        limits[i].member_whole("unit"@) == Some(3i64),
        limits[i].member_whole("number"@) == Some(5i64),
        forall|j: int|
            i < j < limits.len() ==> !((#[trigger] limits[j]).member_text("type"@) == Some(
                "TOKENS_LIMIT"@,
            ) && limits[j].member_whole("unit"@) == Some(3i64) && limits[j].member_whole(
                "number"@,
            ) == Some(5i64)),
    ensures
        with_limits(plan, limits).five_hour == decoded_metric(limits[i]),
    decreases limits.len(),
{
    reveal_strlit("");
    reveal_strlit("TOKENS_LIMIT");
    if i < limits.len() - 1 {
        assert(limits.last() == limits[limits.len() - 1]);
        law_five_hour_limit(plan, limits.drop_last(), i);
    }
}

/// The last weekly token limit of a list is the weekly metric of the report: type
/// TOKENS_LIMIT, unit 6, number 1.
pub proof fn law_weekly_limit(plan: Seq<char>, limits: Seq<Json>, i: int)
    requires
        0 <= i < limits.len(),
        limits[i].member_text("type"@) == Some("TOKENS_LIMIT"@),
        limits[i].member_whole("unit"@) == Some(6i64),
        limits[i].member_whole("number"@) == Some(1i64),
        forall|j: int|
            i < j < limits.len() ==> !((#[trigger] limits[j]).member_text("type"@) == Some(
                "TOKENS_LIMIT"@,
            ) && limits[j].member_whole("unit"@) == Some(6i64) && limits[j].member_whole(
                "number"@,
            ) == Some(1i64)),
    ensures
        with_limits(plan, limits).seven_day == decoded_metric(limits[i]),
    decreases limits.len(),
{
    reveal_strlit("");
    reveal_strlit("TOKENS_LIMIT");
    if i < limits.len() - 1 {
        assert(limits.last() == limits[limits.len() - 1]);
        law_weekly_limit(plan, limits.drop_last(), i);
    }
}

/// A list without a 5-hour or a weekly token limit gives no such metric.
pub proof fn law_gauges_need_their_limits(plan: Seq<char>, limits: Seq<Json>)
    ensures
        with_limits(plan, limits).five_hour is Some ==> exists|i: int|
            0 <= i < limits.len() && (#[trigger] limits[i]).member_text("type"@) == Some(
                "TOKENS_LIMIT"@,
            ) && limits[i].member_whole("unit"@) == Some(3i64) && limits[i].member_whole(
                "number"@,
            ) == Some(5i64) && with_limits(plan, limits).five_hour == decoded_metric(limits[i]),
        with_limits(plan, limits).seven_day is Some ==> exists|i: int|
            0 <= i < limits.len() && (#[trigger] limits[i]).member_text("type"@) == Some(
                "TOKENS_LIMIT"@,
            ) && limits[i].member_whole("unit"@) == Some(6i64) && limits[i].member_whole(
                "number"@,
            ) == Some(1i64) && with_limits(plan, limits).seven_day == decoded_metric(limits[i]),
    decreases limits.len(),
{
    reveal_strlit("");
    reveal_strlit("TOKENS_LIMIT");
    if limits.len() > 0 {
        let earlier = limits.drop_last();
        let n = limits.len() - 1;
        law_gauges_need_their_limits(plan, earlier);
        assert(limits[n] == limits.last());
        assert forall|i: int| 0 <= i < n implies #[trigger] limits[i] == earlier[i] by {}
        assert forall|i: int| 0 <= i < n implies #[trigger] earlier[i] == limits[i] by {}
    }
}

/// Whether a limit has no field of its own.
pub open spec fn is_other(limit: Json) -> bool {
    limit.member_text("type"@) == Some("TOKENS_LIMIT"@) ==> {
        &&& !(limit.member_whole("unit"@) == Some(3i64) && limit.member_whole("number"@) == Some(
            5i64,
        ))
        &&& !(limit.member_whole("unit"@) == Some(6i64) && limit.member_whole("number"@) == Some(
            1i64,
        ))
    }
}

/// The key of a limit without a field of its own: "tools_5h" for the built-in
/// tools quota; for any other "zai_", its type in lower case, its unit and its
/// number, with underscores between them, and zero where one is missing.
pub proof fn law_key_of_a_limit(limit: Json)
    ensures
        limit.member_text("type"@) == Some("TIME_LIMIT"@) ==> extra_key(limit) == "tools_5h"@,
        limit.member_text("type"@) matches Some(kind) ==> kind != "TIME_LIMIT"@ ==> extra_key(limit)
            == "zai_"@ + lowercase(kind) + "_"@ + signed_decimal(
            match limit.member_whole("unit"@) {
                Some(unit) => unit as int,
                None => 0,
            },
        ) + "_"@ + signed_decimal(
            match limit.member_whole("number"@) {
                Some(number) => number as int,
                None => 0,
            },
        ),
        limit.member_text("type"@) is None ==> extra_key(limit) == "zai__"@ + signed_decimal(
            match limit.member_whole("unit"@) {
                Some(unit) => unit as int,
                None => 0,
            },
        ) + "_"@ + signed_decimal(
            match limit.member_whole("number"@) {
                Some(number) => number as int,
                None => 0,
            },
        ),
{
    reveal_strlit("");
    reveal_strlit("TIME_LIMIT");
    reveal_strlit("zai_");
    reveal_strlit("_");
    reveal_strlit("zai__");
    assert(lowercase(""@) =~= Seq::empty());
    assert("zai_"@ + lowercase(""@) + "_"@ =~= "zai__"@);
}

/// The last metered limit under a key is the extra metric under that key: no
/// limit with a percentage is lost.
pub proof fn law_other_limits_count(plan: Seq<char>, limits: Seq<Json>, i: int)
    requires
        0 <= i < limits.len(),
        is_other(limits[i]),
        limits[i].member_double("percentage"@) is Some,
        forall|j: int|
            i < j < limits.len() ==> !(is_other(#[trigger] limits[j]) && limits[j].member_double(
                "percentage"@,
            ) is Some && extra_key(limits[j]) == extra_key(limits[i])),
    ensures
        lookup(with_limits(plan, limits).extra, extra_key(limits[i])) == decoded_metric(limits[i]),
    decreases limits.len(),
{
    reveal_strlit("");
    reveal_strlit("TOKENS_LIMIT");
    let earlier = limits.drop_last();
    let last = limits.last();
    let before = with_limits(plan, earlier);
    lemma_extra_keys(plan, earlier);
    assert(last == limits[limits.len() - 1]);
    if !is_named(last) {
        if let Some(m) = decoded_metric(last) {
            law_put(before.extra, extra_key(last), m, extra_key(limits[i]));
        }
    }
    if i < limits.len() - 1 {
        law_other_limits_count(plan, earlier, i);
    }
}

/// Every extra metric comes from a limit of the list: none is invented.
pub proof fn law_extra_metrics_need_their_limits(
    plan: Seq<char>,
    limits: Seq<Json>,
    key: Seq<char>,
)
    ensures
        lookup(with_limits(plan, limits).extra, key) is Some ==> exists|i: int|
            0 <= i < limits.len() && is_other(#[trigger] limits[i]) && extra_key(limits[i]) == key
                && decoded_metric(limits[i]) == lookup(with_limits(plan, limits).extra, key),
    decreases limits.len(),
{
    reveal_strlit("");
    reveal_strlit("TOKENS_LIMIT");
    if limits.len() > 0 {
        let earlier = limits.drop_last();
        let last = limits.last();
        let n = limits.len() - 1;
        let before = with_limits(plan, earlier);
        law_extra_metrics_need_their_limits(plan, earlier, key);
        lemma_extra_keys(plan, earlier);
        assert(limits[n] == last);
        if !is_named(last) {
            if let Some(m) = decoded_metric(last) {
                law_put(before.extra, extra_key(last), m, key);
            }
        }
        assert forall|i: int| 0 <= i < n implies #[trigger] earlier[i] == limits[i] by {}
    }
}

/// The last token limit with this unit and number, if there is one.
pub open spec fn last_token_limit(limits: Seq<Json>, unit: i64, number: i64) -> Option<Json>
    decreases limits.len(),
{
    if limits.len() == 0 {
        None
    } else if is_token_limit(limits.last(), unit, number) {
        Some(limits.last())
    } else {
        last_token_limit(limits.drop_last(), unit, number)
    }
}

/// The metric of an optional limit.
pub open spec fn metric_of_limit(limit: Option<Json>) -> Option<MetricView> {
    match limit {
        Some(l) => decoded_metric(l),
        None => None,
    }
}

/// The 5-hour token limit becomes `five_hour` and the weekly one `seven_day`,
/// the last of its kind counting; no other limit touches them; and they are the
/// only named metrics of z.ai.
pub proof fn law_token_limits_are_named(plan: Seq<char>, limits: Seq<Json>)
    ensures
        with_limits(plan, limits).five_hour == metric_of_limit(last_token_limit(limits, 3, 5)),
        with_limits(plan, limits).seven_day == metric_of_limit(last_token_limit(limits, 6, 1)),
        with_limits(plan, limits).seven_day_sonnet is None,
        with_limits(plan, limits).seven_day_opus is None,
        with_limits(plan, limits).seven_day_oauth_apps is None,
        with_limits(plan, limits).rate_limit_tier is None,
        with_limits(plan, limits).subscription_type == Some(plan),
    decreases limits.len(),
{
    if limits.len() > 0 {
        law_token_limits_are_named(plan, limits.drop_last());
    }
}

/// Whether a limit has a field of its own.
pub open spec fn is_named(limit: Json) -> bool {
    is_token_limit(limit, 3, 5) || is_token_limit(limit, 6, 1)
}

/// A limit without a percentage contributes no metric.
pub proof fn law_limit_without_percentage_is_skipped(usage: UsageView, limit: Json)
    requires
        limit.member_double("percentage"@) is None,
    ensures
        with_limit(usage, limit).extra == usage.extra,
        !is_named(limit) ==> with_limit(usage, limit) == usage,
        is_token_limit(limit, 3, 5) ==> with_limit(usage, limit).five_hour is None,
        is_token_limit(limit, 6, 1) ==> with_limit(usage, limit).seven_day is None,
{
}

/// Any other limit with a percentage is kept, under the key that its kind, unit
/// and number give: the built-in tools quota under "tools_5h".
pub proof fn law_other_limits_are_kept(usage: UsageView, limit: Json)
    requires
        distinct_keys(usage.extra),
        !is_named(limit),
    ensures
        decoded_metric(limit) matches Some(m) ==> lookup(
            with_limit(usage, limit).extra,
            extra_key(limit),
        ) == Some(m),
        limit_kind(limit) == "TIME_LIMIT"@ ==> extra_key(limit) == "tools_5h"@,
{
    if let Some(m) = decoded_metric(limit) {
        law_put(usage.extra, extra_key(limit), m, extra_key(limit));
    }
}

/// Whether a key is one that a limit without a field of its own can have.
pub open spec fn is_extra_key(key: Seq<char>) -> bool {
    key == "tools_5h"@ || begins_with(key, "zai_"@)
}

/// The keys of a decoded report are distinct, so that no metric is recorded or
/// shown twice: the keys of other limits differ from one another and from those
/// of the named metrics.
pub proof fn law_keys_are_distinct(plan: Seq<char>, limits: Seq<Json>)
    ensures
        distinct_keys(with_limits(plan, limits).rows()),
{
    lemma_extra_keys(plan, limits);
    law_token_limits_are_named(plan, limits);
    reveal_strlit("five_hour");
    reveal_strlit("seven_day");
    reveal_strlit("tools_5h");
    reveal_strlit("zai_");
    let usage = with_limits(plan, limits);
    let rows = usage.rows();
    let five = named_row("five_hour"@, usage.five_hour);
    let week = named_row("seven_day"@, usage.seven_day);
    let named = five + week;
    assert(rows =~= named + usage.extra);
    assert forall|i: int| 0 <= i < usage.extra.len() implies (#[trigger] usage.extra[i]).0
        != "five_hour"@ && usage.extra[i].0 != "seven_day"@ by {
        let key = usage.extra[i].0;
        assert(is_extra_key(key));
        if begins_with(key, "zai_"@) {
            assert(key.subrange(0, 4)[0] == key[0]);
        }
    }
    assert("five_hour"@[0] != "seven_day"@[0]);
    assert forall|i: int, j: int| 0 <= i < j < rows.len() implies #[trigger] rows[i].0
        != #[trigger] rows[j].0 by {
        if i >= named.len() {
            assert(rows[i] == usage.extra[i - named.len()]);
            assert(rows[j] == usage.extra[j - named.len()]);
        } else if j >= named.len() {
            assert(rows[j] == usage.extra[j - named.len()]);
        }
    }
}

proof fn lemma_extra_keys(plan: Seq<char>, limits: Seq<Json>)
    ensures
        distinct_keys(with_limits(plan, limits).extra),
        forall|i: int|
            0 <= i < with_limits(plan, limits).extra.len() ==> is_extra_key(
                (#[trigger] with_limits(plan, limits).extra[i]).0,
            ),
    decreases limits.len(),
{
    if limits.len() > 0 {
        let before = with_limits(plan, limits.drop_last());
        let limit = limits.last();
        lemma_extra_keys(plan, limits.drop_last());
        if !is_named(limit) {
            if let Some(m) = decoded_metric(limit) {
                let key = extra_key(limit);
                law_put(before.extra, key, m, key);
                if limit_kind(limit) != "TIME_LIMIT"@ {
                    assert(key.subrange(0, "zai_"@.len() as int) =~= "zai_"@);
                }
                let after = with_limits(plan, limits).extra;
                assert(after == put(before.extra, key, m));
                assert forall|i: int| 0 <= i < after.len() implies is_extra_key(
                    (#[trigger] after[i]).0,
                ) by {
                    if i < before.extra.len() && i != position(before.extra, key) {
                        assert(after[i] == before.extra[i]);
                    }
                }
            }
        }
    }
}

/// Where the metric of a limit goes.
pub ghost enum Slot {
    FiveHour,
    SevenDay,
    /// The extra metric under this key.
    Extra(Seq<char>),
}

/// Where the metric of this limit goes.
pub open spec fn slot(limit: Json) -> Slot {
    if is_token_limit(limit, 3, 5) {
        Slot::FiveHour
    } else if is_token_limit(limit, 6, 1) {
        Slot::SevenDay
    } else {
        Slot::Extra(extra_key(limit))
    }
}

/// What a report holds in a slot.
pub open spec fn held(usage: UsageView, at: Slot) -> Option<MetricView> {
    match at {
        Slot::FiveHour => usage.five_hour,
        Slot::SevenDay => usage.seven_day,
        Slot::Extra(key) => lookup(usage.extra, key),
    }
}

/// Whether two limits go to one slot and at least one metric is at stake: for
/// a named metric that of either, as a limit without a percentage clears it.
pub open spec fn compete(a: Json, b: Json) -> bool {
    slot(a) == slot(b) && if is_named(a) {
        decoded_metric(a) is Some || decoded_metric(b) is Some
    } else {
        decoded_metric(a) is Some && decoded_metric(b) is Some
    }
}

/// Whether no two limits of a list compete.
pub open spec fn undisputed(limits: Seq<Json>) -> bool {
    forall|i: int, j: int|
        0 <= i < j < limits.len() ==> !#[trigger] compete(limits[i], limits[j])
}

/// Whether two lists hold the same limits, but for their order and for limits
/// without a percentage.
pub open spec fn same_limits(a: Seq<Json>, b: Seq<Json>) -> bool {
    forall|limit: Json|
        #![trigger a.contains(limit)]
        #![trigger b.contains(limit)]
        decoded_metric(limit) is Some ==> (a.contains(limit) <==> b.contains(limit))
}

/// Whether two reports say the same: the extra metrics are compared by their keys.
pub open spec fn same_report(a: UsageView, b: UsageView) -> bool {
    &&& a == (UsageView { extra: a.extra, ..b })
    &&& forall|key: Seq<char>| #[trigger] lookup(a.extra, key) == lookup(b.extra, key)
}

/// Neither the order of the limits nor limits without a percentage change the
/// report, where no two limits compete for a slot.
pub proof fn law_order_of_limits_does_not_matter(plan: Seq<char>, a: Seq<Json>, b: Seq<Json>)
    requires
        undisputed(a),
        undisputed(b),
        same_limits(a, b),
    ensures
        same_report(with_limits(plan, a), with_limits(plan, b)),
{
    law_token_limits_are_named(plan, a);
    law_token_limits_are_named(plan, b);
    lemma_same_slot(plan, a, b, Slot::FiveHour);
    lemma_same_slot(plan, a, b, Slot::SevenDay);
    assert forall|key: Seq<char>| #[trigger]
        lookup(with_limits(plan, a).extra, key) == lookup(with_limits(plan, b).extra, key) by {
        lemma_same_slot(plan, a, b, Slot::Extra(key));
    }
}

/// The same of whole envelopes: two that differ in the order of their limits or
/// in limits without a percentage decode to the same report, or fail alike.
pub proof fn law_order_of_limits_does_not_matter_in_envelopes(a: Json, b: Json)
    requires
        a.member_truth("success"@) == b.member_truth("success"@),
        a.member_whole("code"@) == b.member_whole("code"@),
        a.member_text("msg"@) == b.member_text("msg"@),
        match (a.member("data"@), b.member("data"@)) {
            (Some(x), Some(y)) => {
                &&& x.member_text("level"@) == y.member_text("level"@)
                &&& undisputed(limits_of(x))
                &&& undisputed(limits_of(y))
                &&& same_limits(limits_of(x), limits_of(y))
            },
            (None, None) => true,
            _ => false,
        },
    ensures
        match (quota(a), quota(b)) {
            (Ok(u), Ok(v)) => same_report(u, v),
            (Err(e), Err(f)) => e == f,
            _ => false,
        },
{
    if let (Some(x), Some(y)) = (a.member("data"@), b.member("data"@)) {
        law_order_of_limits_does_not_matter(plan_label(x), limits_of(x), limits_of(y));
    }
}

/// What a report holds in a slot is the metric of the limit that goes there.
proof fn lemma_held(plan: Seq<char>, limits: Seq<Json>, at: Slot)
    requires
        undisputed(limits),
    ensures
        forall|i: int|
            0 <= i < limits.len() && slot(#[trigger] limits[i]) == at && decoded_metric(
                limits[i],
            ) is Some ==> held(with_limits(plan, limits), at) == decoded_metric(limits[i]),
        held(with_limits(plan, limits), at) is Some ==> exists|i: int|
            0 <= i < limits.len() && slot(#[trigger] limits[i]) == at && decoded_metric(limits[i])
                == held(with_limits(plan, limits), at),
    decreases limits.len(),
{
    if limits.len() > 0 {
        let earlier = limits.drop_last();
        let last = limits.last();
        let n = limits.len() - 1;
        assert(undisputed(earlier)) by {
            assert forall|i: int, j: int| 0 <= i < j < earlier.len() implies !#[trigger] compete(
                earlier[i],
                earlier[j],
            ) by {
                assert(!compete(limits[i], limits[j]));
            }
        }
        lemma_held(plan, earlier, at);
        lemma_extra_keys(plan, earlier);
        let before = with_limits(plan, earlier);
        let after = with_limits(plan, limits);
        if !is_named(last) {
            if let (Some(m), Slot::Extra(key)) = (decoded_metric(last), at) {
                law_put(before.extra, extra_key(last), m, key);
            }
        }
        if slot(last) == at && (is_named(last) || decoded_metric(last) is Some) {
            assert(held(after, at) == decoded_metric(last));
            assert forall|i: int|
                0 <= i < limits.len() && slot(#[trigger] limits[i]) == at && decoded_metric(
                    limits[i],
                ) is Some implies held(after, at) == decoded_metric(limits[i]) by {
                if i < n {
                    assert(!compete(limits[i], limits[n]));
                }
            }
            assert(limits[n] == last);
        } else {
            assert(held(after, at) == held(before, at));
            assert forall|i: int|
                0 <= i < limits.len() && slot(#[trigger] limits[i]) == at && decoded_metric(
                    limits[i],
                ) is Some implies held(after, at) == decoded_metric(limits[i]) by {
                assert(limits[i] == earlier[i]);
            }
            if held(before, at) is Some {
                let i = choose|i: int|
                    0 <= i < earlier.len() && slot(#[trigger] earlier[i]) == at && decoded_metric(
                        earlier[i],
                    ) == held(before, at);
                assert(limits[i] == earlier[i]);
            }
        }
    }
}

/// Two reports of the same limits hold the same in a slot.
proof fn lemma_same_slot(plan: Seq<char>, a: Seq<Json>, b: Seq<Json>, at: Slot)
    requires
        undisputed(a),
        undisputed(b),
        same_limits(a, b),
    ensures
        held(with_limits(plan, a), at) == held(with_limits(plan, b), at),
{
    lemma_held(plan, a, at);
    lemma_held(plan, b, at);
    let u = held(with_limits(plan, a), at);
    let v = held(with_limits(plan, b), at);
    if u is Some {
        let i = choose|i: int|
            0 <= i < a.len() && slot(#[trigger] a[i]) == at && decoded_metric(a[i]) == u;
        assert(a.contains(a[i]));
        assert(b.contains(a[i]));
    }
    if v is Some {
        let i = choose|i: int|
            0 <= i < b.len() && slot(#[trigger] b[i]) == at && decoded_metric(b[i]) == v;
        assert(b.contains(b[i]));
        assert(a.contains(b[i]));
    }
}

/// What an envelope decodes to, by its members: it is accepted iff it reports
/// success or the code 200, and carries data; the plan label is its level after
/// "GLM ", or "plan" without one; and a rejected one says code and message.
pub proof fn law_members_decide(envelope: Json)
    ensures
        quota(envelope) is Ok <==> (envelope.member_truth("success"@) == Some(true)
            || envelope.member_whole("code"@) == Some(200i64)) && envelope.member("data"@) is Some,
        quota(envelope) matches Ok(usage) ==> {
            let data = envelope.member("data"@)->0;
            &&& data.member_text("level"@) matches Some(level) ==> usage.subscription_type == Some(
                "GLM "@ + title_cased(level),
            )
            &&& data.member_text("level"@) is None ==> usage.subscription_type == Some(
                "GLM "@ + title_cased("plan"@),
            )
            &&& data.member("limits"@) matches Some(Json::Array(limits)) ==> usage == with_limits(
                usage.subscription_type->0,
                limits@,
            )
            &&& !(data.member("limits"@) is Some && data.member("limits"@)->0 is Array) ==> {
                &&& usage.five_hour is None && usage.seven_day is None
                &&& usage.extra.len() == 0
            }
        },
        quota(envelope) matches Err(message) ==> {
            &&& (envelope.member_truth("success"@) == Some(true) || envelope.member_whole("code"@)
                == Some(200i64)) ==> message == "[api_error] z.ai response missing data"@
            &&& envelope.member_truth("success"@) != Some(true) && envelope.member_whole("code"@)
                != Some(200i64) ==> message == "[api_error] z.ai reported failure (code "@
                + signed_decimal(
                match envelope.member_whole("code"@) {
                    Some(code) => code as int,
                    None => 0,
                },
            ) + "): "@ + match envelope.member_text("msg"@) {
                Some(msg) => msg,
                None => "unknown error"@,
            }
        },
{
    if envelope.member("data"@) is Some {
        let data = envelope.member("data"@)->0;
        law_token_limits_are_named(plan_label(data), limits_of(data));
    }
}

/// A failed envelope is rejected whatever data it carries, a successful one with
/// data is always accepted, and one without data never.
pub proof fn law_envelope_decides(envelope: Json)
    ensures
        quota(envelope) is Ok <==> !failed(envelope) && envelope.member("data"@) is Some,
        failed(envelope) ==> quota(envelope) == Err::<UsageView, Seq<char>>(
            failure_message(envelope),
        ),
{
}

} // verus!
