//! The status that the menu bar shows.

use vstd::prelude::*;
use vstd::string::StringExecFns;

use crate::agent::{notification_of, Notification, NotificationView};
use crate::celebration::{celebrate_of, Celebrate, CelebrateView};
use crate::chart::{chart_resets, reset_points, session_start, values};
use crate::clock::{
    are_stamps, local_stamps, rfc3339_instant, seconds_until, valid_instant, whole_seconds,
};
use crate::double::{clamped, law_clamped_whole_is_nearest, one, whole, Double};
use crate::providers::Provider;
use crate::text::{append_decimal, decimal, lowercase};
use crate::tier::{build_tier_note, multiplier, tier_note};
use crate::usage::{
    format_metric_name, law_metric_name, law_peak_is_the_largest, law_rows_hold_every_metric,
    metric_name, named_count, peak, rows_of, text_of, Rows, UsageResponse, UsageView,
};

verus! {

/// One limit of the breakdown.
#[derive(Debug)]
pub struct MetricEntry {
    /// The key, e.g. "five_hour".
    pub key: String,
    /// The human-readable name, e.g. "Weekly (7-day)".
    pub name: String,
    pub percent: u32,
    pub resets_at: Option<String>,
}

/// An entry by its contents.
pub ghost struct EntryView {
    pub key: Seq<char>,
    pub name: Seq<char>,
    pub percent: u32,
    pub resets_at: Option<Seq<char>>,
}

impl View for MetricEntry {
    type V = EntryView;

    open spec fn view(&self) -> EntryView {
        EntryView {
            key: self.key@,
            name: self.name@,
            percent: self.percent,
            resets_at: text_of(self.resets_at),
        }
    }
}

/// The status of the menu bar.
#[derive(Debug)]
pub struct MacStatus {
    pub state: String,
    pub title: String,
    pub detail: String,
    pub plan: Option<String>,
    pub percent: Option<u32>,
    /// Per-limit breakdown. Empty until the first fetch.
    pub metrics: Vec<MetricEntry>,
    /// Downgrade comparison, e.g. "On Max 5x: weekly ~96%, session ~124%".
    pub tier_note: Option<String>,
    pub last_api_update: Option<String>,
    pub data_age_seconds: Option<u64>,
    pub error: Option<String>,
    /// 24h usage history of the 5-hour limit, oldest first, in whole percent.
    pub chart: Vec<u32>,
    /// Past 5-hour session reset points, in hours ago.
    pub chart_resets: Vec<Double>,
    /// Set while a free-flush party is live.
    pub celebrate: Option<Celebrate>,
}

/// A status by its contents.
#[verifier::ext_equal]
pub ghost struct StatusView {
    pub state: Seq<char>,
    pub title: Seq<char>,
    pub detail: Seq<char>,
    pub plan: Option<Seq<char>>,
    pub percent: Option<u32>,
    pub metrics: Seq<EntryView>,
    pub tier_note: Option<Seq<char>>,
    pub last_api_update: Option<Seq<char>>,
    pub data_age_seconds: Option<u64>,
    pub error: Option<Seq<char>>,
    pub chart: Seq<u32>,
    pub chart_resets: Seq<int>,
    pub celebrate: Option<CelebrateView>,
}

/// The contents of a list of entries.
pub open spec fn entries_of(entries: Seq<MetricEntry>) -> Seq<EntryView> {
    entries.map_values(|e: MetricEntry| e@)
}

impl View for MacStatus {
    type V = StatusView;

    open spec fn view(&self) -> StatusView {
        StatusView {
            state: self.state@,
            title: self.title@,
            detail: self.detail@,
            plan: text_of(self.plan),
            percent: self.percent,
            metrics: entries_of(self.metrics@),
            tier_note: text_of(self.tier_note),
            last_api_update: text_of(self.last_api_update),
            data_age_seconds: self.data_age_seconds,
            error: text_of(self.error),
            chart: self.chart@,
            chart_resets: values(self.chart_resets@),
            celebrate: celebrate_of(self.celebrate),
        }
    }
}

/// A status without data.
pub open spec fn blank(
    state: Seq<char>,
    title: Seq<char>,
    detail: Seq<char>,
    error: Option<Seq<char>>,
) -> StatusView {
    StatusView {
        state,
        title,
        detail,
        plan: None,
        percent: None,
        metrics: Seq::empty(),
        tier_note: None,
        last_api_update: None,
        data_age_seconds: None,
        error,
        chart: Seq::empty(),
        chart_resets: Seq::empty(),
        celebrate: None,
    }
}

/// The placeholder of the very first refresh.
pub open spec fn refreshing_status() -> StatusView {
    blank("refreshing"@, "Refreshing..."@, "Requesting fresh usage data"@, None)
}

/// The status of a failure without data.
pub open spec fn error_status(message: Seq<char>) -> StatusView {
    blank("error"@, "API error"@, message, Some(message))
}

impl MacStatus {
    /// A status without data.
    fn without_data(state: &str, title: &str, detail: String, error: Option<String>) -> (r:
        MacStatus)
        ensures
            r@ == blank(state@, title@, detail@, text_of(error)),
            r.state@ == state@ && r.title@ == title@ && r.detail == detail && r.error == error,
            r.percent is None && r.plan is None && r.tier_note is None,
            r.last_api_update is None && r.data_age_seconds is None && r.celebrate is None,
            r.metrics@.len() == 0 && r.chart@.len() == 0 && r.chart_resets@.len() == 0,
    {
        let r = MacStatus {
            state: state.to_owned(),
            title: title.to_owned(),
            detail,
            plan: None,
            percent: None,
            metrics: Vec::new(),
            tier_note: None,
            last_api_update: None,
            data_age_seconds: None,
            error,
            chart: Vec::new(),
            chart_resets: Vec::new(),
            celebrate: None,
        };
        assert(r@ =~= blank(state@, title@, detail@, text_of(error)));
        r
    }

    /// The placeholder of the very first refresh.
    pub fn refreshing() -> (r: MacStatus)
        ensures
            r@ == refreshing_status(),
            r.state@ == "refreshing"@ && r.title@ == "Refreshing..."@,
            r.detail@ == "Requesting fresh usage data"@,
            r.percent is None && r.plan is None && r.error is None && r.tier_note is None,
            r.last_api_update is None && r.data_age_seconds is None && r.celebrate is None,
            r.metrics@.len() == 0 && r.chart@.len() == 0 && r.chart_resets@.len() == 0,
    {
        MacStatus::without_data(
            "refreshing",
            "Refreshing...",
            "Requesting fresh usage data".to_owned(),
            None,
        )
    }

    /// The status of a failure without data.
    pub fn error(message: String) -> (r: MacStatus)
        ensures
            r@ == error_status(message@),
            r.state@ == "error"@ && r.title@ == "API error"@ && r.detail@ == message@,
            r.error is Some && r.error->0@ == message@,
            r.percent is None && r.plan is None && r.tier_note is None,
            r.last_api_update is None && r.data_age_seconds is None && r.celebrate is None,
            r.metrics@.len() == 0 && r.chart@.len() == 0 && r.chart_resets@.len() == 0,
    {
        let detail = message.clone();
        MacStatus::without_data("error", "API error", detail, Some(message))
    }
}

/// The status at the beginning of a refresh.
pub open spec fn refresh_begun(prev: Option<StatusView>) -> StatusView {
    match prev {
        Some(p) if p.percent is Some => StatusView { error: None, ..p },
        _ => refreshing_status(),
    }
}

/// The status after a failed fetch.
pub open spec fn fetch_failed(prev: Option<StatusView>, message: Seq<char>) -> StatusView {
    match prev {
        Some(p) if p.percent is Some => StatusView { error: Some(message), ..p },
        _ => error_status(message),
    }
}

/// The contents of an optional status.
pub open spec fn status_of(s: Option<MacStatus>) -> Option<StatusView> {
    match s {
        Some(status) => Some(status@),
        None => None,
    }
}

/// Begins a refresh without blanking the menu. If a prior good reading exists,
/// its numbers stay on screen and any stale error is cleared; the placeholder is
/// shown only on the very first run, when there is no data yet.
pub fn mark_refreshing(prev: Option<MacStatus>) -> (r: MacStatus)
    ensures
        r@ == refresh_begun(status_of(prev)),
        prev matches Some(p) && p.percent is Some ==> r == (MacStatus { error: None, ..prev->0 }),
        prev is None || prev->0.percent is None ==> r.state@ == "refreshing"@ && r.percent is None
            && r.metrics@.len() == 0 && r.error is None,
{
    if let Some(p) = prev {
        if p.percent.is_some() {
            let mut kept = p;
            kept.error = None;
            return kept;
        }
    }
    MacStatus::refreshing()
}

/// Records a fetch failure without discarding the last good reading. If a prior
/// live status exists, its data and metrics are kept and the error is attached;
/// it is blanked only when there is no prior data to show.
pub fn write_error(prev: Option<MacStatus>, message: String) -> (r: MacStatus)
    ensures
        r@ == fetch_failed(status_of(prev), message@),
        r.error is Some && r.error->0@ == message@,
        prev matches Some(p) && p.percent is Some ==> r == (MacStatus {
            error: Some(message),
            ..prev->0
        }),
        prev is None || prev->0.percent is None ==> r.state@ == "error"@ && r.detail@ == message@
            && r.percent is None && r.metrics@.len() == 0,
{
    if let Some(p) = prev {
        if p.percent.is_some() {
            let mut kept = p;
            kept.error = Some(message);
            return kept;
        }
    }
    MacStatus::error(message)
}

/// No number of failures and refreshes changes what is shown of the last good
/// reading: a failure only attaches its error, the next refresh only takes it
/// away, and a later failure replaces it.
pub proof fn law_last_reading_survives(prev: StatusView, first: Seq<char>, second: Seq<char>)
    requires
        prev.percent is Some,
    ensures
        refresh_begun(Some(fetch_failed(Some(prev), first))) == (StatusView {
            error: None,
            ..prev
        }),
        fetch_failed(Some(refresh_begun(Some(prev))), second) == (StatusView {
            error: Some(second),
            ..prev
        }),
        fetch_failed(Some(fetch_failed(Some(prev), first)), second) == fetch_failed(
            Some(prev),
            second,
        ),
{
}

/// Without a good reading there is nothing to keep: failures and refreshes show
/// their own placeholder, whatever was there.
pub proof fn law_nothing_to_keep(prev: Option<StatusView>, message: Seq<char>)
    requires
        prev matches Some(p) ==> p.percent is None,
    ensures
        refresh_begun(prev) == refreshing_status(),
        fetch_failed(prev, message) == error_status(message),
        refresh_begun(Some(fetch_failed(prev, message))) == refreshing_status(),
{
}

/// A utilization in whole percent.
pub open spec fn percent_of(utilization: int) -> u32 {
    clamped(whole(utilization), 0, u32::MAX as int) as u32
}

/// The breakdown of the reported metrics.
pub open spec fn breakdown(rows: Rows) -> Seq<EntryView> {
    rows.map_values(
        |row: (Seq<char>, crate::usage::MetricView)|
            EntryView {
                key: row.0,
                name: metric_name(row.0),
                percent: percent_of(row.1.utilization@),
                resets_at: row.1.resets_at,
            },
    )
}

/// The plan label shown. A configured label is a tier of the subscription
/// backend; for z.ai the reported level is shown.
pub open spec fn shown_plan(
    usage: UsageView,
    plan_override: Option<Seq<char>>,
    provider: Provider,
) -> Seq<char> {
    match (provider, plan_override) {
        (Provider::Claude(_), Some(label)) => label,
        _ => usage.plan(),
    }
}

/// The downgrade comparison shown: only for the subscription backend, and only
/// for a configured plan.
pub open spec fn shown_note(
    usage: UsageView,
    plan_override: Option<Seq<char>>,
    provider: Provider,
) -> Option<Seq<char>> {
    match (provider, plan_override) {
        (Provider::Claude(_), Some(label)) => tier_note(multiplier(lowercase(label)), usage),
        _ => None,
    }
}

/// The one-line summary of a poll.
pub open spec fn summary(plan: Seq<char>, percent: u32) -> Seq<char> {
    plan + ": "@ + decimal(percent as nat) + "% max usage"@
}

/// The text of an optional borrowed string.
pub open spec fn borrowed_text(s: Option<&str>) -> Option<Seq<char>> {
    match s {
        Some(t) => Some(t@),
        None => None,
    }
}

/// The reset points to draw, when the 5-hour session resets in so many seconds.
pub open spec fn shown_resets(seconds_until_reset: Option<i64>) -> Seq<int> {
    match seconds_until_reset {
        Some(seconds) => reset_points(session_start(seconds as int)),
        None => Seq::empty(),
    }
}

/// The status of a successful poll.
pub open spec fn live(
    usage: UsageView,
    plan_override: Option<Seq<char>>,
    provider: Provider,
    celebrate: Option<CelebrateView>,
    slots: Seq<Double>,
    seconds_until_reset: Option<i64>,
    now: Seq<char>,
) -> StatusView {
    let percent = percent_of(peak(usage.rows()));
    let plan = shown_plan(usage, plan_override, provider);
    StatusView {
        state: "live"@,
        title: decimal(percent as nat) + "%"@,
        detail: summary(plan, percent),
        plan: Some(plan),
        percent: Some(percent),
        metrics: breakdown(usage.rows()),
        tier_note: shown_note(usage, plan_override, provider),
        last_api_update: Some(now),
        data_age_seconds: Some(0),
        error: None,
        chart: slots.map_values(|d: Double| percent_of(d@)),
        chart_resets: shown_resets(seconds_until_reset),
        celebrate,
    }
}

/// The breakdown of the reported metrics.
fn entries(usage: &UsageResponse) -> (r: Vec<MetricEntry>)
    ensures
        entries_of(r@) == breakdown(usage@.rows()),
{
    let metrics = usage.all_metrics();
    let mut r: Vec<MetricEntry> = Vec::new();
    let mut i: usize = 0;
    let ghost rows = usage@.rows();
    while i < metrics.len()
        invariant
            rows == usage@.rows(),
            rows == rows_of(metrics@),
            i <= metrics@.len(),
            entries_of(r@) =~= breakdown(rows).take(i as int),
        decreases metrics@.len() - i,
    {
        let m = &metrics[i];
        let entry = MetricEntry {
            key: m.0.clone(),
            name: format_metric_name(m.0.as_str()),
            percent: m.1.utilization.to_percent(),
            resets_at: crate::usage::copy_text(&m.1.resets_at),
        };
        let ghost before = entries_of(r@);
        assert(rows[i as int] == (m.0@, m.1@));
        assert(entry@ == breakdown(rows)[i as int]);
        r.push(entry);
        assert(entries_of(r@) =~= before.push(breakdown(rows)[i as int]));
        i = i + 1;
    }
    assert(breakdown(rows).take(rows.len() as int) =~= breakdown(rows));
    r
}

/// History slots in whole percent.
fn percents(slots: &Vec<Double>) -> (r: Vec<u32>)
    ensures
        r@ == slots@.map_values(|d: Double| percent_of(d@)),
{
    let mut r: Vec<u32> = Vec::new();
    let mut i: usize = 0;
    while i < slots.len()
        invariant
            i <= slots@.len(),
            r@.len() == i,
            forall|j: int| 0 <= j < i ==> r@[j] == percent_of((#[trigger] slots@[j])@),
        decreases slots@.len() - i,
    {
        r.push(slots[i].to_percent());
        i = i + 1;
    }
    assert(r@ =~= slots@.map_values(|d: Double| percent_of(d@)));
    r
}

/// The status of a successful poll at the time `now`, when the 5-hour session
/// resets in so many seconds. `slots` is the history of the chart.
pub fn live_status(
    usage: &UsageResponse,
    plan_override: Option<&str>,
    provider: &Provider,
    celebrate: Option<Celebrate>,
    slots: &Vec<Double>,
    seconds_until_reset: Option<i64>,
    now: String,
) -> (r: MacStatus)
    ensures
        r@ == live(
            usage@,
            borrowed_text(plan_override),
            *provider,
            celebrate_of(celebrate),
            slots@,
            seconds_until_reset,
            now@,
        ),
        // The number shown is the largest of the breakdown.
        r.percent is Some,
        forall|i: int|
            0 <= i < r.metrics@.len() ==> (#[trigger] r.metrics@[i]).percent <= r.percent->0,
        r.metrics@.len() > 0 ==> exists|i: int|
            0 <= i < r.metrics@.len() && (#[trigger] r.metrics@[i]).percent == r.percent->0,
        r.metrics@.len() == 0 ==> r.percent == Some(0u32),
        r.plan is Some,
        r.title@ == decimal(r.percent->0 as nat) + "%"@,
        r.detail@ == r.plan->0@ + ": "@ + decimal(r.percent->0 as nat) + "% max usage"@,
        // The breakdown holds every reported metric.
        r.metrics@.len() == usage@.rows().len(),
        forall|i: int|
            0 <= i < r.metrics@.len() ==> {
                &&& (#[trigger] r.metrics@[i]).key@ == usage@.rows()[i].0
                &&& r.metrics@[i].name@ == metric_name(usage@.rows()[i].0)
                &&& text_of(r.metrics@[i].resets_at) == usage@.rows()[i].1.resets_at
                &&& shows(r.metrics@[i].percent, usage@.rows()[i].1.utilization@)
            },
        // The chart holds every slot.
        r.chart@.len() == slots@.len(),
        forall|i: int| 0 <= i < slots@.len() ==> shows(#[trigger] r.chart@[i], slots@[i]@),
        seconds_until_reset is None ==> r.chart_resets@.len() == 0,
        seconds_until_reset matches Some(seconds) ==> values(r.chart_resets@) == reset_points(
            session_start(seconds as int),
        ),
        r.state@ == "live"@ && r.error is None && r.data_age_seconds == Some(0u64),
        r.last_api_update == Some(now),
        r.celebrate == celebrate,
        *provider is Zai || plan_override is None ==> r.tier_note is None && r.plan->0@
            == usage@.plan(),
        *provider is Claude && plan_override is Some ==> r.plan->0@ == plan_override->0@ && text_of(
            r.tier_note,
        ) == tier_note(multiplier(lowercase(plan_override->0@)), usage@),
{
    let percent = match usage.max_utilization() {
        Some(top) => top.to_percent(),
        None => {
            proof {
                lemma_zero_percent();
            }
            0
        },
    };
    let (plan, note): (String, Option<String>) = match (provider, plan_override) {
        (Provider::Claude(_), Some(label)) => (label.to_owned(), build_tier_note(label, usage)),
        _ => (usage.detected_plan(), None),
    };
    let mut title = String::new();
    append_decimal(&mut title, percent as u64);
    title.append("%");
    let mut detail = plan.clone();
    detail.append(": ");
    append_decimal(&mut detail, percent as u64);
    detail.append("% max usage");
    let resets = match seconds_until_reset {
        Some(seconds) => chart_resets(seconds),
        None => Vec::new(),
    };
    let r = MacStatus {
        state: "live".to_owned(),
        title,
        detail,
        plan: Some(plan),
        percent: Some(percent),
        metrics: entries(usage),
        tier_note: note,
        last_api_update: Some(now),
        data_age_seconds: Some(0),
        error: None,
        chart: percents(slots),
        chart_resets: resets,
        celebrate,
    };
    proof {
        assert(r@.title =~= decimal(percent as nat) + "%"@);
        assert(r@.chart_resets =~= shown_resets(seconds_until_reset));
        assert(r@ =~= live(
            usage@,
            borrowed_text(plan_override),
            *provider,
            celebrate_of(celebrate),
            slots@,
            seconds_until_reset,
            now@,
        ));
        let shown = r@;
        law_title_is_the_largest_limit(
            usage@,
            borrowed_text(plan_override),
            *provider,
            celebrate_of(celebrate),
            slots@,
            seconds_until_reset,
            now@,
        );
        law_breakdown_and_chart(
            usage@,
            borrowed_text(plan_override),
            *provider,
            celebrate_of(celebrate),
            slots@,
            seconds_until_reset,
            now@,
        );
        assert forall|i: int| 0 <= i < r.metrics@.len() implies (#[trigger] r.metrics@[i])@
            == shown.metrics[i] by {}
        if r.metrics@.len() > 0 {
            let i = choose|i: int|
                0 <= i < shown.metrics.len() && (#[trigger] shown.metrics[i]).percent
                    == shown.percent->0;
            assert(r.metrics@[i].percent == r.percent->0);
        }
    }
    r
}

/// Whether a whole percentage shows a utilization: it is the nearest one, a half
/// going up, and only at zero and at the largest one does it differ by more.
pub open spec fn shows(percent: u32, utilization: int) -> bool {
    &&& percent > 0 ==> (2 * percent - 1) * one() <= 2 * utilization
    &&& percent < u32::MAX ==> 2 * utilization < (2 * percent + 1) * one()
}

/// Every utilization is shown by one whole percentage, and a larger one by no
/// smaller one.
pub proof fn law_percent_is_nearest(utilization: int, larger: int)
    requires
        utilization <= larger,
    ensures
        shows(percent_of(utilization), utilization),
        forall|p: u32| #[trigger] shows(p, utilization) ==> p == percent_of(utilization),
        percent_of(utilization) <= percent_of(larger),
{
    vstd::arithmetic::power2::lemma_pow2_pos(1074);
    law_clamped_whole_is_nearest(utilization, 0, u32::MAX as int);
    law_clamped_whole_is_nearest(larger, 0, u32::MAX as int);
    lemma_shown_once(percent_of(utilization), percent_of(larger), utilization, larger);
    assert forall|p: u32| #[trigger] shows(p, utilization) implies p == percent_of(
        utilization,
    ) by {
        lemma_shown_once(p, percent_of(utilization), utilization, utilization);
        lemma_shown_once(percent_of(utilization), p, utilization, utilization);
    }
}

proof fn lemma_shown_once(p: u32, q: u32, a: int, b: int)
    requires
        a <= b,
        shows(p, a),
        shows(q, b),
    ensures
        p <= q,
{
    if p > q {
        let s = one();
        assert(false) by (nonlinear_arith)
            requires
                (2 * p - 1) * s < (2 * q + 1) * s,
                p > q,
                s >= 0,
        ;
    }
}

/// The title shows the largest limit: its number is that of an entry of the
/// breakdown, none of which is larger, and zero where there is none; title and
/// detail hold that number.
pub proof fn law_title_is_the_largest_limit(
    usage: UsageView,
    plan_override: Option<Seq<char>>,
    provider: Provider,
    celebrate: Option<CelebrateView>,
    slots: Seq<Double>,
    seconds_until_reset: Option<i64>,
    now: Seq<char>,
)
    ensures
        ({
            let shown = live(
                usage,
                plan_override,
                provider,
                celebrate,
                slots,
                seconds_until_reset,
                now,
            );
            &&& shown.percent is Some && shown.plan is Some
            &&& forall|i: int|
                0 <= i < shown.metrics.len() ==> (#[trigger] shown.metrics[i]).percent
                    <= shown.percent->0
            &&& shown.metrics.len() > 0 ==> exists|i: int|
                0 <= i < shown.metrics.len() && (#[trigger] shown.metrics[i]).percent
                    == shown.percent->0
            &&& shown.metrics.len() == 0 ==> shown.percent == Some(0u32)
            &&& shown.title == decimal(shown.percent->0 as nat) + "%"@
            &&& shown.detail == shown.plan->0 + ": "@ + decimal(shown.percent->0 as nat)
                + "% max usage"@
        }),
{
    let shown = live(usage, plan_override, provider, celebrate, slots, seconds_until_reset, now);
    let rows = usage.rows();
    law_peak_is_the_largest(rows);
    lemma_zero_percent();
    assert forall|i: int| 0 <= i < shown.metrics.len() implies (
    #[trigger] shown.metrics[i]).percent <= shown.percent->0 by {
        law_percent_is_nearest(rows[i].1.utilization@, peak(rows));
    }
    if rows.len() > 0 {
        let i = choose|i: int|
            0 <= i < rows.len() && (#[trigger] rows[i]).1.utilization@ == peak(rows);
        assert(shown.metrics[i].percent == shown.percent->0);
    }
}

/// The breakdown holds every reported metric, the 5-hour session and the week
/// under their names, each with its reset and its percentage; and the chart holds
/// a percentage for every slot, in the order of the slots.
pub proof fn law_breakdown_and_chart(
    usage: UsageView,
    plan_override: Option<Seq<char>>,
    provider: Provider,
    celebrate: Option<CelebrateView>,
    slots: Seq<Double>,
    seconds_until_reset: Option<i64>,
    now: Seq<char>,
)
    ensures
        ({
            let shown = live(
                usage,
                plan_override,
                provider,
                celebrate,
                slots,
                seconds_until_reset,
                now,
            );
            &&& shown.chart.len() == slots.len()
            &&& forall|i: int| 0 <= i < slots.len() ==> shows(#[trigger] shown.chart[i], slots[i]@)
            &&& shown.metrics.len() == usage.rows().len()
            &&& forall|i: int|
                0 <= i < shown.metrics.len() ==> {
                    &&& (#[trigger] shown.metrics[i]).key == usage.rows()[i].0
                    &&& shown.metrics[i].name == metric_name(usage.rows()[i].0)
                    &&& shown.metrics[i].resets_at == usage.rows()[i].1.resets_at
                    &&& shows(shown.metrics[i].percent, usage.rows()[i].1.utilization@)
                }
            &&& shown.metrics.len() == named_count(usage) + usage.extra.len()
            &&& usage.five_hour matches Some(m) ==> {
                &&& shown.metrics[0].key == "five_hour"@
                &&& shown.metrics[0].name == "5-hour session"@
                &&& shown.metrics[0].resets_at == m.resets_at
                &&& shows(shown.metrics[0].percent, m.utilization@)
            }
            &&& usage.seven_day matches Some(m) ==> ({
                let at: int = if usage.five_hour is Some {
                    1
                } else {
                    0
                };
                &&& shown.metrics[at].key == "seven_day"@
                &&& shown.metrics[at].name == "Weekly (7-day)"@
                &&& shown.metrics[at].resets_at == m.resets_at
                &&& shows(shown.metrics[at].percent, m.utilization@)
            })
            &&& forall|i: int|
                0 <= i < usage.extra.len() ==> {
                    &&& shown.metrics[named_count(usage) + i].key == (#[trigger] usage.extra[i]).0
                    &&& shown.metrics[named_count(usage) + i].resets_at == usage.extra[i].1.resets_at
                    &&& shows(
                        shown.metrics[named_count(usage) + i].percent,
                        usage.extra[i].1.utilization@,
                    )
                }
        }),
{
    let shown = live(usage, plan_override, provider, celebrate, slots, seconds_until_reset, now);
    let rows = usage.rows();
    law_rows_hold_every_metric(usage);
    law_metric_name("five_hour"@);
    law_metric_name("seven_day"@);
    assert forall|i: int| 0 <= i < slots.len() implies shows(
        #[trigger] shown.chart[i],
        slots[i]@,
    ) by {
        law_percent_is_nearest(slots[i]@, slots[i]@);
    }
    assert forall|i: int| 0 <= i < shown.metrics.len() implies {
        &&& (#[trigger] shown.metrics[i]).key == rows[i].0
        &&& shown.metrics[i].name == metric_name(rows[i].0)
        &&& shown.metrics[i].resets_at == rows[i].1.resets_at
        &&& shows(shown.metrics[i].percent, rows[i].1.utilization@)
    } by {
        law_percent_is_nearest(rows[i].1.utilization@, rows[i].1.utilization@);
    }
}

/// What else a live status shows: the reported plan, or the configured one for
/// the subscription backend with its comparison; the time of the poll; the reset
/// points of the session; and the party as it was given.
pub proof fn law_live_status_shows_the_poll(
    usage: UsageView,
    plan_override: Option<Seq<char>>,
    provider: Provider,
    celebrate: Option<CelebrateView>,
    slots: Seq<Double>,
    seconds_until_reset: Option<i64>,
    now: Seq<char>,
)
    ensures
        ({
            let shown = live(
                usage,
                plan_override,
                provider,
                celebrate,
                slots,
                seconds_until_reset,
                now,
            );
            &&& shown.state == "live"@ && shown.error is None && shown.data_age_seconds == Some(
                0u64,
            )
            &&& shown.last_api_update == Some(now) && shown.celebrate == celebrate
            &&& seconds_until_reset is None ==> shown.chart_resets.len() == 0
            &&& seconds_until_reset matches Some(seconds) ==> shown.chart_resets == reset_points(
                session_start(seconds as int),
            )
            &&& provider is Zai || plan_override is None ==> {
                &&& shown.tier_note is None
                &&& usage.subscription_type matches Some(label) ==> shown.plan == Some(label)
                &&& usage.subscription_type is None ==> shown.plan == Some("Unknown"@)
            }
            &&& provider is Claude && plan_override is Some ==> {
                &&& shown.plan == plan_override
                &&& shown.tier_note == tier_note(multiplier(lowercase(plan_override->0)), usage)
            }
        }),
{
}

/// A notification goes out iff the number shown is 90 or more; it holds the
/// detail, and so does the line for the log.
pub proof fn law_high_usage_is_notified(status: StatusView, stamp: Seq<char>)
    ensures
        alarm_of(status) is Some <==> status.percent is Some && status.percent->0 >= 90,
        alarm_of(status) matches Some(alarm) ==> alarm.title == "ZaiMeter: high usage"@
            && alarm.message == status.detail,
        log_line_of(status, stamp) == "["@ + stamp + "] "@ + status.detail,
{
}

/// The reset points go by the reset of the 5-hour session and by nothing else:
/// they are counted from some instant to it, where it is a timestamp.
pub proof fn law_reset_points_go_by_the_session(usage: UsageView, seconds: Option<i64>)
    requires
        clock_gives(usage, seconds),
    ensures
        seconds is Some <==> usage.five_hour is Some && usage.five_hour->0.resets_at is Some
            && rfc3339_instant(usage.five_hour->0.resets_at->0) is Some,
        seconds is Some ==> exists|now: (i64, u32)|
            valid_instant(now) && seconds->0 == #[trigger] whole_seconds(
                rfc3339_instant(usage.five_hour->0.resets_at->0)->0,
                now,
            ),
{
}

proof fn lemma_zero_percent()
    ensures
        percent_of(0) == 0,
{
    vstd::arithmetic::power2::lemma_pow2_pos(1074);
    let s = crate::double::one() as int;
    vstd::arithmetic::div_mod::lemma_fundamental_div_mod_converse(s, 2 * s, 0, s);
}

/// A published status, and the line for the log and the notification that go with
/// it.
#[derive(Debug)]
pub struct Published {
    pub status: MacStatus,
    pub log_line: String,
    /// The summary, where usage is so high that it is notified.
    pub alarm: Option<Notification>,
}

/// The line for the log, `stamp` being the date and time in it.
pub open spec fn log_line_of(status: StatusView, stamp: Seq<char>) -> Seq<char> {
    "["@ + stamp + "] "@ + status.detail
}

/// The usage, in percent, from which a notification is shown.
pub const HIGH_USAGE: u32 = 90;

/// The summary, where usage is so high that it is notified.
pub open spec fn alarm_of(status: StatusView) -> Option<NotificationView> {
    match status.percent {
        Some(percent) if percent >= HIGH_USAGE => Some(
            NotificationView { title: "ZaiMeter: high usage"@, message: status.detail },
        ),
        _ => None,
    }
}

/// What goes with a status that is published: the line for the log, stamped with
/// this date and time, and a notification where usage is high.
pub fn published(status: MacStatus, stamp: &str) -> (r: Published)
    ensures
        r.status == status,
        r.log_line@ == log_line_of(status@, stamp@),
        notification_of(r.alarm) == alarm_of(status@),
        r.log_line@ == "["@ + stamp@ + "] "@ + status.detail@,
        r.alarm is Some <==> status.percent is Some && status.percent->0 >= 90,
        r.alarm matches Some(alarm) ==> alarm.title@ == "ZaiMeter: high usage"@
            && alarm.message@ == status.detail@,
{
    let mut log_line = "[".to_owned();
    log_line.append(stamp);
    log_line.append("] ");
    log_line.append(status.detail.as_str());
    let high = match status.percent {
        Some(percent) => percent >= HIGH_USAGE,
        None => false,
    };
    let alarm = if high {
        Some(
            Notification {
                title: "ZaiMeter: high usage".to_owned(),
                message: status.detail.clone(),
            },
        )
    } else {
        None
    };
    Published { status, log_line, alarm }
}

/// The reset timestamp of the 5-hour session.
pub open spec fn session_reset(usage: UsageView) -> Option<Seq<char>> {
    match usage.five_hour {
        Some(five) => five.resets_at,
        None => None,
    }
}

/// Whether the clock can give so many seconds until the 5-hour session resets:
/// some iff its reset is a timestamp, and then counted from some instant.
pub open spec fn clock_gives(usage: UsageView, seconds_until_reset: Option<i64>) -> bool {
    match (session_reset(usage), seconds_until_reset) {
        (Some(text), Some(seconds)) => rfc3339_instant(text) is Some && exists|now: (i64, u32)|
            valid_instant(now) && seconds == #[trigger] whole_seconds(
                rfc3339_instant(text)->0,
                now,
            ),
        (Some(text), None) => rfc3339_instant(text) is None,
        (None, Some(_)) => false,
        (None, None) => true,
    }
}

/// Publishes the status of a successful poll: stamped with the local time, with
/// the reset points that the clock gives, with a line for the log, and with
/// a notification where usage is high.
pub fn publish_status(
    usage: &UsageResponse,
    plan_override: Option<&str>,
    provider: &Provider,
    celebrate: Option<Celebrate>,
    slots: &Vec<Double>,
) -> (r: Published)
    ensures
        exists|seconds: Option<i64>, now: Seq<char>, stamp: Seq<char>|
            clock_gives(usage@, seconds) && #[trigger] are_stamps(now, stamp) && r.status@
                == #[trigger] live(
                usage@,
                borrowed_text(plan_override),
                *provider,
                celebrate_of(celebrate),
                slots@,
                seconds,
                now,
            ) && r.log_line@ == log_line_of(r.status@, stamp),
        notification_of(r.alarm) == alarm_of(r.status@),
        r.alarm is Some <==> r.status.percent is Some && r.status.percent->0 >= 90,
        r.alarm matches Some(alarm) ==> alarm.title@ == "ZaiMeter: high usage"@
            && alarm.message@ == r.status.detail@,
{
    let (now, stamp) = local_stamps();
    let seconds = match &usage.five_hour {
        Some(five) => match &five.resets_at {
            Some(text) => seconds_until(text.as_str()),
            None => None,
        },
        None => None,
    };
    assert(clock_gives(usage@, seconds));
    let status = live_status(usage, plan_override, provider, celebrate, slots, seconds, now);
    published(status, stamp.as_str())
}

/// A configured plan label is ignored for z.ai: neither the plan shown nor the
/// comparison depends on it.
pub proof fn law_plan_override_is_ignored_for_zai(
    usage: UsageView,
    a: Option<Seq<char>>,
    b: Option<Seq<char>>,
    celebrate: Option<CelebrateView>,
    slots: Seq<Double>,
    seconds_until_reset: Option<i64>,
    now: Seq<char>,
)
    ensures
        live(usage, a, Provider::Zai, celebrate, slots, seconds_until_reset, now) == live(
            usage,
            b,
            Provider::Zai,
            celebrate,
            slots,
            seconds_until_reset,
            now,
        ),
        live(usage, a, Provider::Zai, celebrate, slots, seconds_until_reset, now).tier_note is None,
        live(usage, a, Provider::Zai, celebrate, slots, seconds_until_reset, now).plan == Some(
            usage.plan(),
        ),
{
}

/// A published status is a good reading: it carries data, so that later failures
/// keep it on screen.
pub proof fn law_published_status_is_kept(
    usage: UsageView,
    plan_override: Option<Seq<char>>,
    provider: Provider,
    celebrate: Option<CelebrateView>,
    slots: Seq<Double>,
    seconds_until_reset: Option<i64>,
    now: Seq<char>,
    message: Seq<char>,
)
    ensures
        ({
            let shown = live(
                usage,
                plan_override,
                provider,
                celebrate,
                slots,
                seconds_until_reset,
                now,
            );
            &&& refresh_begun(Some(shown)) == shown
            &&& fetch_failed(Some(shown), message) == (StatusView {
                error: Some(message),
                ..shown
            })
        }),
{
}

/// The contents of a status are all of it.
pub proof fn law_contents_of_a_status(status: MacStatus, entry: MetricEntry)
    ensures
        status@.state == status.state@,
        status@.title == status.title@,
        status@.detail == status.detail@,
        status@.plan == text_of(status.plan),
        status@.percent == status.percent,
        status@.metrics.len() == status.metrics@.len(),
        forall|i: int|
            0 <= i < status.metrics@.len() ==> #[trigger] status@.metrics[i] == status.metrics@[i]@,
        entry@.key == entry.key@,
        entry@.name == entry.name@,
        entry@.percent == entry.percent,
        entry@.resets_at == text_of(entry.resets_at),
        status@.tier_note == text_of(status.tier_note),
        status@.last_api_update == text_of(status.last_api_update),
        status@.data_age_seconds == status.data_age_seconds,
        status@.error == text_of(status.error),
        status@.chart == status.chart@,
        status@.chart_resets.len() == status.chart_resets@.len(),
        forall|i: int|
            0 <= i < status.chart_resets@.len() ==> #[trigger] status@.chart_resets[i]
                == status.chart_resets@[i]@,
        status@.celebrate == celebrate_of(status.celebrate),
{
}

} // verus!
