//! Usage readings: the metrics of one poll, and what is shown and recorded of
//! them.

use vstd::prelude::*;
use vstd::string::StringExecFns;

use crate::double::Double;
use crate::text::{ascii, ascii_upper, same, to_uppercase, uppercase};

verus! {

/// The text of an optional string.
pub open spec fn text_of(s: Option<String>) -> Option<Seq<char>> {
    match s {
        Some(t) => Some(t@),
        None => None,
    }
}

/// A copy of an optional string.
pub fn copy_text(s: &Option<String>) -> (r: Option<String>)
    ensures
        text_of(r) == text_of(*s),
        r is Some <==> s is Some,
        r is Some ==> r->0@ == s->0@,
{
    match s {
        Some(t) => Some(t.clone()),
        None => None,
    }
}

/// One metered limit: how much of it is used, in percent, and when it resets.
#[derive(Debug)]
pub struct UsageMetric {
    pub utilization: Double,
    pub resets_at: Option<String>,
}

/// A metric by its contents.
pub ghost struct MetricView {
    pub utilization: Double,
    pub resets_at: Option<Seq<char>>,
}

impl View for UsageMetric {
    type V = MetricView;

    open spec fn view(&self) -> MetricView {
        MetricView { utilization: self.utilization, resets_at: text_of(self.resets_at) }
    }
}

impl UsageMetric {
    /// A copy of the metric.
    pub fn copy(&self) -> (r: UsageMetric)
        ensures
            r@ == self@,
            r.utilization == self.utilization,
            r.resets_at is Some <==> self.resets_at is Some,
            r.resets_at is Some ==> r.resets_at->0@ == self.resets_at->0@,
    {
        UsageMetric { utilization: self.utilization, resets_at: copy_text(&self.resets_at) }
    }
}

/// The metric of an optional metric.
pub open spec fn metric_of(m: Option<UsageMetric>) -> Option<MetricView> {
    match m {
        Some(metric) => Some(metric@),
        None => None,
    }
}

/// The metrics that have no field of their own, each under its key.
pub type Rows = Seq<(Seq<char>, MetricView)>;

/// Where a key stands among the rows; their number if it does not.
pub open spec fn position(rows: Rows, key: Seq<char>) -> nat
    decreases rows.len(),
{
    if rows.len() == 0 || rows[0].0 == key {
        0
    } else {
        1 + position(rows.skip(1), key)
    }
}

/// The metric under a key, if there is one.
pub open spec fn lookup(rows: Rows, key: Seq<char>) -> Option<MetricView> {
    if position(rows, key) < rows.len() {
        Some(rows[position(rows, key) as int].1)
    } else {
        None
    }
}

/// The rows with a metric under a key: in place of the one that was there, or
/// at the end.
pub open spec fn put(rows: Rows, key: Seq<char>, metric: MetricView) -> Rows {
    if position(rows, key) < rows.len() {
        rows.update(position(rows, key) as int, (key, metric))
    } else {
        rows.push((key, metric))
    }
}

/// Whether no key stands twice.
pub open spec fn distinct_keys(rows: Rows) -> bool {
    forall|i: int, j: int| 0 <= i < j < rows.len() ==> #[trigger] rows[i].0 != #[trigger] rows[j].0
}

/// The position of a key is the first place where it stands.
proof fn lemma_position(rows: Rows, key: Seq<char>)
    ensures
        position(rows, key) <= rows.len(),
        position(rows, key) < rows.len() ==> rows[position(rows, key) as int].0 == key,
        forall|i: int| 0 <= i < position(rows, key) ==> (#[trigger] rows[i]).0 != key,
    decreases rows.len(),
{
    if rows.len() > 0 && rows[0].0 != key {
        let rest = rows.skip(1);
        lemma_position(rest, key);
        assert forall|i: int| 0 <= i < position(rows, key) implies (#[trigger] rows[i]).0 != key by {
            if i > 0 {
                assert(rest[i - 1] == rows[i]);
            }
        }
    }
}

/// The first place where a key stands is its position.
proof fn lemma_position_is(rows: Rows, key: Seq<char>, at: int)
    requires
        0 <= at <= rows.len(),
        at < rows.len() ==> rows[at].0 == key,
        forall|i: int| 0 <= i < at ==> (#[trigger] rows[i]).0 != key,
    ensures
        position(rows, key) == at,
{
    lemma_position(rows, key);
    let p = position(rows, key) as int;
    if p < at {
        assert(rows[p].0 != key);
    } else if at < p {
        assert(rows[at].0 != key);
    }
}

/// Putting a metric under a key keeps the keys distinct, shows the metric under
/// that key, and leaves every other key as it was.
pub proof fn law_put(rows: Rows, key: Seq<char>, metric: MetricView, other: Seq<char>)
    requires
        distinct_keys(rows),
    ensures
        distinct_keys(put(rows, key, metric)),
        lookup(put(rows, key, metric), key) == Some(metric),
        other != key ==> lookup(put(rows, key, metric), other) == lookup(rows, other),
        lookup(rows, key) is Some ==> put(rows, key, metric).len() == rows.len(),
        lookup(rows, key) is None ==> put(rows, key, metric) == rows.push((key, metric)),
        forall|i: int|
            0 <= i < rows.len() ==> (#[trigger] put(rows, key, metric)[i]).0 == rows[i].0,
{
    let after = put(rows, key, metric);
    let p = position(rows, key) as int;
    lemma_position(rows, key);
    assert forall|i: int| 0 <= i < p implies (#[trigger] after[i]).0 != key by {
        assert(after[i] == rows[i]);
    }
    lemma_position_is(after, key, p);
    assert forall|i: int, j: int| 0 <= i < j < after.len() implies #[trigger] after[i].0
        != #[trigger] after[j].0 by {
        if p == rows.len() {
            if j < p {
                assert(rows[i].0 != rows[j].0);
            } else {
                assert(rows[i].0 != key);
            }
        } else {
            assert(rows[i].0 != rows[j].0);
        }
    }
    if other != key {
        let q = position(rows, other) as int;
        lemma_position(rows, other);
        if q < rows.len() {
            assert(after[q] == rows[q]);
            assert forall|i: int| 0 <= i < q implies (#[trigger] after[i]).0 != other by {
                assert(rows[i].0 != other);
            }
            lemma_position_is(after, other, q);
        } else {
            assert forall|i: int| 0 <= i < after.len() implies (#[trigger] after[i]).0 != other by {
                if i < rows.len() {
                    assert(rows[i].0 != other);
                }
            }
            lemma_position_is(after, other, after.len() as int);
        }
    }
}

/// Where no key stands twice, a metric is found under a key iff it stands there.
pub proof fn law_lookup(rows: Rows, key: Seq<char>, metric: MetricView)
    requires
        distinct_keys(rows),
    ensures
        lookup(rows, key) == Some(metric) <==> rows.contains((key, metric)),
        lookup(rows, key) is None <==> forall|i: int|
            0 <= i < rows.len() ==> (#[trigger] rows[i]).0 != key,
{
    lemma_position(rows, key);
    let p = position(rows, key) as int;
    if rows.contains((key, metric)) {
        let i = choose|i: int| 0 <= i < rows.len() && rows[i] == (key, metric);
        assert(rows[i].0 == key);
        if p < i {
            assert(rows[p].0 != rows[i].0);
        }
    }
    if lookup(rows, key) == Some(metric) {
        assert(rows[p] == (key, metric));
    }
}

/// Metrics by key, in the order in which their keys first came, no key twice.
#[derive(Debug)]
pub struct ExtraMetrics {
    entries: Vec<(String, UsageMetric)>,
}

/// The contents of a list of keyed metrics.
pub open spec fn rows_of(entries: Seq<(String, UsageMetric)>) -> Rows {
    entries.map_values(|e: (String, UsageMetric)| (e.0@, e.1@))
}

impl View for ExtraMetrics {
    type V = Rows;

    closed spec fn view(&self) -> Rows {
        rows_of(self.entries@)
    }
}

impl ExtraMetrics {
    /// Whether no key stands twice.
    pub open spec fn wf(self) -> bool {
        distinct_keys(self@)
    }

    /// No metrics.
    pub fn new() -> (r: ExtraMetrics)
        ensures
            r.wf(),
            r@ == Rows::empty(),
    {
        let r = ExtraMetrics { entries: Vec::new() };
        assert(r@ =~= Rows::empty());
        r
    }

    /// The number of metrics.
    pub fn len(&self) -> (n: usize)
        ensures
            n == self@.len(),
    {
        self.entries.len()
    }

    /// Whether there is no metric.
    pub fn is_empty(&self) -> (r: bool)
        ensures
            r == (self@.len() == 0),
    {
        self.entries.len() == 0
    }

    /// Where a key stands; the number of metrics if it does not.
    fn find(&self, key: &str) -> (i: usize)
        ensures
            i == position(self@, key@),
            i <= self@.len(),
    {
        let mut i: usize = 0;
        while i < self.entries.len()
            invariant
                i <= self.entries@.len(),
                forall|j: int| 0 <= j < i ==> (#[trigger] self@[j]).0 != key@,
            decreases self.entries@.len() - i,
        {
            if same(self.entries[i].0.as_str(), key) {
                proof {
                    lemma_position_is(self@, key@, i as int);
                }
                return i;
            }
            i = i + 1;
        }
        proof {
            lemma_position_is(self@, key@, i as int);
        }
        i
    }

    /// The metric under a key.
    pub fn get(&self, key: &str) -> (r: Option<&UsageMetric>)
        ensures
            r is Some <==> lookup(self@, key@) is Some,
            r matches Some(m) ==> lookup(self@, key@) == Some(m@),
    {
        let i = self.find(key);
        if i < self.entries.len() {
            Some(&self.entries[i].1)
        } else {
            None
        }
    }

    /// Puts a metric under a key, in place of the one that was there.
    pub fn insert(&mut self, key: String, metric: UsageMetric)
        requires
            old(self).wf(),
        ensures
            final(self).wf(),
            final(self)@ == put(old(self)@, key@, metric@),
    {
        proof {
            law_put(self@, key@, metric@, key@);
        }
        let ghost before = self@;
        let ghost k = key@;
        let ghost m = metric@;
        let i = self.find(key.as_str());
        if i < self.entries.len() {
            self.entries.set(i, (key, metric));
            assert(self@ =~= before.update(i as int, (k, m)));
        } else {
            self.entries.push((key, metric));
            assert(self@ =~= before.push((k, m)));
        }
    }

    /// Copies of the metrics with their keys, in order.
    pub fn rows(&self) -> (r: Vec<(String, UsageMetric)>)
        ensures
            rows_of(r@) == self@,
    {
        let mut r: Vec<(String, UsageMetric)> = Vec::new();
        let mut i: usize = 0;
        while i < self.entries.len()
            invariant
                i <= self.entries@.len(),
                rows_of(r@) =~= self@.take(i as int),
            decreases self.entries@.len() - i,
        {
            let entry = &self.entries[i];
            let ghost before = rows_of(r@);
            r.push((entry.0.clone(), entry.1.copy()));
            assert(rows_of(r@) =~= before.push(self@[i as int]));
            assert(self@.take(i + 1) =~= self@.take(i as int).push(self@[i as int]));
            i = i + 1;
        }
        assert(self@.take(self@.len() as int) =~= self@);
        r
    }
}

/// The usage that one poll reported.
#[derive(Debug)]
pub struct UsageResponse {
    pub five_hour: Option<UsageMetric>,
    pub seven_day: Option<UsageMetric>,
    pub seven_day_sonnet: Option<UsageMetric>,
    pub seven_day_opus: Option<UsageMetric>,
    pub seven_day_oauth_apps: Option<UsageMetric>,
    pub extra: ExtraMetrics,
    pub subscription_type: Option<String>,
    pub rate_limit_tier: Option<String>,
}

/// A usage report by its contents.
pub ghost struct UsageView {
    pub five_hour: Option<MetricView>,
    pub seven_day: Option<MetricView>,
    pub seven_day_sonnet: Option<MetricView>,
    pub seven_day_opus: Option<MetricView>,
    pub seven_day_oauth_apps: Option<MetricView>,
    pub extra: Rows,
    pub subscription_type: Option<Seq<char>>,
    pub rate_limit_tier: Option<Seq<char>>,
}

impl View for UsageResponse {
    type V = UsageView;

    open spec fn view(&self) -> UsageView {
        UsageView {
            five_hour: metric_of(self.five_hour),
            seven_day: metric_of(self.seven_day),
            seven_day_sonnet: metric_of(self.seven_day_sonnet),
            seven_day_opus: metric_of(self.seven_day_opus),
            seven_day_oauth_apps: metric_of(self.seven_day_oauth_apps),
            extra: self.extra@,
            subscription_type: text_of(self.subscription_type),
            rate_limit_tier: text_of(self.rate_limit_tier),
        }
    }
}

/// The row of a metric that has a field of its own, if it was reported.
pub open spec fn named_row(key: Seq<char>, metric: Option<MetricView>) -> Rows {
    match metric {
        Some(m) => seq![(key, m)],
        None => Rows::empty(),
    }
}

/// The value of the largest utilization; zero where there is none.
pub open spec fn peak(rows: Rows) -> int
    decreases rows.len(),
{
    if rows.len() == 0 {
        0
    } else {
        let before = peak(rows.drop_last());
        let last = rows.last().1.utilization@;
        if rows.len() == 1 || last > before {
            last
        } else {
            before
        }
    }
}

impl UsageView {
    /// Every reported metric with its key.
    pub open spec fn rows(self) -> Rows {
        named_row("five_hour"@, self.five_hour) + named_row("seven_day"@, self.seven_day)
            + named_row("seven_day_sonnet"@, self.seven_day_sonnet) + named_row(
            "seven_day_opus"@,
            self.seven_day_opus,
        ) + named_row("seven_day_oauth_apps"@, self.seven_day_oauth_apps) + self.extra
    }

    /// The plan label: the subscription as it was reported, or "Unknown".
    pub open spec fn plan(self) -> Seq<char> {
        match self.subscription_type {
            Some(label) => label,
            None => "Unknown"@,
        }
    }
}

/// How many of the metrics that have a field of their own were reported.
pub open spec fn named_count(usage: UsageView) -> nat {
    (if usage.five_hour is Some { 1nat } else { 0 })
        + (if usage.seven_day is Some { 1nat } else { 0 })
        + (if usage.seven_day_sonnet is Some { 1nat } else { 0 })
        + (if usage.seven_day_opus is Some { 1nat } else { 0 })
        + (if usage.seven_day_oauth_apps is Some { 1nat } else { 0 })
}

/// The rows of a report hold each reported metric once, under its own key, and
/// nothing else: the named ones first, in a fixed order, then the others in theirs.
pub proof fn law_rows_hold_every_metric(usage: UsageView)
    ensures
        usage.rows().len() == named_count(usage) + usage.extra.len(),
        forall|i: int|
            0 <= i < usage.extra.len() ==> usage.rows()[named_count(usage) + i]
                == #[trigger] usage.extra[i],
        usage.five_hour matches Some(m) ==> usage.rows()[0] == ("five_hour"@, m),
        usage.seven_day matches Some(m) ==> usage.rows().contains(("seven_day"@, m)),
        usage.seven_day matches Some(m) ==> usage.five_hour is None ==> usage.rows()[0] == (
            "seven_day"@,
            m,
        ),
        usage.seven_day matches Some(m) ==> usage.five_hour is Some ==> usage.rows()[1] == (
            "seven_day"@,
            m,
        ),
        usage.seven_day_sonnet matches Some(m) ==> usage.rows().contains(
            ("seven_day_sonnet"@, m),
        ),
        usage.seven_day_opus matches Some(m) ==> usage.rows().contains(("seven_day_opus"@, m)),
        usage.seven_day_oauth_apps matches Some(m) ==> usage.rows()[named_count(usage) - 1] == (
            "seven_day_oauth_apps"@,
            m,
        ),
{
    let a = named_row("five_hour"@, usage.five_hour);
    let b = named_row("seven_day"@, usage.seven_day);
    let c = named_row("seven_day_sonnet"@, usage.seven_day_sonnet);
    let d = named_row("seven_day_opus"@, usage.seven_day_opus);
    let e = named_row("seven_day_oauth_apps"@, usage.seven_day_oauth_apps);
    let rows = usage.rows();
    assert(rows == a + b + c + d + e + usage.extra);
    if let Some(m) = usage.seven_day {
        assert(rows[a.len() as int] == ("seven_day"@, m));
    }
    if let Some(m) = usage.seven_day_sonnet {
        assert(rows[(a + b).len() as int] == ("seven_day_sonnet"@, m));
    }
    if let Some(m) = usage.seven_day_opus {
        assert(rows[(a + b + c).len() as int] == ("seven_day_opus"@, m));
    }
}

/// The peak is the largest utilization: none is above it, and one is at it.
pub proof fn law_peak_is_the_largest(rows: Rows)
    ensures
        rows.len() == 0 ==> peak(rows) == 0,
        forall|i: int| 0 <= i < rows.len() ==> (#[trigger] rows[i]).1.utilization@ <= peak(rows),
        rows.len() > 0 ==> exists|i: int|
            0 <= i < rows.len() && (#[trigger] rows[i]).1.utilization@ == peak(rows),
    decreases rows.len(),
{
    if rows.len() > 0 {
        let earlier = rows.drop_last();
        let n = rows.len() - 1;
        law_peak_is_the_largest(earlier);
        assert forall|i: int| 0 <= i < rows.len() implies (#[trigger] rows[i]).1.utilization@
            <= peak(rows) by {
            if i < n {
                assert(rows[i] == earlier[i]);
            }
        }
        assert(rows[n] == rows.last());
        if peak(rows) != rows.last().1.utilization@ {
            let i = choose|i: int|
                0 <= i < earlier.len() && (#[trigger] earlier[i]).1.utilization@ == peak(earlier);
            assert(rows[i] == earlier[i]);
        }
    }
}

fn push_named(rows: &mut Vec<(String, UsageMetric)>, key: &str, metric: &Option<UsageMetric>)
    ensures
        rows_of(final(rows)@) == rows_of(old(rows)@) + named_row(key@, metric_of(*metric)),
{
    match metric {
        Some(m) => {
            let ghost before = rows_of(rows@);
            rows.push((key.to_owned(), m.copy()));
            assert(rows_of(rows@) =~= before + seq![(key@, m@)]);
        },
        None => {
            assert(rows_of(rows@) + Rows::empty() =~= rows_of(rows@));
        },
    }
}

impl UsageResponse {
    /// Whether the keyed metrics are in order.
    pub open spec fn wf(self) -> bool {
        self.extra.wf()
    }

    /// Every reported metric with its key: the named ones first.
    pub fn all_metrics(&self) -> (r: Vec<(String, UsageMetric)>)
        ensures
            rows_of(r@) == self@.rows(),
    {
        let mut r: Vec<(String, UsageMetric)> = Vec::new();
        assert(rows_of(r@) =~= Rows::empty());
        push_named(&mut r, "five_hour", &self.five_hour);
        push_named(&mut r, "seven_day", &self.seven_day);
        push_named(&mut r, "seven_day_sonnet", &self.seven_day_sonnet);
        push_named(&mut r, "seven_day_opus", &self.seven_day_opus);
        push_named(&mut r, "seven_day_oauth_apps", &self.seven_day_oauth_apps);
        let mut extra = self.extra.rows();
        let ghost named = r@;
        let ghost more = extra@;
        r.append(&mut extra);
        assert(rows_of(r@) =~= rows_of(named) + rows_of(more));
        assert(rows_of(r@) =~= self@.rows());
        r
    }

    /// The largest utilization of all reported metrics.
    pub fn max_utilization(&self) -> (r: Option<Double>)
        ensures
            r is Some <==> self@.rows().len() > 0,
            r matches Some(top) ==> {
                &&& top@ == peak(self@.rows())
                &&& exists|i: int|
                    0 <= i < self@.rows().len() && top == (#[trigger] self@.rows()[i]).1.utilization
                &&& forall|i: int|
                    0 <= i < self@.rows().len() ==> top@ >= (
                    #[trigger] self@.rows()[i]).1.utilization@
            },
    {
        let metrics = self.all_metrics();
        if metrics.len() == 0 {
            return None;
        }
        let ghost rows = self@.rows();
        assert(rows.len() == metrics@.len());
        let mut top = metrics[0].1.utilization;
        assert(rows[0].1.utilization == top);
        proof {
            let first = rows.take(1);
            assert(first.last() == rows[0]);
            assert(peak(first) == top@);
        }
        let mut i: usize = 1;
        while i < metrics.len()
            invariant
                rows == self@.rows(),
                rows == rows_of(metrics@),
                1 <= i <= metrics@.len(),
                top@ == peak(rows.take(i as int)),
                exists|j: int| 0 <= j < rows.len() && top == (#[trigger] rows[j]).1.utilization,
                forall|j: int| 0 <= j < i ==> top@ >= (#[trigger] rows[j]).1.utilization@,
            decreases metrics@.len() - i,
        {
            let next = metrics[i].1.utilization;
            assert(rows[i as int].1.utilization == next);
            proof {
                let longer = rows.take(i + 1);
                assert(longer.drop_last() =~= rows.take(i as int));
                assert(longer.last() == rows[i as int]);
            }
            if !top.at_least(next) {
                top = next;
            }
            i = i + 1;
        }
        assert(rows.take(rows.len() as int) =~= rows);
        Some(top)
    }

    /// The plan label to show.
    pub fn detected_plan(&self) -> (r: String)
        ensures
            r@ == self@.plan(),
            self.subscription_type matches Some(label) ==> r@ == label@,
            self.subscription_type is None ==> r@ == "Unknown"@,
    {
        match &self.subscription_type {
            Some(label) => label.clone(),
            None => "Unknown".to_owned(),
        }
    }
}

/// One snapshot for the history database.
#[derive(Debug)]
pub struct HistoryRow {
    pub provider: String,
    pub metric: String,
    pub utilization: Double,
    pub resets_at: Option<String>,
}

/// The snapshots of one poll: a row for every reported metric, under the
/// provider's name, in the order of [`UsageResponse::all_metrics`].
pub fn save_history(usage: &UsageResponse, provider: &str) -> (r: Vec<HistoryRow>)
    ensures
        r@.len() == usage@.rows().len(),
        forall|i: int|
            0 <= i < r@.len() ==> {
                &&& (#[trigger] r@[i]).provider@ == provider@
                &&& r@[i].metric@ == usage@.rows()[i].0
                &&& r@[i].utilization == usage@.rows()[i].1.utilization
                &&& text_of(r@[i].resets_at) == usage@.rows()[i].1.resets_at
            },
        r@.len() == named_count(usage@) + usage.extra@.len(),
        usage.five_hour matches Some(m) ==> {
            &&& r@[0].metric@ == "five_hour"@
            &&& r@[0].utilization == m.utilization
            &&& r@[0].resets_at is Some <==> m.resets_at is Some
            &&& m.resets_at is Some ==> r@[0].resets_at->0@ == m.resets_at->0@
        },
        usage.seven_day matches Some(m) ==> ({
            let at: int = if usage.five_hour is Some {
                1
            } else {
                0
            };
            &&& r@[at].metric@ == "seven_day"@
            &&& r@[at].utilization == m.utilization
            &&& r@[at].resets_at is Some <==> m.resets_at is Some
            &&& m.resets_at is Some ==> r@[at].resets_at->0@ == m.resets_at->0@
        }),
{
    proof {
        law_rows_hold_every_metric(usage@);
    }
    let metrics = usage.all_metrics();
    let mut r: Vec<HistoryRow> = Vec::new();
    let mut i: usize = 0;
    while i < metrics.len()
        invariant
            i <= metrics@.len(),
            usage@.rows() == rows_of(metrics@),
            r@.len() == i,
            forall|j: int|
                0 <= j < r@.len() ==> {
                    &&& (#[trigger] r@[j]).provider@ == provider@
                    &&& r@[j].metric@ == usage@.rows()[j].0
                    &&& r@[j].utilization == usage@.rows()[j].1.utilization
                    &&& text_of(r@[j].resets_at) == usage@.rows()[j].1.resets_at
                },
        decreases metrics@.len() - i,
    {
        let m = &metrics[i];
        assert(usage@.rows()[i as int] == (m.0@, m.1@));
        r.push(
            HistoryRow {
                provider: provider.to_owned(),
                metric: m.0.clone(),
                utilization: m.1.utilization,
                resets_at: copy_text(&m.1.resets_at),
            },
        );
        i = i + 1;
    }
    r
}

/// A key as words: underscores become spaces and each word begins in upper
/// case; `fresh` says whether a word begins here.
pub open spec fn worded(key: Seq<char>, fresh: bool) -> Seq<char>
    decreases key.len(),
{
    if key.len() == 0 {
        Seq::empty()
    } else if key[0] == '_' {
        seq![' '] + worded(key.skip(1), true)
    } else if fresh {
        uppercase(key[0]) + worded(key.skip(1), false)
    } else {
        seq![key[0]] + worded(key.skip(1), false)
    }
}

/// The name under which a metric is shown.
pub open spec fn metric_name(key: Seq<char>) -> Seq<char> {
    if key == "five_hour"@ {
        "5-hour session"@
    } else if key == "seven_day"@ {
        "Weekly (7-day)"@
    } else {
        worded(key, true)
    }
}

/// The name under which a metric is shown: "5-hour session", "Weekly (7-day)",
/// or the words of its key, as in "Tools 5h".
pub fn format_metric_name(key: &str) -> (r: String)
    ensures
        r@ == metric_name(key@),
        key@ == "five_hour"@ ==> r@ == "5-hour session"@,
        key@ == "seven_day"@ ==> r@ == "Weekly (7-day)"@,
{
    proof {
        law_metric_name(key@);
    }
    if same(key, "five_hour") {
        return "5-hour session".to_owned();
    }
    if same(key, "seven_day") {
        return "Weekly (7-day)".to_owned();
    }
    let mut r = String::new();
    let mut fresh = true;
    let ghost whole = worded(key@, true);
    proof {
        assert(key@.skip(0) =~= key@);
    }
    for c in it: key.chars()
        invariant
            it.seq() == key@,
            whole =~= r@ + worded(key@.skip(it.index()), fresh),
    {
        let ghost rest = key@.skip(it.index());
        proof {
            assert(rest[0] == c);
            assert(rest.skip(1) =~= key@.skip(it.index() + 1));
        }
        if c == '_' {
            r.push(' ');
            fresh = true;
        } else if fresh {
            let upper = to_uppercase(c);
            r.append(upper.as_str());
            fresh = false;
        } else {
            r.push(c);
        }
    }
    r
}

/// The name of a metric: "5-hour session" and "Weekly (7-day)" for the two main
/// limits; for another key in ASCII the key itself, with a space for each
/// underscore and the first letter of each word in upper case.
pub proof fn law_metric_name(key: Seq<char>)
    ensures
        key == "five_hour"@ ==> metric_name(key) == "5-hour session"@,
        key == "seven_day"@ ==> metric_name(key) == "Weekly (7-day)"@,
        key != "five_hour"@ && key != "seven_day"@ && ascii(key) ==> {
            &&& metric_name(key).len() == key.len()
            &&& forall|i: int|
                0 <= i < key.len() ==> #[trigger] metric_name(key)[i] == (if key[i] == '_' {
                    ' '
                } else if i == 0 || key[i - 1] == '_' {
                    ascii_upper(key[i])
                } else {
                    key[i]
                })
        },
{
    if ascii(key) {
        lemma_worded(key, true);
    }
    reveal_strlit("five_hour");
    reveal_strlit("seven_day");
    assert("five_hour"@[0] != "seven_day"@[0]);
}

proof fn lemma_worded(key: Seq<char>, fresh: bool)
    requires
        ascii(key),
    ensures
        worded(key, fresh).len() == key.len(),
        forall|i: int|
            0 <= i < key.len() ==> #[trigger] worded(key, fresh)[i] == (if key[i] == '_' {
                ' '
            } else if (i == 0 && fresh) || (i > 0 && key[i - 1] == '_') {
                ascii_upper(key[i])
            } else {
                key[i]
            }),
    decreases key.len(),
{
    if key.len() > 0 {
        let rest = key.skip(1);
        let next = key[0] == '_';
        assert forall|i: int| 0 <= i < rest.len() implies (#[trigger] rest[i] as u32) < 128 by {
            assert(rest[i] == key[i + 1]);
        }
        lemma_worded(rest, next);
        let words = worded(key, fresh);
        assert(words.len() == key.len() && forall|i: int|
            1 <= i < key.len() ==> #[trigger] words[i] == worded(rest, next)[i - 1]);
    }
}

/// The words of a key, letter by letter: an underscore is a space and begins
/// a word, the first letter of a word is in upper case, and any other stays.
pub proof fn law_words_of_a_key(first: char, rest: Seq<char>)
    ensures
        first != '_' ==> worded(seq![first] + rest, true) == uppercase(first) + worded(rest, false),
        first != '_' ==> worded(seq![first] + rest, false) == seq![first] + worded(rest, false),
        worded(seq!['_'] + rest, true) == seq![' '] + worded(rest, true),
        worded(seq!['_'] + rest, false) == seq![' '] + worded(rest, true),
        worded(Seq::empty(), true).len() == 0,
{
    assert((seq![first] + rest).skip(1) =~= rest);
    assert((seq!['_'] + rest).skip(1) =~= rest);
}

/// The contents of a report are all of it: every metric with its utilization and
/// its reset, and both labels.
pub proof fn law_contents_of_a_report(
    usage: UsageResponse,
    metric: UsageMetric,
    text: String,
    entries: Seq<(String, UsageMetric)>,
)
    ensures
        text_of(Some(text)) == Some(text@),
        text_of(None) is None,
        metric@.utilization == metric.utilization,
        metric@.resets_at == text_of(metric.resets_at),
        metric_of(Some(metric)) == Some(metric@),
        metric_of(None) is None,
        usage@.five_hour == metric_of(usage.five_hour),
        usage@.seven_day == metric_of(usage.seven_day),
        usage@.seven_day_sonnet == metric_of(usage.seven_day_sonnet),
        usage@.seven_day_opus == metric_of(usage.seven_day_opus),
        usage@.seven_day_oauth_apps == metric_of(usage.seven_day_oauth_apps),
        usage@.extra == usage.extra@,
        usage@.subscription_type == text_of(usage.subscription_type),
        usage@.rate_limit_tier == text_of(usage.rate_limit_tier),
        rows_of(entries).len() == entries.len(),
        forall|i: int|
            0 <= i < entries.len() ==> #[trigger] rows_of(entries)[i] == (
                entries[i].0@,
                entries[i].1@,
            ),
{
}

} // verus!
