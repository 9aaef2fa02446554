//! The free-flush celebration: detecting that the weekly counter was zeroed out
//! of band, and keeping the party up until the fresh bucket is dented.

use vstd::prelude::*;

use crate::clock::{
    delta_seconds, is_stamp, local_now, parse_instant, reset_delta_seconds, rfc3339_instant,
    valid_instant, whole_seconds,
};
use crate::double::{law_numbers_are_exact, law_rounding_is_monotone, rounded, ulp, Double};
use crate::usage::{copy_text, text_of, MetricView, UsageResponse};

verus! {

/// Tunables of the celebration.
#[derive(Clone, Copy, Debug)]
pub struct CelebrationCfg {
    pub enabled: bool,
    pub stop_at_percent: Double,
    pub drop_threshold: Double,
    pub anchor_tolerance_seconds: i64,
}

/// What is kept from poll to poll, so that the party survives a run of flat
/// readings: the previous weekly reading, and whether a party is live.
#[derive(Debug)]
pub struct CelebrateState {
    pub last_util: Option<Double>,
    pub last_reset: Option<String>,
    pub active: bool,
    pub since: Option<String>,
}

/// A celebration state by its contents.
pub ghost struct StateView {
    pub last_util: Option<Double>,
    pub last_reset: Option<Seq<char>>,
    pub active: bool,
    pub since: Option<Seq<char>>,
}

impl View for CelebrateState {
    type V = StateView;

    open spec fn view(&self) -> StateView {
        StateView {
            last_util: self.last_util,
            last_reset: text_of(self.last_reset),
            active: self.active,
            since: text_of(self.since),
        }
    }
}

/// The state before any poll.
pub open spec fn idle() -> StateView {
    StateView { last_util: None, last_reset: None, active: false, since: None }
}

impl Default for CelebrateState {
    /// The state before any poll.
    fn default() -> (r: CelebrateState)
        ensures
            r@ == idle(),
            r.last_util is None && r.last_reset is None && !r.active && r.since is None,
    {
        CelebrateState { last_util: None, last_reset: None, active: false, since: None }
    }
}

/// An active celebration, as it is shown.
#[derive(Debug)]
pub struct Celebrate {
    pub active: bool,
    /// RFC 3339 timestamp of when the flush was detected.
    pub since: Option<String>,
    /// Short human label for the dropdown line.
    pub reason: String,
}

/// A celebration by its contents.
pub ghost struct CelebrateView {
    pub active: bool,
    pub since: Option<Seq<char>>,
    pub reason: Seq<char>,
}

impl View for Celebrate {
    type V = CelebrateView;

    open spec fn view(&self) -> CelebrateView {
        CelebrateView { active: self.active, since: text_of(self.since), reason: self.reason@ }
    }
}

/// The celebration of an optional celebration.
pub open spec fn celebrate_of(c: Option<Celebrate>) -> Option<CelebrateView> {
    match c {
        Some(celebrate) => Some(celebrate@),
        None => None,
    }
}

/// Whether a change of utilization is a flush.
pub open spec fn flush(prev: int, cur: int, anchor_advanced: bool, threshold: int) -> bool {
    rounded(prev - cur) >= threshold && !anchor_advanced
}

/// A flush is a weekly-utilization drop of at least `drop_threshold` points while
/// the reset anchor did not jump forward. A scheduled reset also drops
/// utilization, but it moves the anchor, so `anchor_advanced` suppresses it.
pub fn is_flush(
    prev_util: Double,
    cur_util: Double,
    anchor_advanced: bool,
    drop_threshold: Double,
) -> (r: bool)
    ensures
        r == flush(prev_util@, cur_util@, anchor_advanced, drop_threshold@),
        r <==> !anchor_advanced && rounded(prev_util@ - cur_util@) >= drop_threshold@,
{
    prev_util.difference_at_least(cur_util, drop_threshold) && !anchor_advanced
}

/// The instant of a reset anchor, where it is a timestamp.
pub open spec fn instant_of(anchor: Option<Seq<char>>) -> Option<(i64, u32)> {
    match anchor {
        Some(text) => rfc3339_instant(text),
        None => None,
    }
}

/// Whether an anchor jumped forward: both instants are known, and the current one
/// is later than the previous one by the tolerance or more. An anchor that moved
/// by less than the tolerance held, and so did one that did not move where the
/// tolerance is zero.
pub open spec fn later(cur: Option<(i64, u32)>, prev: Option<(i64, u32)>, tolerance: int) -> bool {
    match (cur, prev) {
        (Some(c), Some(p)) => if tolerance > 0 {
            whole_seconds(c, p) >= tolerance
        } else {
            whole_seconds(c, p) > tolerance
        },
        _ => false,
    }
}

/// Whether the reset anchor jumped forward from the timestamp `prev` to `cur`.
pub open spec fn advanced(
    cur: Option<Seq<char>>,
    prev: Option<Seq<char>>,
    tolerance: int,
) -> bool {
    later(instant_of(cur), instant_of(prev), tolerance)
}

/// Whether a move of so many seconds is a jump.
fn reaches(seconds: i64, tolerance_seconds: i64) -> (r: bool)
    ensures
        r == (if tolerance_seconds > 0 {
            seconds >= tolerance_seconds
        } else {
            seconds > tolerance_seconds
        }),
{
    seconds > tolerance_seconds || tolerance_seconds > 0 && seconds == tolerance_seconds
}

/// Whether the reset anchor jumped forward from `prev` to `cur`.
pub fn anchor_advanced(
    cur: &Option<String>,
    prev: &Option<String>,
    tolerance_seconds: i64,
) -> (r: bool)
    ensures
        r == advanced(text_of(*cur), text_of(*prev), tolerance_seconds as int),
        r ==> cur is Some && prev is Some && rfc3339_instant(cur->0@) is Some && rfc3339_instant(
            prev->0@,
        ) is Some,
        cur is Some && prev is Some && rfc3339_instant(cur->0@) is Some && rfc3339_instant(
            prev->0@,
        ) is Some ==> ({
            let seconds = whole_seconds(
                rfc3339_instant(cur->0@)->0,
                rfc3339_instant(prev->0@)->0,
            );
            &&& seconds > tolerance_seconds ==> r
            &&& seconds < tolerance_seconds ==> !r
            &&& seconds == tolerance_seconds ==> r == (tolerance_seconds > 0)
        }),
{
    match (cur, prev) {
        (Some(c), Some(p)) => match reset_delta_seconds(c.as_str(), p.as_str()) {
            Some(seconds) => reaches(seconds, tolerance_seconds),
            None => false,
        },
        _ => false,
    }
}

/// What one poll does to the celebration.
#[derive(Debug)]
pub struct CelebrationOutcome {
    /// The state to keep; `None` where nothing is to be kept.
    pub state: Option<CelebrateState>,
    /// The party to show.
    pub celebrate: Option<Celebrate>,
    /// The utilizations before and after a flush that was just detected.
    pub flushed: Option<(Double, Double)>,
    /// The utilization that just ended a party.
    pub ended_at: Option<Double>,
}

/// An outcome by its contents.
pub ghost struct OutcomeView {
    pub state: Option<StateView>,
    pub celebrate: Option<CelebrateView>,
    pub flushed: Option<(Double, Double)>,
    pub ended_at: Option<Double>,
}

impl View for CelebrationOutcome {
    type V = OutcomeView;

    open spec fn view(&self) -> OutcomeView {
        OutcomeView {
            state: match self.state {
                Some(state) => Some(state@),
                None => None,
            },
            celebrate: celebrate_of(self.celebrate),
            flushed: self.flushed,
            ended_at: self.ended_at,
        }
    }
}

/// The utilization of an optional metric.
pub open spec fn utilization_of(week: Option<MetricView>) -> Option<Double> {
    match week {
        Some(m) => Some(m.utilization),
        None => None,
    }
}

/// The reset anchor of an optional metric.
pub open spec fn anchor_of(week: Option<MetricView>) -> Option<Seq<char>> {
    match week {
        Some(m) => m.resets_at,
        None => None,
    }
}

/// The utilizations before and after, where this weekly reading is a flush;
/// `moved` says whether the anchor jumped.
pub open spec fn flush_event(
    state: StateView,
    week: Option<MetricView>,
    cfg: CelebrationCfg,
    moved: bool,
) -> Option<(Double, Double)> {
    match (utilization_of(week), state.last_util) {
        (Some(cur), Some(prev)) => if flush(prev@, cur@, moved, cfg.drop_threshold@) {
            Some((prev, cur))
        } else {
            None
        },
        _ => None,
    }
}

/// Whether the anchor of this weekly reading is ahead of the previous one's.
pub open spec fn anchor_moved(
    state: StateView,
    week: Option<MetricView>,
    cfg: CelebrationCfg,
) -> bool {
    advanced(anchor_of(week), state.last_reset, cfg.anchor_tolerance_seconds as int)
}

/// Whether this weekly reading dents the fresh bucket.
pub open spec fn dented(week: Option<MetricView>, cfg: CelebrationCfg) -> bool {
    match utilization_of(week) {
        Some(cur) => cur@ >= cfg.stop_at_percent@,
        None => false,
    }
}

/// The state after a weekly reading at the time `now`: a flush starts a party,
/// a scheduled reset or a dent ends it, and the reading is remembered.
pub open spec fn stepped(
    state: StateView,
    week: Option<MetricView>,
    cfg: CelebrationCfg,
    now: Seq<char>,
    moved: bool,
) -> StateView {
    let flushed = flush_event(state, week, cfg, moved) is Some;
    let started = state.active || flushed;
    let over = started && (moved || dented(week, cfg));
    StateView {
        last_util: utilization_of(week),
        last_reset: anchor_of(week),
        active: started && !over,
        since: if over {
            None
        } else if flushed {
            Some(now)
        } else {
            state.since
        },
    }
}

/// What is shown of a celebration state.
pub open spec fn shown(state: StateView) -> Option<CelebrateView> {
    if state.active {
        Some(
            CelebrateView {
                active: true,
                since: state.since,
                reason: "Free weekly flush - fresh bucket"@,
            },
        )
    } else {
        None
    }
}

/// What a poll with this weekly reading does to the celebration.
pub open spec fn outcome(
    state: StateView,
    week: Option<MetricView>,
    cfg: CelebrationCfg,
    now: Seq<char>,
    moved: bool,
) -> OutcomeView {
    if !cfg.enabled {
        OutcomeView { state: None, celebrate: None, flushed: None, ended_at: None }
    } else {
        let next = stepped(state, week, cfg, now, moved);
        let flushed = flush_event(state, week, cfg, moved);
        OutcomeView {
            state: Some(next),
            celebrate: shown(next),
            flushed,
            ended_at: if (state.active || flushed is Some) && !moved && dented(week, cfg) {
                utilization_of(week)
            } else {
                None
            },
        }
    }
}

/// Takes one poll's usage into the celebration state, `now` being the time.
/// `moved` says whether the anchor jumped: that is a real scheduled reset, which
/// suppresses a flush and ends a party.
pub fn celebration_step(
    state: CelebrateState,
    usage: &UsageResponse,
    cfg: CelebrationCfg,
    now: String,
    moved: bool,
) -> (r: CelebrationOutcome)
    ensures
        r@ == outcome(state@, usage@.seven_day, cfg, now@, moved),
        r.state is Some <==> cfg.enabled,
        r.celebrate is Some <==> r.state is Some && r.state->0.active,
        r.celebrate matches Some(c) ==> c.active && text_of(c.since) == text_of(r.state->0.since)
            && c.reason@ == "Free weekly flush - fresh bucket"@,
        r.state matches Some(s) ==> match usage.seven_day {
            Some(m) => s.last_util == Some(m.utilization) && text_of(s.last_reset) == text_of(
                m.resets_at,
            ),
            None => s.last_util is None && s.last_reset is None,
        },
        moved ==> r.celebrate is None && r.flushed is None,
        r.flushed is Some <==> cfg.enabled && !moved && usage.seven_day is Some
            && state.last_util is Some && rounded(
            state.last_util->0@ - usage.seven_day->0.utilization@,
        ) >= cfg.drop_threshold@,
        r.flushed matches Some((before, after)) ==> state.last_util == Some(before)
            && usage.seven_day is Some && usage.seven_day->0.utilization == after,
        r.celebrate is Some <==> cfg.enabled && !moved && (state.active || r.flushed is Some) && (
        usage.seven_day matches Some(m) ==> m.utilization@ < cfg.stop_at_percent@),
        r.flushed is Some && r.celebrate is Some ==> text_of(r.celebrate->0.since) == Some(now@),
        r.flushed is None && r.celebrate is Some ==> text_of(r.celebrate->0.since) == text_of(
            state.since,
        ),
        r.ended_at is Some <==> cfg.enabled && !moved && (state.active || r.flushed is Some)
            && usage.seven_day is Some && usage.seven_day->0.utilization@ >= cfg.stop_at_percent@,
        r.ended_at matches Some(u) ==> usage.seven_day is Some && usage.seven_day->0.utilization
            == u,
        r.state matches Some(s) ==> !s.active && (state.active || r.flushed is Some)
            ==> s.since is None,
{
    if !cfg.enabled {
        return CelebrationOutcome { state: None, celebrate: None, flushed: None, ended_at: None };
    }
    let mut st = state;
    let (cur_util, cur_reset): (Option<Double>, Option<String>) = match &usage.seven_day {
        Some(m) => (Some(m.utilization), copy_text(&m.resets_at)),
        None => (None, None),
    };
    let mut flushed: Option<(Double, Double)> = None;
    if let (Some(cur), Some(prev)) = (cur_util, st.last_util) {
        if is_flush(prev, cur, moved, cfg.drop_threshold) {
            st.active = true;
            st.since = Some(now);
            flushed = Some((prev, cur));
        }
    }
    let mut ended_at: Option<Double> = None;
    if st.active {
        if moved {
            st.active = false;
            st.since = None;
        } else if let Some(cur) = cur_util {
            if cur.at_least(cfg.stop_at_percent) {
                st.active = false;
                st.since = None;
                ended_at = Some(cur);
            }
        }
    }
    st.last_util = cur_util;
    st.last_reset = cur_reset;
    let celebrate = if st.active {
        Some(
            Celebrate {
                active: true,
                since: copy_text(&st.since),
                reason: "Free weekly flush - fresh bucket".to_owned(),
            },
        )
    } else {
        None
    };
    CelebrationOutcome { state: Some(st), celebrate, flushed, ended_at }
}

/// Detects and tracks a free flush. Returns the party to show and the state to
/// keep. A flush is stamped with the local time at which it is detected.
pub fn update_celebration(
    state: CelebrateState,
    usage: &UsageResponse,
    cfg: CelebrationCfg,
) -> (r: CelebrationOutcome)
    ensures
        exists|now: Seq<char>|
            is_stamp(now) && r@ == #[trigger] outcome(
                state@,
                usage@.seven_day,
                cfg,
                now,
                anchor_moved(state@, usage@.seven_day, cfg),
            ),
        ({
            let known = usage.seven_day is Some && usage.seven_day->0.resets_at is Some
                && state.last_reset is Some && rfc3339_instant(
                usage.seven_day->0.resets_at->0@,
            ) is Some && rfc3339_instant(state.last_reset->0@) is Some;
            let reset = known && ({
                let seconds = whole_seconds(
                    rfc3339_instant(usage.seven_day->0.resets_at->0@)->0,
                    rfc3339_instant(state.last_reset->0@)->0,
                );
                seconds > cfg.anchor_tolerance_seconds || 0 < cfg.anchor_tolerance_seconds
                    == seconds
            });
            &&& r.flushed is Some <==> cfg.enabled && !reset && usage.seven_day is Some
                && state.last_util is Some && rounded(
                state.last_util->0@ - usage.seven_day->0.utilization@,
            ) >= cfg.drop_threshold@
            &&& r.celebrate is Some <==> cfg.enabled && !reset && (state.active
                || r.flushed is Some) && (usage.seven_day matches Some(m) ==> m.utilization@
                < cfg.stop_at_percent@)
        }),
{
    let moved = match &usage.seven_day {
        Some(m) => anchor_advanced(
            &m.resets_at,
            &state.last_reset,
            cfg.anchor_tolerance_seconds,
        ),
        None => false,
    };
    assert(moved == anchor_moved(state@, usage@.seven_day, cfg));
    let now = local_now();
    celebration_step(state, usage, cfg, now, moved)
}

/// A weekly reading from the history: timestamp, utilization, reset anchor.
pub type Reading = (String, Double, Option<String>);

/// What the scan of the history goes by: utilization and anchor of a reading.
pub type Point = (Double, Option<(i64, u32)>);

/// The points of a history.
pub open spec fn points_of(readings: Seq<Reading>) -> Seq<Point> {
    readings.map_values(|r: Reading| (r.1, instant_of(text_of(r.2))))
}

/// Whether the anchor jumped forward from the point `i` to the point `j`.
pub open spec fn jumped(points: Seq<Point>, i: int, j: int, cfg: CelebrationCfg) -> bool {
    later(points[j].1, points[i].1, cfg.anchor_tolerance_seconds as int)
}

/// Whether the point `i` is a flush against the one before it.
pub open spec fn flush_at(points: Seq<Point>, i: int, cfg: CelebrationCfg) -> bool {
    1 <= i < points.len() && flush(
        points[i - 1].0@,
        points[i].0@,
        jumped(points, i - 1, i, cfg),
        cfg.drop_threshold@,
    )
}

/// Whether usage at the point `j` is back at the stop threshold.
pub open spec fn dented_at(points: Seq<Point>, j: int, cfg: CelebrationCfg) -> bool {
    points[j].0@ >= cfg.stop_at_percent@
}

/// Whether `k` is the first point from `start` on whose anchor is known: `start`
/// itself where its anchor is.
pub open spec fn first_known(points: Seq<Point>, start: int, k: int) -> bool {
    &&& start <= k < points.len()
    &&& points[k].1 is Some
    &&& forall|i: int| start <= i < k ==> (#[trigger] points[i]).1 is None
}

/// Whether a scheduled reset came between `start` and the point `j`: the anchor
/// of `j` is ahead of the first known one from `start` on.
pub open spec fn reset_since(points: Seq<Point>, start: int, j: int, cfg: CelebrationCfg) -> bool {
    exists|k: int| #[trigger] first_known(points, start, k) && k < j && jumped(points, k, j, cfg)
}

/// Whether the point `j` ends the party that began at `start`: usage is back at
/// the stop threshold, or a scheduled reset came since.
pub open spec fn consumed_at(points: Seq<Point>, start: int, j: int, cfg: CelebrationCfg) -> bool {
    dented_at(points, j, cfg) || reset_since(points, start, j, cfg)
}

/// Whether `start` is the latest flush: a later one supersedes an earlier one.
pub open spec fn latest_flush(points: Seq<Point>, start: int, cfg: CelebrationCfg) -> bool {
    flush_at(points, start, cfg) && forall|j: int| start < j ==> !#[trigger] flush_at(points, j, cfg)
}

/// Whether a party is live that began at `start`: it is the latest flush, and no
/// point from there on has ended it.
pub open spec fn live_flush(points: Seq<Point>, start: int, cfg: CelebrationCfg) -> bool {
    &&& cfg.enabled
    &&& latest_flush(points, start, cfg)
    &&& forall|j: int| start <= j < points.len() ==> !#[trigger] consumed_at(points, start, j, cfg)
}

/// Whether the anchor jumped forward, both instants being valid where known.
fn instant_advanced(
    cur: Option<(i64, u32)>,
    prev: Option<(i64, u32)>,
    tolerance_seconds: i64,
) -> (r: bool)
    requires
        cur matches Some(x) ==> valid_instant(x),
        prev matches Some(y) ==> valid_instant(y),
    ensures
        r == later(cur, prev, tolerance_seconds as int),
        r ==> cur is Some && prev is Some,
        cur is Some && prev is Some ==> {
            &&& whole_seconds(cur->0, prev->0) > tolerance_seconds ==> r
            &&& whole_seconds(cur->0, prev->0) < tolerance_seconds ==> !r
            &&& whole_seconds(cur->0, prev->0) == tolerance_seconds ==> r == (tolerance_seconds
                > 0)
        },
{
    match delta_seconds(cur, prev) {
        Some(seconds) => reaches(seconds, tolerance_seconds),
        None => false,
    }
}

/// Scans points of the weekly history, oldest first, for a free flush that should
/// still be celebrating now, and returns its index.
pub fn find_live_flush(points: &[Point], cfg: CelebrationCfg) -> (r: Option<usize>)
    requires
        forall|i: int|
            0 <= i < points@.len() ==> ((#[trigger] points@[i]).1 matches Some(t) ==> valid_instant(
                t,
            )),
    ensures
        r matches Some(i) ==> live_flush(points@, i as int, cfg),
        r is None ==> forall|i: int| !#[trigger] live_flush(points@, i, cfg),
        r matches Some(i) ==> {
            &&& cfg.enabled
            &&& 1 <= i < points@.len()
            &&& rounded(points@[i - 1].0@ - points@[i as int].0@) >= cfg.drop_threshold@
            &&& forall|j: int|
                i <= j < points@.len() ==> (#[trigger] points@[j]).0@ < cfg.stop_at_percent@
        },
{
    if !cfg.enabled || points.len() < 2 {
        return None;
    }
    let mut latest: Option<usize> = None;
    let mut i: usize = 1;
    while i < points.len()
        invariant
            1 <= i <= points@.len(),
            forall|k: int|
                0 <= k < points@.len() ==> ((#[trigger] points@[k]).1 matches Some(t)
                    ==> valid_instant(t)),
            latest matches Some(k) ==> k < i && flush_at(points@, k as int, cfg),
            forall|j: int|
                (match latest {
                    Some(k) => (k as int) < j,
                    None => true,
                }) && j < i ==> !#[trigger] flush_at(points@, j, cfg),
        decreases points@.len() - i,
    {
        let moved = instant_advanced(points[i].1, points[i - 1].1, cfg.anchor_tolerance_seconds);
        if is_flush(points[i - 1].0, points[i].0, moved, cfg.drop_threshold) {
            latest = Some(i);
        }
        i = i + 1;
    }
    let start = match latest {
        Some(k) => k,
        None => {
            return None;
        },
    };
    assert(latest_flush(points@, start as int, cfg));
    // The first known anchor from the flush on.
    let mut anchor: Option<(i64, u32)> = None;
    let mut j: usize = start;
    while j < points.len()
        invariant
            start <= j <= points@.len(),
            start < points@.len(),
            forall|k: int|
                0 <= k < points@.len() ==> ((#[trigger] points@[k]).1 matches Some(t)
                    ==> valid_instant(t)),
            latest_flush(points@, start as int, cfg),
            anchor is Some ==> exists|k: int| #[trigger]
                first_known(points@, start as int, k) && k < j && points@[k].1 == anchor,
            anchor is None ==> forall|k: int|
                start <= k < j ==> (#[trigger] points@[k]).1 is None,
            forall|k: int|
                start <= k < j ==> !#[trigger] consumed_at(points@, start as int, k, cfg),
        decreases points@.len() - j,
    {
        let ahead = instant_advanced(points[j].1, anchor, cfg.anchor_tolerance_seconds);
        proof {
            assert(ahead == reset_since(points@, start as int, j as int, cfg)) by {
                if let Some(_) = anchor {
                    let k = choose|k: int| #[trigger]
                        first_known(points@, start as int, k) && k < j && points@[k].1 == anchor;
                    assert(first_known(points@, start as int, k));
                    if reset_since(points@, start as int, j as int, cfg) {
                        let m = choose|m: int| #[trigger]
                            first_known(points@, start as int, m) && m < j && jumped(
                                points@,
                                m,
                                j as int,
                                cfg,
                            );
                        lemma_first_known_is_unique(points@, start as int, k, m);
                    }
                }
            }
        }
        if points[j].0.at_least(cfg.stop_at_percent) || ahead {
            proof {
                assert(consumed_at(points@, start as int, j as int, cfg));
                assert forall|k: int| !#[trigger] live_flush(points@, k, cfg) by {
                    if live_flush(points@, k, cfg) {
                        lemma_latest_flush_is_unique(points@, start as int, k, cfg);
                    }
                }
            }
            return None;
        }
        if anchor.is_none() {
            anchor = points[j].1;
            proof {
                if anchor is Some {
                    assert(first_known(points@, start as int, j as int));
                }
            }
        }
        j = j + 1;
    }
    proof {
        assert forall|k: int| start <= k < points@.len() implies (#[trigger] points@[k]).0@
            < cfg.stop_at_percent@ by {
            assert(!consumed_at(points@, start as int, k, cfg));
        }
    }
    Some(start)
}

/// Scans recent weekly history, oldest first, for a free flush that should still
/// be celebrating now, and returns the index of that reading.
///
/// A party is live iff the latest flush is followed by no reading that climbed
/// back to the stop threshold and by no scheduled reset. The flush reading itself
/// is part of that check, so a drop that merely lands high does not party. A
/// scheduled reset is a jump of the anchor from the first one that is known from
/// the flush on, which is the flush's own where it has one.
pub fn detect_live_flush(readings: &[Reading], cfg: CelebrationCfg) -> (r: Option<usize>)
    ensures
        r matches Some(i) ==> live_flush(points_of(readings@), i as int, cfg),
        r is None ==> forall|i: int| !#[trigger] live_flush(points_of(readings@), i, cfg),
        r matches Some(i) ==> {
            &&& cfg.enabled
            &&& 1 <= i < readings@.len()
            &&& rounded(readings@[i - 1].1@ - readings@[i as int].1@) >= cfg.drop_threshold@
            &&& forall|j: int|
                i <= j < readings@.len() ==> (#[trigger] readings@[j]).1@ < cfg.stop_at_percent@
        },
{
    let mut points: Vec<Point> = Vec::new();
    let mut i: usize = 0;
    while i < readings.len()
        invariant
            i <= readings@.len(),
            points@ =~= points_of(readings@).take(i as int),
            forall|k: int|
                0 <= k < points@.len() ==> ((#[trigger] points@[k]).1 matches Some(t)
                    ==> valid_instant(t)),
        decreases readings@.len() - i,
    {
        let anchor = match &readings[i].2 {
            Some(text) => parse_instant(text.as_str()),
            None => None,
        };
        let ghost before = points@;
        points.push((readings[i].1, anchor));
        assert(points@ =~= before.push(points_of(readings@)[i as int]));
        i = i + 1;
    }
    assert(points@ =~= points_of(readings@));
    let r = find_live_flush(points.as_slice(), cfg);
    proof {
        assert forall|k: int| 0 <= k < readings@.len() implies (#[trigger] readings@[k]).1
            == points@[k].0 by {
            assert(points@[k] == points_of(readings@)[k]);
        }
    }
    r
}

/// The state of a party that began at the reading `start`, after the last
/// reading.
pub open spec fn resumed(readings: Seq<Reading>, start: int) -> StateView {
    StateView {
        last_util: Some(readings.last().1),
        last_reset: text_of(readings.last().2),
        active: true,
        since: Some(readings[start].0@),
    }
}

/// The state of a party that began at the reading `start`, after the last
/// reading.
pub fn resume(readings: &[Reading], start: usize) -> (r: CelebrateState)
    requires
        start < readings@.len(),
    ensures
        r@ == resumed(readings@, start as int),
        r.active,
        r.since is Some && r.since->0@ == readings@[start as int].0@,
        r.last_util == Some(readings@.last().1),
        text_of(r.last_reset) == text_of(readings@.last().2),
{
    let last = &readings[readings.len() - 1];
    CelebrateState {
        last_util: Some(last.1),
        last_reset: copy_text(&last.2),
        active: true,
        since: Some(readings[start].0.clone()),
    }
}

/// At startup, resumes a free-flush party that is still live in the history but
/// was never recorded: the app was down when the flush happened. Nothing is
/// resumed while the celebration is off or a party is already active.
pub fn backfill_celebration(
    current: &CelebrateState,
    readings: &[Reading],
    cfg: CelebrationCfg,
) -> (r: Option<CelebrateState>)
    ensures
        r matches Some(state) ==> !current.active && exists|start: int| #[trigger]
            live_flush(points_of(readings@), start, cfg) && state@ == resumed(readings@, start),
        r is None ==> current.active || forall|start: int| !#[trigger] live_flush(
            points_of(readings@),
            start,
            cfg,
        ),
        r matches Some(state) ==> {
            &&& cfg.enabled && state.active
            &&& state.last_util == Some(readings@.last().1)
            &&& text_of(state.last_reset) == text_of(readings@.last().2)
            &&& exists|start: int|
                1 <= start < readings@.len() && state.since is Some && state.since->0@ == (
                #[trigger] readings@[start]).0@ && rounded(
                    readings@[start - 1].1@ - readings@[start].1@,
                ) >= cfg.drop_threshold@
        },
{
    if !cfg.enabled || current.active {
        return None;
    }
    match detect_live_flush(readings, cfg) {
        Some(start) => {
            assert(live_flush(points_of(readings@), start as int, cfg));
            Some(resume(readings, start))
        },
        None => None,
    }
}

/// The further an anchor moves, the more it is a jump: one that moved as far as
/// a jump or further jumped too. A move of more than the tolerance is a jump
/// however long it is, one of less is none, and without two known instants there
/// is none.
pub proof fn law_jumps_go_by_the_distance(
    cur: (i64, u32),
    further: (i64, u32),
    prev: (i64, u32),
    tolerance: int,
)
    ensures
        whole_seconds(further, prev) >= whole_seconds(cur, prev) && later(
            Some(cur),
            Some(prev),
            tolerance,
        ) ==> later(Some(further), Some(prev), tolerance),
        whole_seconds(cur, prev) > tolerance ==> later(Some(cur), Some(prev), tolerance),
        whole_seconds(cur, prev) < tolerance ==> !later(Some(cur), Some(prev), tolerance),
        whole_seconds(cur, prev) == tolerance ==> later(Some(cur), Some(prev), tolerance) == (
        tolerance > 0),
        !later(None, Some(prev), tolerance),
        !later(Some(cur), None, tolerance),
        !later(None, None, tolerance),
{
}

/// The same of anchors given as texts, and of the anchor of a poll against the
/// one that was kept.
pub proof fn law_jumps_go_by_the_timestamps(
    state: StateView,
    metric: MetricView,
    cfg: CelebrationCfg,
)
    ensures
        anchor_moved(state, Some(metric), cfg) ==> metric.resets_at is Some
            && state.last_reset is Some && rfc3339_instant(metric.resets_at->0) is Some
            && rfc3339_instant(state.last_reset->0) is Some,
        metric.resets_at is Some && state.last_reset is Some && rfc3339_instant(
            metric.resets_at->0,
        ) is Some && rfc3339_instant(state.last_reset->0) is Some ==> ({
            let seconds = whole_seconds(
                rfc3339_instant(metric.resets_at->0)->0,
                rfc3339_instant(state.last_reset->0)->0,
            );
            &&& seconds > cfg.anchor_tolerance_seconds ==> anchor_moved(state, Some(metric), cfg)
            &&& seconds < cfg.anchor_tolerance_seconds ==> !anchor_moved(state, Some(metric), cfg)
        }),
        !anchor_moved(state, None, cfg),
{
}

/// An anchor that did not move held, at every tolerance but a negative one.
pub proof fn law_unmoved_anchor_holds(anchor: Option<Seq<char>>, tolerance: int)
    requires
        tolerance >= 0,
    ensures
        !advanced(anchor, anchor, tolerance),
{
}

/// A flush is a flush at every lower threshold and for every larger drop, and
/// a drop that stays below the threshold after rounding is none.
pub proof fn law_flush_goes_by_the_drop(
    prev: int,
    cur: int,
    higher: int,
    threshold: int,
    lower: int,
)
    requires
        higher >= prev,
        lower <= threshold,
    ensures
        flush(prev, cur, false, threshold) ==> flush(higher, cur, false, lower),
        rounded(prev - cur) < threshold ==> !flush(prev, cur, false, threshold),
        rounded(prev - cur) >= threshold ==> flush(prev, cur, false, threshold),
        !flush(prev, cur, true, threshold),
{
    law_rounding_is_monotone(prev - cur, higher - cur);
}

/// A drop of at least the threshold is a flush while the anchor holds; it is
/// none once the anchor jumped; and with a positive threshold a reading that did
/// not fall is never one.
pub proof fn law_flush(prev: Double, cur: Double, anchor_advanced: bool, threshold: Double)
    ensures
        prev@ - cur@ >= threshold@ && !anchor_advanced ==> flush(
            prev@,
            cur@,
            anchor_advanced,
            threshold@,
        ),
        anchor_advanced ==> !flush(prev@, cur@, anchor_advanced, threshold@),
        cur@ >= prev@ && threshold@ > 0 ==> !flush(prev@, cur@, anchor_advanced, threshold@),
{
    if prev@ - cur@ >= threshold@ {
        law_numbers_are_exact(threshold);
        law_rounding_is_monotone(threshold@, prev@ - cur@);
    }
    if cur@ >= prev@ {
        law_rounding_is_monotone(prev@ - cur@, 0);
        assert(ulp(0) == 1);
        assert(rounded(0) == 0);
    }
}

/// Once live, a party stays up from poll to poll, however flat the readings,
/// until utilization is back at the stop threshold or a scheduled reset arrives;
/// and unless there is a new flush it keeps the time at which it began.
pub proof fn law_party_persists(
    state: StateView,
    week: Option<MetricView>,
    cfg: CelebrationCfg,
    now: Seq<char>,
    moved: bool,
)
    requires
        cfg.enabled,
        state.active,
        !moved,
        !dented(week, cfg),
    ensures
        outcome(state, week, cfg, now, moved).state == Some(stepped(state, week, cfg, now, moved)),
        stepped(state, week, cfg, now, moved).active,
        outcome(state, week, cfg, now, moved).celebrate is Some,
        flush_event(state, week, cfg, moved) is None ==> stepped(
            state,
            week,
            cfg,
            now,
            moved,
        ).since == state.since,
{
}

/// A party is over as soon as utilization is back at the stop threshold or a
/// scheduled reset arrives, and nothing is shown of it.
pub proof fn law_party_ends(
    state: StateView,
    week: Option<MetricView>,
    cfg: CelebrationCfg,
    now: Seq<char>,
    moved: bool,
)
    requires
        moved || dented(week, cfg),
    ensures
        !stepped(state, week, cfg, now, moved).active,
        outcome(state, week, cfg, now, moved).celebrate is None,
{
}

/// A party begins with a flush that lands below the stop threshold, and with
/// nothing else; it is stamped with the time of the poll.
pub proof fn law_party_begins_with_a_flush(
    state: StateView,
    week: Option<MetricView>,
    cfg: CelebrationCfg,
    now: Seq<char>,
    moved: bool,
)
    requires
        !state.active,
    ensures
        outcome(state, week, cfg, now, moved).celebrate is Some <==> cfg.enabled && flush_event(
            state,
            week,
            cfg,
            moved,
        ) is Some && !dented(week, cfg),
        outcome(state, week, cfg, now, moved).celebrate matches Some(c) ==> c.since == Some(now),
{
}

/// Every poll is remembered for the next one: its utilization and its anchor, or
/// that there was none.
pub proof fn law_reading_is_remembered(
    state: StateView,
    week: Option<MetricView>,
    cfg: CelebrationCfg,
    now: Seq<char>,
    moved: bool,
)
    requires
        cfg.enabled,
    ensures
        outcome(state, week, cfg, now, moved).state is Some,
        week matches Some(m) ==> {
            &&& outcome(state, week, cfg, now, moved).state->0.last_util == Some(m.utilization)
            &&& outcome(state, week, cfg, now, moved).state->0.last_reset == m.resets_at
        },
        week is None ==> {
            &&& outcome(state, week, cfg, now, moved).state->0.last_util is None
            &&& outcome(state, week, cfg, now, moved).state->0.last_reset is None
        },
{
}

/// A drop by the threshold or more with the anchor held, landing below the stop
/// threshold, begins a party at the time of the poll, or begins a live one anew.
pub proof fn law_drop_begins_a_party(
    state: StateView,
    prev: Double,
    metric: MetricView,
    cfg: CelebrationCfg,
    now: Seq<char>,
)
    requires
        cfg.enabled,
        state.last_util == Some(prev),
        rounded(prev@ - metric.utilization@) >= cfg.drop_threshold@,
    ensures
        ({
            let o = outcome(state, Some(metric), cfg, now, false);
            &&& o.flushed == Some((prev, metric.utilization))
            &&& metric.utilization@ < cfg.stop_at_percent@ ==> {
                &&& o.state is Some && o.state->0.active && o.state->0.since == Some(now)
                &&& o.celebrate is Some && o.celebrate->0.active
                &&& o.celebrate->0.since == Some(now)
                &&& o.celebrate->0.reason == "Free weekly flush - fresh bucket"@
                &&& o.ended_at is None
            }
            &&& metric.utilization@ >= cfg.stop_at_percent@ ==> {
                &&& o.celebrate is None && !o.state->0.active && o.state->0.since is None
                &&& o.ended_at == Some(metric.utilization)
            }
        }),
{
}

/// Without a drop by the threshold, without a reading to compare or with the
/// anchor jumped there is no flush: then no party begins, a live one is kept
/// as it is or ended, and a poll without a weekly reading changes nothing of it.
pub proof fn law_no_party_without_a_flush(
    state: StateView,
    week: Option<MetricView>,
    cfg: CelebrationCfg,
    now: Seq<char>,
    moved: bool,
)
    requires
        cfg.enabled,
        moved || week is None || state.last_util is None || rounded(
            state.last_util->0@ - week->0.utilization@,
        ) < cfg.drop_threshold@,
    ensures
        ({
            let o = outcome(state, week, cfg, now, moved);
            &&& o.flushed is None
            &&& !state.active ==> o.celebrate is None && !o.state->0.active && o.ended_at is None
                && o.state->0.since == state.since
            &&& state.active && !moved && (week is Some ==> week->0.utilization@
                < cfg.stop_at_percent@) ==> {
                &&& o.state->0.active && o.state->0.since == state.since && o.ended_at is None
                &&& o.celebrate is Some && o.celebrate->0.active
                &&& o.celebrate->0.since == state.since
                &&& o.celebrate->0.reason == "Free weekly flush - fresh bucket"@
            }
            &&& state.active && !moved && week is Some && week->0.utilization@
                >= cfg.stop_at_percent@ ==> {
                &&& o.celebrate is None && !o.state->0.active && o.state->0.since is None
                &&& o.ended_at == Some(week->0.utilization)
            }
            &&& state.active && moved ==> {
                &&& o.celebrate is None && !o.state->0.active && o.state->0.since is None
                &&& o.ended_at is None
            }
        }),
{
}

/// Switched off, the celebration shows nothing and keeps nothing, so that
/// switching it on again starts clean.
pub proof fn law_disabled_is_clean(
    state: StateView,
    week: Option<MetricView>,
    cfg: CelebrationCfg,
    now: Seq<char>,
    moved: bool,
)
    requires
        !cfg.enabled,
    ensures
        outcome(state, week, cfg, now, moved).state is None,
        outcome(state, week, cfg, now, moved).celebrate is None,
        outcome(state, week, cfg, now, moved).flushed is None,
        outcome(state, week, cfg, now, moved).ended_at is None,
{
}

proof fn lemma_first_known_is_unique(points: Seq<Point>, start: int, a: int, b: int)
    requires
        first_known(points, start, a),
        first_known(points, start, b),
    ensures
        a == b,
{
    if a < b {
        assert(points[a].1 is None);
    } else if b < a {
        assert(points[b].1 is None);
    }
}

proof fn lemma_latest_flush_is_unique(points: Seq<Point>, a: int, b: int, cfg: CelebrationCfg)
    requires
        latest_flush(points, a, cfg),
        latest_flush(points, b, cfg),
    ensures
        a == b,
{
    if a < b {
        assert(!flush_at(points, b, cfg));
    } else if b < a {
        assert(!flush_at(points, a, cfg));
    }
}

/// The points of a history are its readings: their utilizations, and the
/// instants of their anchors where those are timestamps.
pub proof fn law_points_are_the_readings(readings: Seq<Reading>)
    ensures
        points_of(readings).len() == readings.len(),
        forall|i: int|
            0 <= i < readings.len() ==> {
                &&& (#[trigger] points_of(readings)[i]).0 == readings[i].1
                &&& readings[i].2 is None ==> points_of(readings)[i].1 is None
                &&& readings[i].2 is Some ==> points_of(readings)[i].1 == rfc3339_instant(
                    readings[i].2->0@,
                )
            },
{
}

/// A point of a history is a flush iff utilization fell by the threshold or more
/// since the point before it, and the anchor did not move by more than the
/// tolerance, nor by all of it, as far as both anchors are known.
pub proof fn law_flush_in_a_history(points: Seq<Point>, i: int, cfg: CelebrationCfg)
    requires
        1 <= i < points.len(),
    ensures
        ({
            let seconds = whole_seconds(points[i].1->0, points[i - 1].1->0);
            let known = points[i].1 is Some && points[i - 1].1 is Some;
            let tolerance = cfg.anchor_tolerance_seconds;
            flush_at(points, i, cfg) <==> rounded(points[i - 1].0@ - points[i].0@)
                >= cfg.drop_threshold@ && !(known && (seconds > tolerance || (tolerance > 0
                && seconds == tolerance)))
        }),
        !flush_at(points, 0, cfg),
        !flush_at(points, points.len() as int, cfg),
{
}

/// What a live party tells of the history: it began with a flush, no later point
/// is one, usage is below the stop threshold at every point from there on, and no
/// anchor is ahead of the first known one by more than the tolerance, nor by all
/// of it.
pub proof fn law_live_flush_needs(
    points: Seq<Point>,
    start: int,
    k: int,
    j: int,
    cfg: CelebrationCfg,
)
    requires
        live_flush(points, start, cfg),
        start <= k < j < points.len(),
    ensures
        cfg.enabled,
        flush_at(points, start, cfg),
        !flush_at(points, j, cfg),
        points[start].0@ < cfg.stop_at_percent@,
        points[j].0@ < cfg.stop_at_percent@,
        points[k].1 is Some && points[j].1 is Some && (forall|i: int|
            start <= i < k ==> (#[trigger] points[i]).1 is None) ==> ({
            let seconds = whole_seconds(points[j].1->0, points[k].1->0);
            let tolerance = cfg.anchor_tolerance_seconds;
            seconds <= tolerance && (tolerance > 0 ==> seconds < tolerance)
        }),
{
    assert(!consumed_at(points, start, start, cfg));
    assert(!consumed_at(points, start, j, cfg));
    if points[k].1 is Some && (forall|i: int|
        start <= i < k ==> (#[trigger] points[i]).1 is None) {
        assert(first_known(points, start, k));
        assert(!jumped(points, k, j, cfg));
    }
}

/// And that is enough: a flush that nothing of the kind followed is live.
pub proof fn law_live_flush_suffices(points: Seq<Point>, start: int, cfg: CelebrationCfg)
    requires
        cfg.enabled,
        1 <= start < points.len(),
        flush_at(points, start, cfg),
        forall|j: int| start < j < points.len() ==> !#[trigger] flush_at(points, j, cfg),
        forall|j: int|
            start <= j < points.len() ==> (#[trigger] points[j]).0@ < cfg.stop_at_percent@,
        forall|k: int, j: int|
            start <= k < j < points.len() && (#[trigger] points[k]).1 is Some && (
            #[trigger] points[j]).1 is Some && (forall|i: int|
                start <= i < k ==> (#[trigger] points[i]).1 is None) ==> whole_seconds(
                points[j].1->0,
                points[k].1->0,
            ) <= cfg.anchor_tolerance_seconds && (cfg.anchor_tolerance_seconds > 0
                ==> whole_seconds(points[j].1->0, points[k].1->0) < cfg.anchor_tolerance_seconds),
    ensures
        live_flush(points, start, cfg),
{
    assert forall|j: int| start <= j < points.len() implies !#[trigger] consumed_at(
        points,
        start,
        j,
        cfg,
    ) by {
        assert(points[j].0@ < cfg.stop_at_percent@);
        if reset_since(points, start, j, cfg) {
            let k = choose|k: int| #[trigger]
                first_known(points, start, k) && k < j && jumped(points, k, j, cfg);
            assert(points[k].1 is Some && points[j].1 is Some);
        }
    }
}

/// At most one point of a history is the beginning of a live party.
pub proof fn law_live_flush_is_unique(points: Seq<Point>, a: int, b: int, cfg: CelebrationCfg)
    requires
        live_flush(points, a, cfg),
        live_flush(points, b, cfg),
    ensures
        a == b,
{
    lemma_latest_flush_is_unique(points, a, b, cfg);
}

/// The metric of a reading.
pub open spec fn reading_metric(reading: Reading) -> Option<MetricView> {
    Some(MetricView { utilization: reading.1, resets_at: text_of(reading.2) })
}

/// The celebration state after polling every reading, each at its timestamp.
pub open spec fn replayed(readings: Seq<Reading>, cfg: CelebrationCfg) -> StateView
    decreases readings.len(),
{
    if readings.len() == 0 {
        idle()
    } else {
        let before = replayed(readings.drop_last(), cfg);
        let week = reading_metric(readings.last());
        stepped(before, week, cfg, readings.last().0@, anchor_moved(before, week, cfg))
    }
}

/// Whether polling all along would be in the party that began at `start`: it is
/// the latest flush, no reading from there on dents the bucket, and the anchor
/// does not jump from one reading to the next.
pub open spec fn polled_flush(points: Seq<Point>, start: int, cfg: CelebrationCfg) -> bool {
    &&& latest_flush(points, start, cfg)
    &&& forall|j: int| start <= j < points.len() ==> !#[trigger] dented_at(points, j, cfg)
    &&& forall|j: int| start < j < points.len() ==> !#[trigger] jumped(points, j - 1, j, cfg)
}

/// Polling is in a party iff the latest flush was followed by no dent and no
/// jump of the anchor, and then the party began at that flush.
pub proof fn law_polling_follows_the_latest_flush(readings: Seq<Reading>, cfg: CelebrationCfg)
    ensures
        forall|start: int| #[trigger]
            polled_flush(points_of(readings), start, cfg) ==> replayed(readings, cfg) == resumed(
                readings,
                start,
            ),
        replayed(readings, cfg).active ==> exists|start: int| #[trigger]
            polled_flush(points_of(readings), start, cfg),
    decreases readings.len(),
{
    if readings.len() > 0 {
        let earlier = readings.drop_last();
        let old_points = points_of(earlier);
        let points = points_of(readings);
        let i = readings.len() - 1;
        law_polling_follows_the_latest_flush(earlier, cfg);
        lemma_replay_remembers(earlier, cfg);
        let before = replayed(earlier, cfg);
        let after = replayed(readings, cfg);
        let week = reading_metric(readings.last());
        let moved = anchor_moved(before, week, cfg);
        assert(old_points =~= points.drop_last());
        if i > 0 {
            assert(old_points[i - 1] == points[i - 1]);
            assert(moved == jumped(points, i - 1, i, cfg));
        }
        assert(flush_event(before, week, cfg, moved) is Some == flush_at(points, i, cfg));
        assert(dented(week, cfg) == dented_at(points, i, cfg));
        assert forall|s: int| s < i implies #[trigger] polled_flush(points, s, cfg) == (
        polled_flush(old_points, s, cfg) && !flush_at(points, i, cfg) && !dented(week, cfg)
            && !moved) by {
            lemma_polled_extends(points, s, cfg);
            if flush_at(points, s, cfg) {
                assert(i > 0);
            }
        }
        assert(polled_flush(points, i, cfg) == (flush_at(points, i, cfg) && !dented(week, cfg)));
        assert forall|s: int| #[trigger] polled_flush(points, s, cfg) implies after == resumed(
            readings,
            s,
        ) by {
            assert(s <= i);
            if s < i {
                assert(polled_flush(old_points, s, cfg));
                assert(before == resumed(earlier, s));
                assert(earlier[s] == readings[s]);
            }
        }
        if after.active {
            if flush_at(points, i, cfg) {
                assert(polled_flush(points, i, cfg));
            } else {
                let s = choose|s: int| #[trigger] polled_flush(old_points, s, cfg);
                assert(polled_flush(old_points, s, cfg));
                assert(s < i);
                assert(polled_flush(points, s, cfg));
            }
        }
    }
}

/// Polling remembers the last reading.
proof fn lemma_replay_remembers(readings: Seq<Reading>, cfg: CelebrationCfg)
    ensures
        readings.len() == 0 ==> replayed(readings, cfg) == idle(),
        readings.len() > 0 ==> {
            &&& replayed(readings, cfg).last_util == Some(readings.last().1)
            &&& replayed(readings, cfg).last_reset == text_of(readings.last().2)
        },
{
}

/// Whether polling is still in a party after one more point.
proof fn lemma_polled_extends(points: Seq<Point>, s: int, cfg: CelebrationCfg)
    requires
        points.len() > 0,
        s < points.len() - 1,
    ensures
        ({
            let i = points.len() - 1;
            polled_flush(points, s, cfg) == (polled_flush(points.drop_last(), s, cfg) && !flush_at(
                points,
                i,
                cfg,
            ) && !dented_at(points, i, cfg) && !jumped(points, i - 1, i, cfg))
        }),
{
    let earlier = points.drop_last();
    let i = points.len() - 1;
    assert forall|j: int| j != i implies flush_at(earlier, j, cfg) == #[trigger] flush_at(
        points,
        j,
        cfg,
    ) by {}
    if polled_flush(points, s, cfg) {
        assert(!dented_at(points, i, cfg) && !jumped(points, i - 1, i, cfg));
        assert forall|j: int| s < j implies !#[trigger] flush_at(earlier, j, cfg) by {
            assert(!flush_at(points, j, cfg));
        }
        assert forall|j: int| s <= j < earlier.len() implies !#[trigger] dented_at(
            earlier,
            j,
            cfg,
        ) by {
            assert(!dented_at(points, j, cfg));
        }
        assert forall|j: int| s < j < earlier.len() implies !#[trigger] jumped(
            earlier,
            j - 1,
            j,
            cfg,
        ) by {
            assert(!jumped(points, j - 1, j, cfg));
        }
        assert(flush_at(earlier, s, cfg));
    }
    if polled_flush(earlier, s, cfg) && !flush_at(points, i, cfg) && !dented_at(points, i, cfg)
        && !jumped(points, i - 1, i, cfg) {
        assert forall|j: int| s < j implies !#[trigger] flush_at(points, j, cfg) by {
            if j != i {
                assert(!flush_at(earlier, j, cfg));
            }
        }
        assert forall|j: int| s <= j < points.len() implies !#[trigger] dented_at(
            points,
            j,
            cfg,
        ) by {
            if j < i {
                assert(!dented_at(earlier, j, cfg));
            }
        }
        assert forall|j: int| s < j < points.len() implies !#[trigger] jumped(
            points,
            j - 1,
            j,
            cfg,
        ) by {
            if j < i {
                assert(!jumped(earlier, j - 1, j, cfg));
            }
        }
        assert(flush_at(points, s, cfg));
    }
}

/// Whether looking from reading to reading and looking back to the flush agree on
/// the scheduled resets since the latest flush: the anchor jumps from one reading
/// to the next iff some reading's anchor is ahead of the first known one. It does
/// not matter where usage has dented the bucket anyway.
pub open spec fn resets_agree(points: Seq<Point>, cfg: CelebrationCfg) -> bool {
    forall|start: int| #[trigger]
        latest_flush(points, start, cfg) && (forall|j: int|
            start <= j < points.len() ==> !#[trigger] dented_at(points, j, cfg)) ==> ((exists|
            j: int,
        |
            start < j < points.len() && #[trigger] jumped(points, j - 1, j, cfg)) <==> (exists|
            j: int,
        |
            start <= j < points.len() && #[trigger] reset_since(points, start, j, cfg)))
}

/// A flush that happened while the app was down is not missed: the party that the
/// startup scan finds in the history is the one that polling all along would be
/// in, down to its beginning, and there is one iff polling would be in one. Only
/// where the two ways to see a scheduled reset differ can the two differ: where
/// an anchor is missing in between, or creeps ahead little by little.
pub proof fn law_backfill_resumes_what_polling_would_show(
    readings: Seq<Reading>,
    cfg: CelebrationCfg,
)
    requires
        cfg.enabled,
        resets_agree(points_of(readings), cfg),
    ensures
        forall|start: int| #[trigger]
            live_flush(points_of(readings), start, cfg) ==> replayed(readings, cfg) == resumed(
                readings,
                start,
            ),
        replayed(readings, cfg).active ==> exists|start: int| #[trigger]
            live_flush(points_of(readings), start, cfg),
{
    let points = points_of(readings);
    law_polling_follows_the_latest_flush(readings, cfg);
    assert forall|start: int| #[trigger] live_flush(points, start, cfg) implies polled_flush(
        points,
        start,
        cfg,
    ) by {
        assert forall|j: int| start <= j < points.len() implies !#[trigger] dented_at(
            points,
            j,
            cfg,
        ) by {
            assert(!consumed_at(points, start, j, cfg));
        }
        assert(latest_flush(points, start, cfg));
        assert forall|j: int| start < j < points.len() implies !#[trigger] jumped(
            points,
            j - 1,
            j,
            cfg,
        ) by {
            if jumped(points, j - 1, j, cfg) {
                let k = choose|k: int|
                    start <= k < points.len() && #[trigger] reset_since(points, start, k, cfg);
                assert(!consumed_at(points, start, k, cfg));
            }
        }
    }
    if replayed(readings, cfg).active {
        let start = choose|start: int| #[trigger] polled_flush(points, start, cfg);
        assert(polled_flush(points, start, cfg));
        assert(latest_flush(points, start, cfg));
        assert forall|j: int| start <= j < points.len() implies !#[trigger] consumed_at(
            points,
            start,
            j,
            cfg,
        ) by {
            assert(!dented_at(points, j, cfg));
            if reset_since(points, start, j, cfg) {
                let k = choose|k: int|
                    start < k < points.len() && #[trigger] jumped(points, k - 1, k, cfg);
                assert(!jumped(points, k - 1, k, cfg));
            }
        }
        assert(live_flush(points, start, cfg));
    }
}

/// Whether the anchor goes by scheduled resets alone: once known it stays known,
/// and from one point to the next it stays the same or jumps.
pub open spec fn anchor_stays_or_jumps(points: Seq<Point>, cfg: CelebrationCfg) -> bool {
    forall|j: int|
        0 < j < points.len() && points[j - 1].1 is Some ==> points[j].1 == points[j - 1].1
            || #[trigger] jumped(points, j - 1, j, cfg)
}

/// Where the anchor goes by scheduled resets alone, the two ways to see one agree.
pub proof fn law_scheduled_resets_agree(points: Seq<Point>, cfg: CelebrationCfg)
    requires
        anchor_stays_or_jumps(points, cfg),
        cfg.anchor_tolerance_seconds >= 0,
    ensures
        resets_agree(points, cfg),
{
    assert forall|start: int| #[trigger] latest_flush(points, start, cfg) implies ((exists|j: int|
        start < j < points.len() && #[trigger] jumped(points, j - 1, j, cfg)) <==> (exists|j: int|
        start <= j < points.len() && #[trigger] reset_since(points, start, j, cfg))) by {
        if exists|j: int| start < j < points.len() && #[trigger] jumped(points, j - 1, j, cfg) {
            let j = choose|j: int|
                start < j < points.len() && #[trigger] jumped(points, j - 1, j, cfg);
            lemma_jump_is_seen(points, start, j, cfg);
        }
        if exists|j: int| start <= j < points.len() && #[trigger] reset_since(
            points,
            start,
            j,
            cfg,
        ) {
            let j = choose|j: int|
                start <= j < points.len() && #[trigger] reset_since(points, start, j, cfg);
            let k = choose|k: int| #[trigger]
                first_known(points, start, k) && k < j && jumped(points, k, j, cfg);
            lemma_jump_has_a_step(points, k, j, cfg);
            let i = choose|i: int| k < i <= j && #[trigger] jumped(points, i - 1, i, cfg);
            assert(start < i < points.len() && jumped(points, i - 1, i, cfg));
        }
    }
}

/// A jump from a point to the next is seen from the flush, there or earlier.
proof fn lemma_jump_is_seen(points: Seq<Point>, start: int, j: int, cfg: CelebrationCfg)
    requires
        anchor_stays_or_jumps(points, cfg),
        0 <= start < j < points.len(),
        jumped(points, j - 1, j, cfg),
    ensures
        exists|i: int| start <= i < points.len() && #[trigger] reset_since(points, start, i, cfg),
    decreases j,
{
    if exists|i: int| start < i < j && #[trigger] jumped(points, i - 1, i, cfg) {
        let i = choose|i: int| start < i < j && #[trigger] jumped(points, i - 1, i, cfg);
        lemma_jump_is_seen(points, start, i, cfg);
    } else {
        let k = lemma_known_since(points, start, j - 1, cfg);
        assert(first_known(points, start, k) && k < j && jumped(points, k, j, cfg));
        assert(reset_since(points, start, j, cfg));
    }
}

/// A known anchor that no jump led to is the first known one.
proof fn lemma_known_since(points: Seq<Point>, start: int, j: int, cfg: CelebrationCfg) -> (k: int)
    requires
        anchor_stays_or_jumps(points, cfg),
        0 <= start <= j < points.len(),
        points[j].1 is Some,
        forall|i: int| start < i <= j ==> !#[trigger] jumped(points, i - 1, i, cfg),
    ensures
        first_known(points, start, k),
        k <= j,
        points[k].1 == points[j].1,
    decreases j - start,
{
    if j == start {
        j
    } else if points[j - 1].1 is Some {
        assert(!jumped(points, j - 1, j, cfg));
        lemma_known_since(points, start, j - 1, cfg)
    } else {
        lemma_unknown_since(points, start, j - 1, cfg);
        j
    }
}

/// Before an unknown anchor there is none, where none is lost without a jump.
proof fn lemma_unknown_since(points: Seq<Point>, start: int, j: int, cfg: CelebrationCfg)
    requires
        anchor_stays_or_jumps(points, cfg),
        0 <= start <= j < points.len(),
        points[j].1 is None,
    ensures
        forall|i: int| start <= i <= j ==> (#[trigger] points[i]).1 is None,
    decreases j - start,
{
    if j > start {
        if points[j - 1].1 is Some {
            assert(!jumped(points, j - 1, j, cfg));
        } else {
            lemma_unknown_since(points, start, j - 1, cfg);
        }
    }
}

/// An anchor ahead of a known one got there by a jump.
proof fn lemma_jump_has_a_step(points: Seq<Point>, k: int, j: int, cfg: CelebrationCfg)
    requires
        anchor_stays_or_jumps(points, cfg),
        cfg.anchor_tolerance_seconds >= 0,
        0 <= k < j < points.len(),
        points[k].1 is Some,
        jumped(points, k, j, cfg),
    ensures
        exists|i: int| k < i <= j && #[trigger] jumped(points, i - 1, i, cfg),
{
    if forall|i: int| k < i <= j ==> !#[trigger] jumped(points, i - 1, i, cfg) {
        lemma_anchor_unchanged(points, k, j, cfg);
        assert(!jumped(points, k, j, cfg));
    }
}

proof fn lemma_anchor_unchanged(points: Seq<Point>, k: int, j: int, cfg: CelebrationCfg)
    requires
        anchor_stays_or_jumps(points, cfg),
        0 <= k <= j < points.len(),
        points[k].1 is Some,
        forall|i: int| k < i <= j ==> !#[trigger] jumped(points, i - 1, i, cfg),
    ensures
        points[j].1 == points[k].1,
    decreases j - k,
{
    if j > k {
        lemma_anchor_unchanged(points, k, j - 1, cfg);
        assert(!jumped(points, j - 1, j, cfg));
    }
}

/// The contents of a celebration state, of what is shown and of what a poll does
/// are all of it.
pub proof fn law_contents_of_a_celebration(
    state: CelebrateState,
    celebrate: Celebrate,
    o: CelebrationOutcome,
)
    ensures
        state@.last_util == state.last_util,
        state@.last_reset == text_of(state.last_reset),
        state@.active == state.active,
        state@.since == text_of(state.since),
        celebrate@.active == celebrate.active,
        celebrate@.since == text_of(celebrate.since),
        celebrate@.reason == celebrate.reason@,
        o.state matches Some(s) ==> o@.state == Some(s@),
        o.state is None ==> o@.state is None,
        o.celebrate matches Some(c) ==> o@.celebrate == Some(c@),
        o.celebrate is None ==> o@.celebrate is None,
        o@.flushed == o.flushed,
        o@.ended_at == o.ended_at,
{
}

} // verus!
