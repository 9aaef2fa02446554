//! Downgrade comparison: what the same usage would be on the next cheaper plan.

use vstd::prelude::*;
use vstd::string::StringExecFns;

use crate::double::{clamped, one, rounded, whole, Double};
use crate::text::{
    append_signed, begins_with, contains, contains_text, ends_with, lowercase, signed_decimal,
    to_lowercase,
};
use crate::usage::{MetricView, UsageResponse, UsageView};

verus! {

/// The tier that a plan label in lower case names, as a multiple of the Pro base
/// allowance. A bare "max" is taken for its entry tier.
pub open spec fn multiplier(lower: Seq<char>) -> Option<u32> {
    if contains_text(lower, "20x"@) {
        Some(20)
    } else if contains_text(lower, "5x"@) || contains_text(lower, "max"@) {
        Some(5)
    } else if contains_text(lower, "pro"@) {
        Some(1)
    } else {
        None
    }
}

/// The tier that a plan label in lower case names.
pub fn multiplier_of(lower: &str) -> (r: Option<u32>)
    ensures
        r == multiplier(lower@),
        r is Some <==> contains_text(lower@, "20x"@) || contains_text(lower@, "5x"@)
            || contains_text(lower@, "max"@) || contains_text(lower@, "pro"@),
        r == Some(20u32) <==> contains_text(lower@, "20x"@),
        r == Some(1u32) <==> contains_text(lower@, "pro"@) && !contains_text(lower@, "20x"@)
            && !contains_text(lower@, "5x"@) && !contains_text(lower@, "max"@),
        r matches Some(m) ==> m == 1 || m == 5 || m == 20,
{
    if contains(lower, "20x") {
        Some(20)
    } else if contains(lower, "5x") || contains(lower, "max") {
        Some(5)
    } else if contains(lower, "pro") {
        Some(1)
    } else {
        None
    }
}

/// Plan tier as a multiple of the Pro base allowance. Recognized labels, in any
/// case: Pro, Max 5x, Max 20x.
pub fn plan_multiplier(plan: &str) -> (r: Option<u32>)
    ensures
        r == multiplier(lowercase(plan@)),
{
    let lower = to_lowercase(plan);
    multiplier_of(lower.as_str())
}

/// The next cheaper tier and its multiplier.
pub open spec fn cheaper(mult: u32) -> Option<(Seq<char>, u32)> {
    if mult >= 20 {
        Some(("Max 5x"@, 5))
    } else if mult >= 5 {
        Some(("Pro"@, 1))
    } else {
        None
    }
}

/// The next cheaper tier and its multiplier, or `None` if already at the bottom.
pub fn lower_tier(mult: u32) -> (r: Option<(&'static str, u32)>)
    ensures
        r is Some <==> cheaper(mult) is Some,
        r matches Some((name, lower)) ==> cheaper(mult) == Some((name@, lower)),
        r is Some <==> mult >= 5,
        r matches Some((name, lower)) ==> lower == (if mult >= 20 {
            5u32
        } else {
            1u32
        }) && name@ == (if mult >= 20 {
            "Max 5x"@
        } else {
            "Pro"@
        }),
{
    if mult >= 20 {
        Some(("Max 5x", 5))
    } else if mult >= 5 {
        Some(("Pro", 1))
    } else {
        None
    }
}

/// The estimate shown for a metric, in whole percent: its utilization times the
/// factor.
pub open spec fn estimate(metric: MetricView, factor: u32) -> int {
    clamped(whole(rounded(metric.utilization@ * factor)), i64::MIN as int, i64::MAX as int)
}

/// Whether the estimate of a metric is above the limit.
pub open spec fn over(metric: Option<MetricView>, factor: u32) -> bool {
    match metric {
        Some(m) => rounded(m.utilization@ * factor) > 100 * one(),
        None => false,
    }
}

/// An estimate with its label.
pub open spec fn estimate_text(label: Seq<char>, metric: MetricView, factor: u32) -> Seq<char> {
    label + signed_decimal(estimate(metric, factor)) + "%"@
}

/// The estimates of the weekly and the session limit, as far as both are known.
pub open spec fn estimates(usage: UsageView, factor: u32) -> Option<Seq<char>> {
    match (usage.seven_day, usage.five_hour) {
        (Some(week), Some(five)) => Some(
            estimate_text("weekly ~"@, week, factor) + ", "@ + estimate_text(
                "session ~"@,
                five,
                factor,
            ),
        ),
        (Some(week), None) => Some(estimate_text("weekly ~"@, week, factor)),
        (None, Some(five)) => Some(estimate_text("session ~"@, five, factor)),
        (None, None) => None,
    }
}

/// The note on a plan with this multiplier.
pub open spec fn note(mult: u32, usage: UsageView) -> Option<Seq<char>> {
    match cheaper(mult) {
        Some((name, lower)) => {
            let factor = (mult / lower) as u32;
            match estimates(usage, factor) {
                Some(parts) => Some(
                    "On "@ + name + ": "@ + parts + if over(usage.seven_day, factor) || over(
                        usage.five_hour,
                        factor,
                    ) {
                        " — would throttle"@
                    } else {
                        " — would fit"@
                    },
                ),
                None => None,
            }
        },
        None => None,
    }
}

/// Appends an estimate with its label.
fn append_estimate(out: &mut String, label: &str, utilization: Double, factor: u32)
    ensures
        forall|m: MetricView|
            m.utilization == utilization ==> final(out)@ == old(out)@ + #[trigger] estimate_text(
                label@,
                m,
                factor,
            ),
{
    let ghost before = out@;
    out.append(label);
    append_signed(out, utilization.scaled_whole(factor));
    out.append("%");
    proof {
        assert forall|m: MetricView| m.utilization == utilization implies out@ == before
            + #[trigger] estimate_text(label@, m, factor) by {
            assert(out@ =~= before + estimate_text(label@, m, factor));
        }
    }
}

/// The note on a plan with this multiplier: the session and weekly usage if the
/// same work ran on the next tier down, limits scaling linearly with the
/// multiplier.
pub fn note_for(mult: u32, usage: &UsageResponse) -> (r: Option<String>)
    ensures
        r is Some <==> note(mult, usage@) is Some,
        r matches Some(text) ==> note(mult, usage@) == Some(text@),
        r is Some <==> mult >= 5 && (usage.seven_day is Some || usage.five_hour is Some),
        r matches Some(text) ==> ({
            let factor = if mult >= 20 {
                mult / 5
            } else {
                mult
            };
            let throttles = (usage.seven_day is Some && rounded(
                usage.seven_day->0.utilization@ * factor,
            ) > 100 * one()) || (usage.five_hour is Some && rounded(
                usage.five_hour->0.utilization@ * factor,
            ) > 100 * one());
            &&& ends_with(text@, " — would throttle"@) <==> throttles
            &&& ends_with(text@, " — would fit"@) <==> !throttles
            &&& begins_with(text@, if mult >= 20 {
                "On Max 5x: "@
            } else {
                "On Pro: "@
            })
        }),
{
    proof {
        law_verdict(mult, usage@);
    }
    let (name, lower) = match lower_tier(mult) {
        Some(tier) => tier,
        None => {
            return None;
        },
    };
    let factor: u32 = mult / lower;
    let mut parts = String::new();
    let mut exceeded = false;
    match &usage.seven_day {
        Some(week) => {
            append_estimate(&mut parts, "weekly ~", week.utilization, factor);
            exceeded = week.utilization.scaled_exceeds(factor, 100);
            assert(parts@ =~= estimate_text("weekly ~"@, week@, factor));
        },
        None => {},
    }
    match &usage.five_hour {
        Some(five) => {
            if usage.seven_day.is_some() {
                parts.append(", ");
            }
            let ghost before = parts@;
            append_estimate(&mut parts, "session ~", five.utilization, factor);
            assert(parts@ == before + estimate_text("session ~"@, five@, factor));
            if five.utilization.scaled_exceeds(factor, 100) {
                exceeded = true;
            }
        },
        None => {},
    }
    if usage.seven_day.is_none() && usage.five_hour.is_none() {
        return None;
    }
    assert(estimates(usage@, factor) is Some);
    assert(parts@ =~= estimates(usage@, factor)->0);
    let mut r = "On ".to_owned();
    r.append(name);
    r.append(": ");
    r.append(parts.as_str());
    if exceeded {
        r.append(" — would throttle");
    } else {
        r.append(" — would fit");
    }
    Some(r)
}

/// The note on a plan, if its multiplier is known.
pub open spec fn tier_note(mult: Option<u32>, usage: UsageView) -> Option<Seq<char>> {
    match mult {
        Some(m) => note(m, usage),
        None => None,
    }
}

/// "On Max 5x: weekly ~96%, session ~124% — would throttle": estimates the
/// session and weekly usage if the same work ran on the next tier down. `None`
/// where the plan is not recognized, is the cheapest, or nothing was reported.
pub fn build_tier_note(plan: &str, usage: &UsageResponse) -> (r: Option<String>)
    ensures
        r is Some <==> tier_note(multiplier(lowercase(plan@)), usage@) is Some,
        r matches Some(text) ==> tier_note(multiplier(lowercase(plan@)), usage@) == Some(text@),
{
    match plan_multiplier(plan) {
        Some(mult) => note_for(mult, usage),
        None => None,
    }
}

/// A plan is never compared with itself or a larger one: the cheaper tier has
/// a smaller multiplier, which divides the plan's own where the plan is one of
/// the recognized ones.
pub proof fn law_cheaper_tier_is_smaller(lower: Seq<char>)
    ensures
        multiplier(lower) matches Some(m) ==> {
            &&& (cheaper(m) is None <==> m == 1)
            &&& cheaper(m) matches Some((_, c)) ==> 0 < c < m && m % c == 0
        },
{
}

/// Which labels name which tier: "20x" the largest whatever else they hold, then
/// "5x" or "max" the middle one, then "pro" the smallest; and nothing else a tier.
pub proof fn law_labels_name_tiers(lower: Seq<char>)
    ensures
        contains_text(lower, "20x"@) ==> multiplier(lower) == Some(20u32),
        !contains_text(lower, "20x"@) && (contains_text(lower, "5x"@) || contains_text(
            lower,
            "max"@,
        )) ==> multiplier(lower) == Some(5u32),
        !contains_text(lower, "20x"@) && !contains_text(lower, "5x"@) && !contains_text(
            lower,
            "max"@,
        ) && contains_text(lower, "pro"@) ==> multiplier(lower) == Some(1u32),
        !contains_text(lower, "20x"@) && !contains_text(lower, "5x"@) && !contains_text(
            lower,
            "max"@,
        ) && !contains_text(lower, "pro"@) ==> multiplier(lower) is None,
{
}

/// The note of a label is the note of its tier, and there is none for a label
/// without a tier or for the smallest.
pub proof fn law_note_of_a_label(lower: Seq<char>, usage: UsageView)
    ensures
        contains_text(lower, "20x"@) ==> tier_note(multiplier(lower), usage) == note(20, usage),
        !contains_text(lower, "20x"@) && (contains_text(lower, "5x"@) || contains_text(
            lower,
            "max"@,
        )) ==> tier_note(multiplier(lower), usage) == note(5, usage),
        !contains_text(lower, "20x"@) && !contains_text(lower, "5x"@) && !contains_text(
            lower,
            "max"@,
        ) ==> tier_note(multiplier(lower), usage) is None,
{
}

/// A note is written iff there is a cheaper tier and one of the two limits was
/// reported. It ends in " — would throttle" iff one of them, scaled to that tier,
/// is above 100 percent, each being enough by itself, and in " — would fit"
/// otherwise; and it begins with the name of the tier.
pub proof fn law_verdict(mult: u32, usage: UsageView)
    ensures
        note(mult, usage) is Some <==> mult >= 5 && (usage.seven_day is Some
            || usage.five_hour is Some),
        note(mult, usage) matches Some(text) ==> ({
            let factor = if mult >= 20 {
                mult / 5
            } else {
                mult
            };
            let throttles = (usage.seven_day is Some && rounded(
                usage.seven_day->0.utilization@ * factor,
            ) > 100 * one()) || (usage.five_hour is Some && rounded(
                usage.five_hour->0.utilization@ * factor,
            ) > 100 * one());
            &&& ends_with(text, " — would throttle"@) <==> throttles
            &&& ends_with(text, " — would fit"@) <==> !throttles
            &&& begins_with(text, if mult >= 20 {
                "On Max 5x: "@
            } else {
                "On Pro: "@
            })
        }),
{
    if let Some(text) = note(mult, usage) {
        reveal_strlit(" — would throttle");
        reveal_strlit(" — would fit");
        reveal_strlit("On ");
        reveal_strlit(": ");
        reveal_strlit("Max 5x");
        reveal_strlit("Pro");
        reveal_strlit("On Max 5x: ");
        reveal_strlit("On Pro: ");
        let throttle = " — would throttle"@;
        let fit = " — would fit"@;
        let head = if mult >= 20 {
            "On Max 5x: "@
        } else {
            "On Pro: "@
        };
        let (name, lower) = cheaper(mult)->0;
        let factor = (mult / lower) as u32;
        let parts = estimates(usage, factor)->0;
        let over = over(usage.seven_day, factor) || over(usage.five_hour, factor);
        let verdict = if over {
            throttle
        } else {
            fit
        };
        assert("On "@ + name + ": "@ =~= head);
        assert(text =~= head + parts + verdict);
        assert(text.subrange(0, head.len() as int) =~= head);
        assert(text.subrange(text.len() - verdict.len(), text.len() as int) =~= verdict);
        assert(ends_with(text, verdict));
        let last = text[text.len() - 1];
        assert(last == verdict[verdict.len() - 1]);
        if ends_with(text, throttle) {
            let end = text.subrange(text.len() - throttle.len(), text.len() as int);
            assert(end[throttle.len() - 1] == last);
        }
        if ends_with(text, fit) {
            let end = text.subrange(text.len() - fit.len(), text.len() as int);
            assert(end[fit.len() - 1] == last);
        }
    }
}

/// The text of a note: the tier, the weekly and the session limit as far as they
/// were reported, each scaled and in whole percent, and the verdict.
pub proof fn law_note_text(mult: u32, usage: UsageView)
    ensures
        note(mult, usage) matches Some(text) ==> ({
            let factor = if mult >= 20 {
                mult / 5
            } else {
                mult
            };
            let shown = |u: Double|
                signed_decimal(
                    clamped(whole(rounded(u@ * factor)), i64::MIN as int, i64::MAX as int),
                ) + "%"@;
            let parts = match (usage.seven_day, usage.five_hour) {
                (Some(w), Some(f)) => "weekly ~"@ + shown(w.utilization) + ", session ~"@ + shown(
                    f.utilization,
                ),
                (Some(w), None) => "weekly ~"@ + shown(w.utilization),
                (None, Some(f)) => "session ~"@ + shown(f.utilization),
                (None, None) => Seq::empty(),
            };
            ||| text == "On "@ + (if mult >= 20 {
                "Max 5x"@
            } else {
                "Pro"@
            }) + ": "@ + parts + " — would throttle"@
            ||| text == "On "@ + (if mult >= 20 {
                "Max 5x"@
            } else {
                "Pro"@
            }) + ": "@ + parts + " — would fit"@
        }),
{
    if let Some(text) = note(mult, usage) {
        reveal_strlit(", ");
        reveal_strlit("session ~");
        reveal_strlit(", session ~");
        assert(", session ~"@ =~= ", "@ + "session ~"@);
        let factor: u32 = if mult >= 20 {
            mult / 5
        } else {
            mult
        };
        let shown = |u: Double|
            signed_decimal(
                clamped(whole(rounded(u@ * factor)), i64::MIN as int, i64::MAX as int),
            ) + "%"@;
        let parts = estimates(usage, factor)->0;
        match (usage.seven_day, usage.five_hour) {
            (Some(w), Some(f)) => {
                assert(parts =~= "weekly ~"@ + shown(w.utilization) + ", session ~"@ + shown(
                    f.utilization,
                ));
            },
            (Some(w), None) => {
                assert(parts =~= "weekly ~"@ + shown(w.utilization));
            },
            (None, Some(f)) => {
                assert(parts =~= "session ~"@ + shown(f.utilization));
            },
            (None, None) => {},
        }
    }
}

} // verus!
