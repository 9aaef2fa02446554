//! Positions of past session resets on the 24-hour chart.

use vstd::arithmetic::power2::{lemma_pow2_adds, lemma_pow2_pos, lemma_pow2_strictly_increases, pow2};
use vstd::prelude::*;

use crate::double::{
    law_rounding_is_monotone, law_small_wholes_are_exact, lemma_nearest_error,
    lemma_nearest_quotient_close, lemma_nearest_quotient_error, lemma_small_whole,
    lemma_ulp_bound, one, quotient, rounded, Double, MANTISSA_LIMIT,
};

verus! {

/// The reset points from `hours_ago` on, five hours apart, that lie in the past
/// 24 hours.
pub open spec fn reset_points(hours_ago: int) -> Seq<int>
    decreases 40 * one() - hours_ago,
    when hours_ago > -(MANTISSA_LIMIT * one())
    via reset_points_progress
{
    if hours_ago > 24 * one() {
        Seq::empty()
    } else {
        let rest = reset_points(rounded(hours_ago + 5 * one()));
        if hours_ago > 0 {
            seq![hours_ago] + rest
        } else {
            rest
        }
    }
}

/// How many hours ago the current session began, when it ends in `seconds`: five
/// hours less the hours that are left.
pub open spec fn session_start(seconds: int) -> int {
    rounded(5 * one() - quotient(rounded(seconds * one()), 3600))
}

#[via_fn]
proof fn reset_points_progress(hours_ago: int) {
    if hours_ago <= 24 * one() {
        lemma_step(hours_ago);
    }
}

/// Five hours later is later, though not by more than six.
proof fn lemma_step(h: int)
    requires
        -(MANTISSA_LIMIT * one()) < h <= 24 * one(),
    ensures
        h + 4 * one() <= rounded(h + 5 * one()) <= h + 6 * one(),
{
    lemma_pow2_pos(1074);
    let x = h + 5 * one();
    let m: nat = if x < 0 {
        (-x) as nat
    } else {
        x as nat
    };
    assert(m < MANTISSA_LIMIT * one());
    lemma_ulp_bound(m, 1074);
    lemma_nearest_error(m);
}

proof fn lemma_start_bounds(seconds: i64)
    ensures
        -(MANTISSA_LIMIT * one()) < session_start(seconds as int) < MANTISSA_LIMIT * one(),
        -(MANTISSA_LIMIT * one()) < quotient(rounded(seconds * one()), 3600) < MANTISSA_LIMIT
            * one(),
{
    lemma_pow2_pos(1074);
    let s: nat = if seconds < 0 {
        (-seconds) as nat
    } else {
        seconds as nat
    };
    let x = s * one();
    assert(seconds < 0 ==> seconds * one() == -(x as int)) by (nonlinear_arith)
        requires
            seconds < 0 ==> seconds == -s,
            x == s * one(),
    ;
    assert(x <= 0x8000_0000_0000_0000 * one()) by (nonlinear_arith)
        requires
            s <= 0x8000_0000_0000_0000,
            x == s * one(),
    ;
    lemma_pow2_adds(11, 1074);
    vstd::arithmetic::power2::lemma2_to64();
    lemma_ulp_bound(x, 1085);
    lemma_nearest_error(x);
    let n = crate::double::nearest(x);
    assert(n <= 0x8000_0000_0000_0000 * one() + 0x800 * one());
    assert(n / 3600 <= 0x9_2000_0000_0000 * one());
    lemma_ulp_bound(n / 3600, 1074);
    lemma_nearest_quotient_error(n, 3600);
    let q = quotient(rounded(seconds * one()), 3600);
    assert(-(0x9_3000_0000_0000 * one()) <= q <= 0x9_3000_0000_0000 * one());
    let y = 5 * one() - q;
    let m: nat = if y < 0 {
        (-y) as nat
    } else {
        y as nat
    };
    lemma_ulp_bound(m, 1074);
    lemma_nearest_error(m);
}

/// The values of a list of numbers.
pub open spec fn values(numbers: Seq<Double>) -> Seq<int> {
    numbers.map_values(|d: Double| d@)
}

/// Past 5-hour session reset points, in hours ago, of a session that resets in
/// `seconds_until_reset` seconds: the start of the session and the points five
/// hours apart before it, up to 24 hours back.
pub fn chart_resets(seconds_until_reset: i64) -> (points: Vec<Double>)
    ensures
        values(points@) == reset_points(session_start(seconds_until_reset as int)),
        forall|i: int| 0 <= i < points@.len() ==> 0 < (#[trigger] points@[i])@ <= 24 * one(),
{
    proof {
        law_chart_resets_lie_in_the_day(seconds_until_reset);
        lemma_pow2_pos(1074);
        lemma_small_whole(5);
        lemma_small_whole(24);
        lemma_start_bounds(seconds_until_reset);
        lemma_pow2_adds(53, 1074);
        vstd::arithmetic::power2::lemma2_to64_rest();
        lemma_pow2_strictly_increases(1127, 1300);
    }
    let five = Double::from_u64(5);
    let day = Double::from_u64(24);
    let mut hours_ago = five.plus(Double::hours(seconds_until_reset).negated());
    let mut points: Vec<Double> = Vec::new();
    let zero = Double::from_u64(0);
    proof {
        lemma_small_whole(0);
        assert(0 * one() == 0);
        assert(values(points@) =~= Seq::<int>::empty());
        let rest = reset_points(hours_ago@);
        assert(Seq::<int>::empty() + rest =~= rest);
    }
    while day.at_least(hours_ago)
        invariant
            one() > 0,
            MANTISSA_LIMIT * one() < pow2(1300),
            five@ == 5 * one(),
            day@ == 24 * one(),
            zero@ == 0,
            -(MANTISSA_LIMIT * one()) < hours_ago@,
            hours_ago@ < MANTISSA_LIMIT * one(),
            values(points@) + reset_points(hours_ago@) == reset_points(
                session_start(seconds_until_reset as int),
            ),
        decreases MANTISSA_LIMIT * one() - hours_ago@,
    {
        proof {
            lemma_step(hours_ago@);
        }
        let ghost before = values(points@);
        let ghost h = hours_ago@;
        if !zero.at_least(hours_ago) {
            points.push(hours_ago);
            proof {
                assert(values(points@) =~= before.push(h));
                let rest = reset_points(rounded(h + 5 * one()));
                assert(before.push(h) + rest =~= before + (seq![h] + rest));
            }
        }
        hours_ago = hours_ago.plus(five);
    }
    proof {
        assert(values(points@) + Seq::<int>::empty() =~= values(points@));
        assert forall|i: int| 0 <= i < points@.len() implies 0 < (#[trigger] points@[i])@ <= 24
            * one() by {
            assert(values(points@)[i] == points@[i]@);
        }
    }
    points
}

/// Whether each point is five hours after the one before it, rounded.
pub open spec fn five_hours_apart(points: Seq<int>) -> bool {
    forall|i: int|
        0 < i < points.len() ==> #[trigger] points[i] == rounded(points[i - 1] + 5 * one())
}

/// Every reset point that is drawn lies in the past 24 hours, the points are five
/// hours apart, and none is missing: the first is the session's start where that
/// is in the past day, or less than five hours ago where the session is yet to
/// begin, and another five hours after the last would be beyond the day.
pub proof fn law_chart_resets_lie_in_the_day(seconds_until_reset: i64)
    ensures
        ({
            let start = session_start(seconds_until_reset as int);
            let points = reset_points(start);
            &&& forall|i: int| 0 <= i < points.len() ==> 0 < #[trigger] points[i] <= 24 * one()
            &&& five_hours_apart(points)
            &&& 0 < start <= 24 * one() ==> points.len() > 0 && points[0] == start
            &&& start <= 0 ==> points.len() > 0 && points[0] <= 5 * one()
            &&& start > 24 * one() ==> points.len() == 0
            &&& points.len() > 0 ==> rounded(points.last() + 5 * one()) > 24 * one()
        }),
{
    lemma_start_bounds(seconds_until_reset);
    lemma_reset_points(session_start(seconds_until_reset as int));
}

proof fn lemma_reset_points(hours_ago: int)
    requires
        hours_ago > -(MANTISSA_LIMIT * one()),
    ensures
        forall|i: int|
            0 <= i < reset_points(hours_ago).len() ==> 0 < #[trigger] reset_points(hours_ago)[i]
                <= 24 * one(),
        five_hours_apart(reset_points(hours_ago)),
        0 < hours_ago <= 24 * one() ==> reset_points(hours_ago).len() > 0 && reset_points(
            hours_ago,
        )[0] == hours_ago,
        hours_ago > 24 * one() ==> reset_points(hours_ago).len() == 0,
        hours_ago <= 24 * one() ==> reset_points(hours_ago).len() > 0 && rounded(
            reset_points(hours_ago).last() + 5 * one(),
        ) > 24 * one(),
        hours_ago <= 0 ==> reset_points(hours_ago)[0] <= 5 * one(),
    decreases 40 * one() - hours_ago,
{
    if hours_ago <= 24 * one() {
        lemma_pow2_pos(1074);
        lemma_step(hours_ago);
        let following = rounded(hours_ago + 5 * one());
        lemma_reset_points(following);
        let rest = reset_points(following);
        let points = reset_points(hours_ago);
        if hours_ago <= 0 {
            lemma_small_whole(5);
            law_rounding_is_monotone(hours_ago + 5 * one(), (5 * one()) as int);
        }
        if rest.len() > 0 {
            assert(points.last() == rest.last());
        }
        if hours_ago > 0 {
            assert(points == seq![hours_ago] + rest);
            assert forall|i: int| 0 <= i < points.len() implies 0 < #[trigger] points[i] <= 24
                * one() by {
                if i > 0 {
                    assert(points[i] == rest[i - 1]);
                }
            }
            assert forall|i: int| 0 < i < points.len() implies #[trigger] points[i] == rounded(
                points[i - 1] + 5 * one(),
            ) by {
                assert(points[i] == rest[i - 1]);
                if i > 1 {
                    assert(points[i - 1] == rest[i - 2]);
                } else if following > 24 * one() {
                    assert(rest.len() == 0);
                }
            }
        }
    }
}

/// The session began five hours before it ends, to the microsecond, whenever it
/// ends within 136 years.
pub proof fn law_session_lasts_five_hours(seconds: int)
    requires
        -0x1_0000_0000 <= seconds <= 0x1_0000_0000,
    ensures
        1_000_000 * (3600 * session_start(seconds) - (18_000 - seconds) * one()) <= one(),
        1_000_000 * ((18_000 - seconds) * one() - 3600 * session_start(seconds)) <= one(),
{
    lemma_pow2_pos(1074);
    lemma_pow2_pos(1042);
    lemma_pow2_adds(32, 1042);
    vstd::arithmetic::power2::lemma2_to64();
    let p = pow2(1042);
    assert(one() == 0x1_0000_0000 * p);
    law_small_wholes_are_exact(seconds);
    let x = seconds * one();
    let n: nat = if x < 0 {
        (-x) as nat
    } else {
        x as nat
    };
    assert(n <= 0x1_0000_0000 * one()) by (nonlinear_arith)
        requires
            n == x || n == -x,
            x == seconds * one(),
            -0x1_0000_0000 <= seconds <= 0x1_0000_0000,
            one() >= 0,
    ;
    assert(n / 3600 <= 0x12_3500 * one());
    assert(n / 3600 < MANTISSA_LIMIT * p);
    lemma_ulp_bound(n / 3600, 1042);
    lemma_nearest_quotient_close(n, 3600);
    let q = quotient(x, 3600);
    assert(-(0x12_3600 * one()) <= q <= 0x12_3600 * one());
    let y = 5 * one() - q;
    let m: nat = if y < 0 {
        (-y) as nat
    } else {
        y as nat
    };
    assert(m < MANTISSA_LIMIT * p);
    lemma_ulp_bound(m, 1042);
    lemma_nearest_error(m);
    assert(2 * (3600 * q - x) <= 3600 * p && 2 * (x - 3600 * q) <= 3600 * p);
    assert(2 * (session_start(seconds) - y) <= p && 2 * (y - session_start(seconds)) <= p);
    assert((18_000 - seconds) * one() == 18_000 * one() - x) by (nonlinear_arith)
        requires
            x == seconds * one(),
    ;
}

} // verus!
