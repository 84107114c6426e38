//! The envelope generator: turns one demand into its per-minute band of
//! achievable state-of-energy values, between the earliest-possible and
//! latest-possible charging trajectories.
use vstd::prelude::*;

use crate::demand::EnergyDemand;

verus! {

/// One point of a flexibility envelope: bounds on the battery's state of
/// energy (watt-hours) at `time`, plus the demand's charging power limit.
#[derive(Clone, Copy, PartialEq, Eq, Debug)]
pub struct AggregationDT {
    /// minimum state of energy in Wh
    pub min_soe: i32,
    /// maximum state of energy in Wh
    pub max_soe: i32,
    /// maximum charging power in W
    pub max_charging_power: i32,
    /// timestamp, seconds since the epoch
    pub time: i64,
}

/// The combined flexibility of all stored demands: the spanned time window
/// and every feasible demand's envelope, concatenated.
pub struct Aggregation {
    pub start: i64,
    pub end: i64,
    pub series: Vec<AggregationDT>,
}

/// Signed division with the quotient rounded toward zero, as the machine's
/// signed division behaves.
pub open spec fn div_trunc(a: int, b: int) -> int {
    if a >= 0 {
        a / b
    } else {
        -((-a) / b)
    }
}

fn div_trunc_i32(a: i32, b: i32) -> (r: i32)
    requires
        b > 0,
        a > i32::MIN,
    ensures
        r as int == div_trunc(a as int, b as int),
{
    proof {
        lemma_div_trunc_bounds(a as int, b as int);
    }
    if a >= 0 {
        a / b
    } else {
        -((-a) / b)
    }
}

/// The watt-hours behind one percent of state of charge; the fractional
/// remainder of the division is deliberately dropped, so sub-percent
/// precision is lost here and only here.
pub open spec fn one_percent_energy(d: EnergyDemand) -> int {
    d.capacity as int / 100
}

/// Watt-hours still needed to reach the target state of charge.
pub open spec fn energy_demand(d: EnergyDemand) -> int {
    (d.target_soc - d.current_soc) * one_percent_energy(d)
}

/// Watt-hours needed to reach the minimum required state of charge; zero
/// once the current charge already meets it.
pub open spec fn critical_demand(d: EnergyDemand) -> int {
    if d.min_soc > d.current_soc {
        (d.min_soc - d.current_soc) * one_percent_energy(d)
    } else {
        0
    }
}

/// Whole minutes of charging at full power to reach the target.
pub open spec fn minutes_to_target(d: EnergyDemand) -> int {
    div_trunc(energy_demand(d) * 60, d.max_charging_power as int)
}

/// Whole minutes of charging at full power to reach the critical minimum.
pub open spec fn minutes_to_critical(d: EnergyDemand) -> int {
    div_trunc(critical_demand(d) * 60, d.max_charging_power as int)
}

/// Watt-hours gained per minute of charging at full power.
pub open spec fn minute_energy_step(d: EnergyDemand) -> int {
    d.max_charging_power as int / 60
}

/// Earliest time the vehicle could finish charging at full power.
pub open spec fn asap_end(d: EnergyDemand) -> int {
    d.start + 60 * minutes_to_target(d)
}

/// Latest time charging could begin and still reach the target by `end`,
/// pulled forward by the time needed for the critical minimum.
pub open spec fn alap_start(d: EnergyDemand) -> int {
    d.end - 60 * minutes_to_target(d) + 60 * minutes_to_critical(d)
}

/// A demand is feasible when full-power charging from `start` finishes
/// within the availability window.
pub open spec fn feasible(d: EnergyDemand) -> bool {
    asap_end(d) <= d.end
}

/// The state of energy the vehicle holds as it arrives.
pub open spec fn base_soe(d: EnergyDemand) -> int {
    d.current_soc * one_percent_energy(d)
}

/// The state of energy behind the minimum required state of charge.
pub open spec fn min_soe_floor(d: EnergyDemand) -> int {
    d.min_soc * one_percent_energy(d)
}

/// The lower bound after `k` minutes on the earliest-charging line: it
/// climbs at full power only while the next step would still leave it
/// below the minimum-charge floor, then stops advancing.
pub open spec fn asap_min_at(d: EnergyDemand, k: int) -> int
    decreases k,
{
    if k <= 0 {
        base_soe(d)
    } else {
        let p = asap_min_at(d, k - 1);
        if p + minute_energy_step(d) < min_soe_floor(d) {
            p + minute_energy_step(d)
        } else {
            p
        }
    }
}

/// Number of points in the earliest-charging segment `[start, asap_end]`.
pub open spec fn asap_len(d: EnergyDemand) -> int {
    if minutes_to_target(d) >= 0 {
        minutes_to_target(d) + 1
    } else {
        0
    }
}

/// Number of points strictly between `asap_end` and `alap_start`, on the
/// minute grid anchored at `asap_end`.
pub open spec fn middle_len(d: EnergyDemand) -> int {
    let w = alap_start(d) - asap_end(d);
    if w >= 1 {
        (w - 1) / 60
    } else {
        0
    }
}

/// Index, on the minute grid anchored at `alap_start`, of the first
/// latest-charging point that lies after the earliest-charging segment;
/// points at or before `asap_end` are already covered there.
pub open spec fn alap_first(d: EnergyDemand) -> int {
    if alap_start(d) > asap_end(d) {
        0
    } else {
        (asap_end(d) - alap_start(d)) / 60 + 1
    }
}

/// Index, on the same grid, of the last latest-charging point (the one at
/// `end`); negative when `alap_start` lies past `end`.
pub open spec fn alap_last(d: EnergyDemand) -> int {
    minutes_to_target(d) - minutes_to_critical(d)
}

/// Number of points the latest-charging segment contributes.
pub open spec fn alap_len(d: EnergyDemand) -> int {
    if alap_first(d) <= alap_last(d) {
        alap_last(d) - alap_first(d) + 1
    } else {
        0
    }
}

/// Total number of points in a feasible demand's envelope.
pub open spec fn flex_len(d: EnergyDemand) -> int {
    asap_len(d) + middle_len(d) + alap_len(d)
}

/// The upper bound carried by every point from `asap_end` on: the value
/// the earliest-charging climb reaches.
pub open spec fn state_max(d: EnergyDemand) -> int {
    if asap_len(d) >= 1 {
        base_soe(d) + (asap_len(d) - 1) * minute_energy_step(d)
    } else {
        base_soe(d)
    }
}

/// The lower bound at the end of the earliest-charging segment, held flat
/// until the latest-charging climb begins.
pub open spec fn state_min(d: EnergyDemand) -> int {
    if asap_len(d) >= 1 {
        asap_min_at(d, asap_len(d) - 1)
    } else {
        base_soe(d)
    }
}

/// Timestamp of the envelope's `i`-th point.
pub open spec fn flex_time(d: EnergyDemand, i: int) -> int {
    if i < asap_len(d) {
        d.start + 60 * i
    } else if i < asap_len(d) + middle_len(d) {
        asap_end(d) + 60 * (i - asap_len(d) + 1)
    } else {
        alap_start(d) + 60 * (alap_first(d) + i - asap_len(d) - middle_len(d))
    }
}

/// Upper state-of-energy bound of the envelope's `i`-th point.
pub open spec fn flex_max(d: EnergyDemand, i: int) -> int {
    if i < asap_len(d) {
        base_soe(d) + i * minute_energy_step(d)
    } else {
        state_max(d)
    }
}

/// Lower state-of-energy bound of the envelope's `i`-th point.
pub open spec fn flex_min(d: EnergyDemand, i: int) -> int {
    if i < asap_len(d) {
        asap_min_at(d, i)
    } else if i < asap_len(d) + middle_len(d) {
        state_min(d)
    } else {
        state_min(d) + (alap_first(d) + i - asap_len(d) - middle_len(d)) * minute_energy_step(d)
    }
}

/// The envelope's `i`-th point.
pub open spec fn flex_point(d: EnergyDemand, i: int) -> AggregationDT {
    AggregationDT {
        min_soe: flex_min(d, i) as i32,
        max_soe: flex_max(d, i) as i32,
        max_charging_power: d.max_charging_power,
        time: flex_time(d, i) as i64,
    }
}

/// The whole envelope of a feasible demand.
pub open spec fn flex_series(d: EnergyDemand) -> Seq<AggregationDT> {
    Seq::new(flex_len(d) as nat, |i: int| flex_point(d, i))
}

proof fn lemma_div_trunc_bounds(a: int, b: int)
    requires
        b >= 1,
    ensures
        a >= 0 ==> 0 <= div_trunc(a, b) <= a,
        a < 0 ==> a <= div_trunc(a, b) <= 0,
        a >= 0 ==> b * div_trunc(a, b) <= a,
{
    if a >= 0 {
        vstd::arithmetic::div_mod::lemma_fundamental_div_mod(a, b);
        vstd::arithmetic::div_mod::lemma_div_pos_is_pos(a, b);
        vstd::arithmetic::div_mod::lemma_div_nonincreasing(a, b);
        assert(b * (a / b) <= a) by (nonlinear_arith)
            requires
                b >= 1,
                a >= 0,
                a == b * (a / b) + a % b,
                a % b >= 0,
        {}
    } else {
        vstd::arithmetic::div_mod::lemma_div_pos_is_pos(-a, b);
        vstd::arithmetic::div_mod::lemma_div_nonincreasing(-a, b);
    }
}

/// Bounds that keep every watt-hour quantity of a well-formed demand
/// within the capacity, and hence within `i32`.
proof fn lemma_energy_bounds(d: EnergyDemand)
    requires
        d.wf(),
    ensures
        0 <= one_percent_energy(d),
        100 * one_percent_energy(d) <= d.capacity,
        -(d.capacity as int) <= energy_demand(d) <= d.capacity,
        0 <= critical_demand(d) <= d.capacity,
        0 <= base_soe(d) <= d.capacity,
        0 <= min_soe_floor(d) <= d.capacity,
        0 <= minute_energy_step(d) <= d.max_charging_power,
        -60 * (d.capacity as int) <= minutes_to_target(d) <= 60 * (d.capacity as int),
        0 <= minutes_to_critical(d) <= 60 * (d.capacity as int),
{
    let ope = one_percent_energy(d);
    vstd::arithmetic::div_mod::lemma_fundamental_div_mod(d.capacity as int, 100);
    vstd::arithmetic::div_mod::lemma_div_pos_is_pos(d.capacity as int, 100);
    assert(100 * ope <= d.capacity);
    assert(-(d.capacity as int) <= energy_demand(d) <= d.capacity) by (nonlinear_arith)
        requires
            0 <= ope,
            100 * ope <= d.capacity,
            -100 <= d.target_soc - d.current_soc <= 100,
            energy_demand(d) == (d.target_soc - d.current_soc) * ope,
    {}
    assert(0 <= critical_demand(d) <= d.capacity) by (nonlinear_arith)
        requires
            0 <= ope,
            100 * ope <= d.capacity,
            -100 <= d.min_soc - d.current_soc <= 100,
            critical_demand(d) == if d.min_soc > d.current_soc {
                (d.min_soc - d.current_soc) * ope
            } else {
                0
            },
    {}
    assert(0 <= base_soe(d) <= d.capacity) by (nonlinear_arith)
        requires
            0 <= ope,
            100 * ope <= d.capacity,
            0 <= d.current_soc <= 100,
            base_soe(d) == d.current_soc * ope,
    {}
    assert(0 <= min_soe_floor(d) <= d.capacity) by (nonlinear_arith)
        requires
            0 <= ope,
            100 * ope <= d.capacity,
            0 <= d.min_soc <= 100,
            min_soe_floor(d) == d.min_soc * ope,
    {}
    vstd::arithmetic::div_mod::lemma_fundamental_div_mod(d.max_charging_power as int, 60);
    vstd::arithmetic::div_mod::lemma_div_pos_is_pos(d.max_charging_power as int, 60);
    lemma_div_trunc_bounds(energy_demand(d) * 60, d.max_charging_power as int);
    lemma_div_trunc_bounds(critical_demand(d) * 60, d.max_charging_power as int);
}

/// Charging for the computed whole minutes at the computed whole-watt-hour
/// step never overshoots the energy actually asked for.
proof fn lemma_step_times_minutes(power: int, e: int)
    requires
        power >= 1,
        e >= 0,
    ensures
        (power / 60) * div_trunc(e * 60, power) <= e,
{
    let u = power / 60;
    let v = (e * 60) / power;
    vstd::arithmetic::div_mod::lemma_fundamental_div_mod(power, 60);
    vstd::arithmetic::div_mod::lemma_fundamental_div_mod(e * 60, power);
    vstd::arithmetic::div_mod::lemma_div_pos_is_pos(power, 60);
    vstd::arithmetic::div_mod::lemma_div_pos_is_pos(e * 60, power);
    assert(u * v <= e) by (nonlinear_arith)
        requires
            u >= 0,
            v >= 0,
            power >= 1,
            e >= 0,
            60 * u <= power,
            power * v <= e * 60,
    {}
}

/// Multiplying by a grid index crosses the sixty-second step threshold
/// exactly where integer division says it does.
proof fn lemma_grid_threshold(delta: int, k: int)
    requires
        delta >= 0,
        k >= 0,
    ensures
        60 * k > delta <==> k >= delta / 60 + 1,
{
    vstd::arithmetic::div_mod::lemma_fundamental_div_mod(delta, 60);
    vstd::arithmetic::div_mod::lemma_div_pos_is_pos(delta, 60);
}

/// A multiple of sixty divided by sixty gives the multiplier back.
proof fn lemma_div_sixty_exact(x: int)
    ensures
        (60 * x) / 60 == x,
{
    vstd::arithmetic::div_mod::lemma_div_multiples_vanish(x, 60);
}

/// Division by sixty is monotone, and adding less than a full minute does
/// not move the quotient past the next grid index.
proof fn lemma_div_sixty_between(x: int, j: int)
    requires
        60 * j <= x <= 60 * j + 59,
    ensures
        x / 60 == j,
{
    vstd::arithmetic::div_mod::lemma_fundamental_div_mod_converse(x, 60, j, x - 60 * j);
}

/// The lower bound on the earliest-charging line stays between the arrival
/// energy and the capacity, never outruns the upper bound, and never
/// decreases.
proof fn lemma_asap_min_props(d: EnergyDemand, k: int)
    requires
        d.wf(),
        k >= 0,
    ensures
        base_soe(d) <= asap_min_at(d, k),
        asap_min_at(d, k) <= base_soe(d) || asap_min_at(d, k) < min_soe_floor(d),
        asap_min_at(d, k) <= d.capacity,
        asap_min_at(d, k) <= base_soe(d) + k * minute_energy_step(d),
        asap_min_at(d, k) <= asap_min_at(d, k + 1),
    decreases k,
{
    lemma_energy_bounds(d);
    if k > 0 {
        lemma_asap_min_props(d, k - 1);
        assert((k - 1) * minute_energy_step(d) + minute_energy_step(d) == k * minute_energy_step(
            d,
        )) by (nonlinear_arith) {}
    }
}

/// How often the lower bound has climbed after `k` minutes of the
/// earliest-charging segment.
pub open spec fn asap_climbs(d: EnergyDemand, k: int) -> int
    decreases k,
{
    if k <= 0 {
        0
    } else {
        let j = asap_climbs(d, k - 1);
        if base_soe(d) + j * minute_energy_step(d) + minute_energy_step(d) < min_soe_floor(d) {
            j + 1
        } else {
            j
        }
    }
}

/// The lower bound of the earliest-charging line is the arrival energy
/// plus a whole number of climbs, and while it has climbed at all it is
/// still below the minimum-charge floor.
proof fn lemma_asap_min_climbs(d: EnergyDemand, k: int)
    requires
        d.wf(),
        k >= 0,
    ensures
        asap_min_at(d, k) == base_soe(d) + asap_climbs(d, k) * minute_energy_step(d),
        0 <= asap_climbs(d, k),
        asap_climbs(d, k) == 0 || base_soe(d) + asap_climbs(d, k) * minute_energy_step(d)
            < min_soe_floor(d),
    decreases k,
{
    if k > 0 {
        lemma_asap_min_climbs(d, k - 1);
        let j = asap_climbs(d, k - 1);
        assert(j * minute_energy_step(d) + minute_energy_step(d) == (j + 1) * minute_energy_step(
            d,
        )) by (nonlinear_arith) {}
    }
}

/// With a charging power that is a whole number of watt-hours per minute,
/// the lower bound at the end of the earliest-charging segment never
/// exceeds what the critical-charge minutes can recover.
proof fn lemma_state_min_bound(d: EnergyDemand)
    requires
        d.wf(),
        d.max_charging_power as int % 60 == 0,
    ensures
        state_min(d) <= base_soe(d) + minutes_to_critical(d) * minute_energy_step(d),
{
    lemma_energy_bounds(d);
    let step = minute_energy_step(d);
    let cd = critical_demand(d);
    let mtc = minutes_to_critical(d);
    vstd::arithmetic::div_mod::lemma_fundamental_div_mod(d.max_charging_power as int, 60);
    assert(d.max_charging_power as int == 60 * step);
    assert(step >= 1);
    assert(mtc == cd / step) by {
        vstd::arithmetic::div_mod::lemma_div_multiples_vanish_quotient(60, cd, step);
        assert(cd * 60 >= 0);
        assert(mtc == (cd * 60) / (d.max_charging_power as int));
    }
    assert(0 <= mtc * step) by (nonlinear_arith)
        requires
            mtc >= 0,
            step >= 0,
    {}
    if asap_len(d) >= 1 {
        lemma_asap_min_climbs(d, asap_len(d) - 1);
        let j = asap_climbs(d, asap_len(d) - 1);
        if j != 0 {
            assert(base_soe(d) + j * step < min_soe_floor(d));
            assert(min_soe_floor(d) <= base_soe(d) + cd) by {
                if d.min_soc > d.current_soc {
                    assert(d.current_soc * one_percent_energy(d) + (d.min_soc - d.current_soc)
                        * one_percent_energy(d) == d.min_soc * one_percent_energy(d))
                        by (nonlinear_arith) {}
                } else {
                    vstd::arithmetic::mul::lemma_mul_inequality(
                        d.min_soc as int,
                        d.current_soc as int,
                        one_percent_energy(d),
                    );
                }
            }
            assert(j * step < cd);
            assert(j <= cd / step) by {
                vstd::arithmetic::div_mod::lemma_div_multiples_vanish(j, step);
                assert(step * j == j * step) by (nonlinear_arith) {}
                vstd::arithmetic::div_mod::lemma_div_is_ordered(step * j, cd, step);
            }
            assert(j * step <= mtc * step) by {
                vstd::arithmetic::mul::lemma_mul_inequality(j, mtc, step);
            }
            assert(state_min(d) == base_soe(d) + j * step);
        } else {
            assert(j * step == 0) by (nonlinear_arith)
                requires
                    j == 0,
            {}
            assert(state_min(d) == base_soe(d));
        }
    }
}

/// At every point of an envelope the lower bound is at most the upper
/// bound. This asks for a charging power that is a whole number of
/// watt-hours per minute: with a power that loses a fraction to the
/// sixty-second grid, the delayed-charging climb can overshoot the cap.
pub proof fn lemma_envelope_min_le_max(d: EnergyDemand, i: int)
    requires
        d.wf(),
        d.max_charging_power as int % 60 == 0,
        0 <= i < flex_len(d),
    ensures
        flex_min(d, i) <= flex_max(d, i),
{
    lemma_energy_bounds(d);
    let step = minute_energy_step(d);
    if i < asap_len(d) {
        lemma_asap_min_props(d, i);
    } else if i < asap_len(d) + middle_len(d) {
        if asap_len(d) >= 1 {
            lemma_asap_min_props(d, asap_len(d) - 1);
        }
    } else {
        let kk = alap_first(d) + i - asap_len(d) - middle_len(d);
        assert(alap_first(d) <= alap_last(d));
        assert(kk <= alap_last(d));
        assert(alap_first(d) >= 0) by {
            if alap_start(d) <= asap_end(d) {
                vstd::arithmetic::div_mod::lemma_div_pos_is_pos(
                    asap_end(d) - alap_start(d),
                    60,
                );
            }
        }
        assert(minutes_to_critical(d) >= 0) by {
            lemma_div_trunc_bounds(critical_demand(d) * 60, d.max_charging_power as int);
            assert(critical_demand(d) * 60 >= 0) by (nonlinear_arith)
                requires
                    critical_demand(d) >= 0,
            {}
        }
        assert(minutes_to_target(d) >= 0);
        assert(asap_len(d) == minutes_to_target(d) + 1);
        lemma_state_min_bound(d);
        assert(kk * step <= (minutes_to_target(d) - minutes_to_critical(d)) * step) by {
            vstd::arithmetic::mul::lemma_mul_inequality(
                kk,
                minutes_to_target(d) - minutes_to_critical(d),
                step,
            );
        }
        assert(minutes_to_critical(d) * step + (minutes_to_target(d) - minutes_to_critical(d))
            * step == minutes_to_target(d) * step) by (nonlinear_arith) {}
        assert(flex_max(d, i) == base_soe(d) + minutes_to_target(d) * step);
    }
}

/// Within one envelope both bounds are non-decreasing from each point to
/// the next.
pub proof fn lemma_envelope_bounds_nondecreasing(d: EnergyDemand, i: int)
    requires
        d.wf(),
        0 <= i,
        i + 1 < flex_len(d),
    ensures
        flex_min(d, i) <= flex_min(d, i + 1),
        flex_max(d, i) <= flex_max(d, i + 1),
{
    lemma_energy_bounds(d);
    let step = minute_energy_step(d);
    let n1 = asap_len(d);
    let n2 = middle_len(d);
    if i + 1 < n1 {
        lemma_asap_min_props(d, i);
        assert(i * step + step == (i + 1) * step) by (nonlinear_arith) {}
        assert(i * step <= (i + 1) * step);
    } else if i < n1 {
        // crossing out of the earliest-charging segment: both bounds are
        // carried over unchanged, or the latest-charging climb starts at
        // the carried value.
        assert(i == n1 - 1);
        assert(flex_max(d, i) == state_max(d));
        assert(flex_min(d, i) == state_min(d));
        if i + 1 < n1 + n2 {
        } else {
            let kk = alap_first(d) + i + 1 - n1 - n2;
            assert(alap_first(d) >= 0) by {
                if alap_start(d) <= asap_end(d) {
                    vstd::arithmetic::div_mod::lemma_div_pos_is_pos(
                        asap_end(d) - alap_start(d),
                        60,
                    );
                }
            }
            assert(0 <= kk * step) by (nonlinear_arith)
                requires
                    kk >= 0,
                    step >= 0,
            {}
        }
    } else if i + 1 < n1 + n2 {
    } else if i < n1 + n2 {
        let kk = alap_first(d) + i + 1 - n1 - n2;
        assert(alap_first(d) >= 0) by {
            if alap_start(d) <= asap_end(d) {
                vstd::arithmetic::div_mod::lemma_div_pos_is_pos(asap_end(d) - alap_start(d), 60);
            }
        }
        assert(0 <= kk * step) by (nonlinear_arith)
            requires
                kk >= 0,
                step >= 0,
        {}
    } else {
        let kk = alap_first(d) + i - n1 - n2;
        assert(kk * step + step == (kk + 1) * step) by (nonlinear_arith) {}
        assert(kk * step <= (kk + 1) * step);
    }
}

/// Every component of the envelope length is a count, so the length is
/// never negative.
pub proof fn lemma_flex_len_nonneg(d: EnergyDemand)
    ensures
        0 <= asap_len(d),
        0 <= middle_len(d),
        0 <= alap_len(d),
        flex_len(d) == flex_series(d).len(),
{
    let w = alap_start(d) - asap_end(d);
    if w >= 1 {
        vstd::arithmetic::div_mod::lemma_div_pos_is_pos(w - 1, 60);
    }
}

/// For a feasible demand whose window is a whole number of minutes, whose
/// target is at least the current and the minimum charge level, and whose
/// window is wide enough that the latest start does not precede the
/// earliest finish, the envelope covers `[start, end]` with exactly one
/// point per whole minute: point `i` sits at `start + 60 i`, and there are
/// `(end - start) / 60 + 1` of them — no gap and no duplicate.
pub proof fn lemma_envelope_tiles_window(d: EnergyDemand)
    requires
        d.wf(),
        feasible(d),
        (d.end - d.start) as int % 60 == 0,
        energy_demand(d) >= 0,
        minutes_to_critical(d) <= minutes_to_target(d),
        asap_end(d) <= alap_start(d),
    ensures
        flex_len(d) == (d.end - d.start) / 60 + 1,
        forall|i: int| 0 <= i < flex_len(d) ==> flex_time(d, i) == d.start + 60 * i,
{
    lemma_energy_bounds(d);
    let ll = (d.end - d.start) as int / 60;
    vstd::arithmetic::div_mod::lemma_fundamental_div_mod((d.end - d.start) as int, 60);
    assert(d.end - d.start == 60 * ll);
    let m = minutes_to_target(d);
    let c = minutes_to_critical(d);
    assert(m >= 0) by {
        lemma_div_trunc_bounds(energy_demand(d) * 60, d.max_charging_power as int);
        assert(energy_demand(d) * 60 >= 0) by (nonlinear_arith)
            requires
                energy_demand(d) >= 0,
        {}
    }
    assert(c >= 0) by {
        lemma_div_trunc_bounds(critical_demand(d) * 60, d.max_charging_power as int);
        assert(critical_demand(d) * 60 >= 0) by (nonlinear_arith)
            requires
                critical_demand(d) >= 0,
        {}
    }
    let g = ll - 2 * m + c;
    assert(alap_start(d) - asap_end(d) == 60 * g);
    assert(g >= 0);
    assert(asap_len(d) == m + 1);
    if g >= 1 {
        assert(middle_len(d) == g - 1) by {
            lemma_div_sixty_between(60 * g - 1, g - 1);
        }
        assert(alap_first(d) == 0);
        assert(alap_len(d) == m - c + 1);
    } else {
        assert(g == 0);
        assert(middle_len(d) == 0);
        assert(alap_first(d) == 1) by {
            vstd::arithmetic::div_mod::lemma_basic_div(0, 60);
        }
        if m > c {
            assert(alap_len(d) == m - c);
        } else {
            assert(alap_len(d) == 0);
        }
    }
    assert(flex_len(d) == ll + 1);
    assert forall|i: int| 0 <= i < flex_len(d) implies flex_time(d, i) == d.start + 60 * i by {
        if i < asap_len(d) {
        } else if i < asap_len(d) + middle_len(d) {
            assert(flex_time(d, i) == asap_end(d) + 60 * (i - asap_len(d) + 1));
        } else {
            assert(flex_time(d, i) == alap_start(d) + 60 * (alap_first(d) + i - asap_len(d)
                - middle_len(d)));
        }
    }
}

/// Builds one demand's flexibility envelope: the earliest-charging climb
/// over `[start, asap_end]`, the flat stretch strictly between `asap_end`
/// and `alap_start`, and the latest-charging climb over `[alap_start, end]`
/// — skipping any grid point of the latter already covered by the first
/// segment, so no timestamp is reported twice. Returns `None` exactly when
/// full-power charging cannot finish within the availability window.
pub fn create_flex_series(demand: &EnergyDemand) -> (r: Option<Vec<AggregationDT>>)
    requires
        demand.wf(),
    ensures
        r is Some <==> feasible(*demand),
        r matches Some(s) ==> s@ == flex_series(*demand),
{
    let ghost d = *demand;
    proof {
        lemma_energy_bounds(d);
        if energy_demand(d) >= 0 {
            lemma_step_times_minutes(d.max_charging_power as int, energy_demand(d));
        }
    }
    let one_percent = demand.capacity / 100;
    let soc_gap = demand.target_soc - demand.current_soc;
    let e_demand = soc_gap * one_percent;
    let c_demand = if demand.min_soc > demand.current_soc {
        (demand.min_soc - demand.current_soc) * one_percent
    } else {
        0
    };
    let ed60 = e_demand * 60;
    let cd60 = c_demand * 60;
    let ttc_max = div_trunc_i32(ed60, demand.max_charging_power);
    let ttc_crit = div_trunc_i32(cd60, demand.max_charging_power);
    let step = demand.max_charging_power / 60;
    proof {
        assert(ttc_max as int == minutes_to_target(d));
        assert(ttc_crit as int == minutes_to_critical(d));
        assert(step as int == minute_energy_step(d));
    }
    let asap_end_t: i64 = demand.start + 60 * (ttc_max as i64);
    let alap_start_t: i64 = demand.end - 60 * (ttc_max as i64) + 60 * (ttc_crit as i64);
    proof {
        assert(asap_end_t as int == asap_end(d));
        assert(alap_start_t as int == alap_start(d));
    }

    if asap_end_t > demand.end {
        return None;
    }

    let mut series: Vec<AggregationDT> = Vec::new();
    let mut max_state = demand.current_soc * one_percent;
    let mut min_state = max_state;
    let min_floor = demand.min_soc * one_percent;
    proof {
        assert(max_state as int == base_soe(d));
        assert(min_floor as int == min_soe_floor(d));
    }

    // Earliest-charging segment: both bounds start at the arrival energy;
    // the upper bound climbs a full step every minute, the lower bound
    // climbs only while it would stay below the minimum-charge floor.
    if ttc_max >= 0 {
        series.push(
            AggregationDT {
                min_soe: min_state,
                max_soe: max_state,
                max_charging_power: demand.max_charging_power,
                time: demand.start,
            },
        );
        proof {
            assert(series@[0] == flex_point(d, 0));
        }
        let mut k: i32 = 1;
        let mut t: i64 = demand.start;
        while k <= ttc_max
            invariant
                d == *demand,
                d.wf(),
                feasible(d),
                ttc_max as int == minutes_to_target(d),
                0 <= ttc_max as int,
                step as int == minute_energy_step(d),
                min_floor as int == min_soe_floor(d),
                1 <= k as int <= ttc_max as int + 1,
                t == d.start + 60 * (k - 1),
                max_state as int == base_soe(d) + (k - 1) * minute_energy_step(d),
                min_state as int == asap_min_at(d, k - 1),
                series@.len() == k as int,
                forall|j: int| 0 <= j < series@.len() ==> series@[j] == flex_point(d, j),
            decreases ttc_max + 1 - k,
        {
            proof {
                lemma_energy_bounds(d);
                lemma_asap_min_props(d, k - 1);
                if energy_demand(d) >= 0 {
                    lemma_step_times_minutes(d.max_charging_power as int, energy_demand(d));
                }
                assert((k - 1) * minute_energy_step(d) + minute_energy_step(d) == (
                k as int) * minute_energy_step(d)) by (nonlinear_arith) {}
                assert((k as int) * minute_energy_step(d) <= minutes_to_target(d)
                    * minute_energy_step(d)) by {
                    vstd::arithmetic::mul::lemma_mul_inequality(
                        k as int,
                        minutes_to_target(d),
                        minute_energy_step(d),
                    );
                }
                assert(energy_demand(d) >= 0) by {
                    if energy_demand(d) < 0 {
                        lemma_div_trunc_bounds(
                            energy_demand(d) * 60,
                            d.max_charging_power as int,
                        );
                        assert(energy_demand(d) * 60 < 0) by (nonlinear_arith)
                            requires
                                energy_demand(d) < 0,
                        {}
                    }
                }
            }
            max_state = max_state + step;
            if min_state + step < min_floor {
                min_state = min_state + step;
            }
            t = t + 60;
            series.push(
                AggregationDT {
                    min_soe: min_state,
                    max_soe: max_state,
                    max_charging_power: demand.max_charging_power,
                    time: t,
                },
            );
            proof {
                assert(min_state as int == asap_min_at(d, k as int));
                assert(series@[k as int] == flex_point(d, k as int));
            }
            k = k + 1;
        }
    }
    proof {
        assert(series@.len() == asap_len(d));
        assert(max_state as int == state_max(d));
        assert(min_state as int == state_min(d));
    }

    // Flat stretch: both bounds held at the values the earliest-charging
    // segment ended with.
    let mut t2: i64 = asap_end_t + 60;
    while t2 < alap_start_t
        invariant
            d == *demand,
            d.wf(),
            feasible(d),
            asap_end_t as int == asap_end(d),
            alap_start_t as int == alap_start(d),
            max_state as int == state_max(d),
            min_state as int == state_min(d),
            asap_len(d) <= series@.len(),
            t2 == asap_end(d) + 60 * (series@.len() - asap_len(d) + 1),
            series@.len() > asap_len(d) ==> asap_end(d) + 60 * (series@.len() - asap_len(d))
                < alap_start(d),
            forall|j: int| 0 <= j < series@.len() ==> series@[j] == flex_point(d, j),
        decreases alap_start_t + 60 - t2,
    {
        let ghost i = series@.len() as int;
        proof {
            lemma_energy_bounds(d);
            let w = alap_start(d) - asap_end(d);
            assert(60 * (i - asap_len(d) + 1) <= w - 1);
            lemma_div_sixty_exact(i - asap_len(d) + 1);
            vstd::arithmetic::div_mod::lemma_div_is_ordered(
                60 * (i - asap_len(d) + 1),
                w - 1,
                60,
            );
            assert(i - asap_len(d) + 1 <= middle_len(d));
        }
        series.push(
            AggregationDT {
                min_soe: min_state,
                max_soe: max_state,
                max_charging_power: demand.max_charging_power,
                time: t2,
            },
        );
        proof {
            assert(series@[i] == flex_point(d, i));
        }
        t2 = t2 + 60;
    }
    proof {
        let j = series@.len() - asap_len(d);
        let w = alap_start(d) - asap_end(d);
        assert(w <= 60 * (j + 1));
        if j >= 1 {
            assert(60 * j <= w - 1);
            lemma_div_sixty_exact(j);
            vstd::arithmetic::div_mod::lemma_div_is_ordered(60 * j, w - 1, 60);
            assert((w - 1) / 60 <= j) by {
                vstd::arithmetic::div_mod::lemma_div_is_ordered(w - 1, 60 * j + 59, 60);
                vstd::arithmetic::div_mod::lemma_hoist_over_denominator(59, j, 60);
                vstd::arithmetic::div_mod::lemma_basic_div(59, 60);
            }
            assert(j == middle_len(d));
        } else {
            if w >= 1 {
                assert(w - 1 <= 59);
                vstd::arithmetic::div_mod::lemma_basic_div(w - 1, 60);
            }
            assert(middle_len(d) == 0);
        }
        assert(series@.len() == asap_len(d) + middle_len(d));
    }

    // Latest-charging segment: the upper bound stays put; the lower bound
    // climbs a full step every minute, modeling charging delayed to the
    // last possible moment. Grid points not past `asap_end` are skipped.
    let mut t3: i64 = alap_start_t;
    let mut cur_min = min_state;
    let mut kk: i64 = 0;
    while t3 <= demand.end
        invariant
            d == *demand,
            d.wf(),
            feasible(d),
            asap_end_t as int == asap_end(d),
            alap_start_t as int == alap_start(d),
            max_state as int == state_max(d),
            min_state as int == state_min(d),
            step as int == minute_energy_step(d),
            0 <= kk,
            kk == 0 || kk - 1 <= alap_last(d),
            t3 == alap_start(d) + 60 * kk,
            cur_min as int == state_min(d) + kk * minute_energy_step(d),
            series@.len() == asap_len(d) + middle_len(d) + (if kk <= alap_first(d) {
                0int
            } else {
                kk - alap_first(d)
            }),
            forall|j: int| 0 <= j < series@.len() ==> series@[j] == flex_point(d, j),
        decreases demand.end + 60 - t3,
    {
        proof {
            lemma_energy_bounds(d);
            assert(60 * kk <= 60 * alap_last(d));
            assert(kk <= alap_last(d));
        }
        if t3 > asap_end_t {
            let ghost i = series@.len() as int;
            proof {
                if alap_start(d) <= asap_end(d) {
                    lemma_grid_threshold(asap_end(d) - alap_start(d), kk as int);
                }
                assert(kk == alap_first(d) + (i - asap_len(d) - middle_len(d)));
                assert(i < flex_len(d));
            }
            series.push(
                AggregationDT {
                    min_soe: cur_min,
                    max_soe: max_state,
                    max_charging_power: demand.max_charging_power,
                    time: t3,
                },
            );
            proof {
                assert(series@[i] == flex_point(d, i));
            }
        } else {
            proof {
                if alap_start(d) <= asap_end(d) {
                    lemma_grid_threshold(asap_end(d) - alap_start(d), kk as int);
                }
                assert(kk < alap_first(d));
            }
        }
        proof {
            lemma_asap_min_props(d, if asap_len(d) >= 1 {
                asap_len(d) - 1
            } else {
                0
            });
            assert(0 <= state_min(d) <= d.capacity);
            assert(minutes_to_critical(d) >= 0) by {
                lemma_div_trunc_bounds(critical_demand(d) * 60, d.max_charging_power as int);
                assert(critical_demand(d) * 60 >= 0) by (nonlinear_arith)
                    requires
                        critical_demand(d) >= 0,
                {}
            }
            assert(minutes_to_target(d) * minute_energy_step(d) <= d.capacity) by {
                if energy_demand(d) >= 0 {
                    lemma_step_times_minutes(d.max_charging_power as int, energy_demand(d));
                } else {
                    lemma_div_trunc_bounds(energy_demand(d) * 60, d.max_charging_power as int);
                    assert(energy_demand(d) * 60 < 0) by (nonlinear_arith)
                        requires
                            energy_demand(d) < 0,
                    {}
                    assert(minutes_to_target(d) <= 0);
                    assert(minutes_to_target(d) * minute_energy_step(d) <= 0) by (nonlinear_arith)
                        requires
                            minutes_to_target(d) <= 0,
                            minute_energy_step(d) >= 0,
                    {}
                }
            }
            assert(0 <= kk * minute_energy_step(d)) by (nonlinear_arith)
                requires
                    kk >= 0,
                    minute_energy_step(d) >= 0,
            {}
            assert((kk + 1) * minute_energy_step(d) <= minutes_to_target(d) * minute_energy_step(d)
                + minute_energy_step(d)) by (nonlinear_arith)
                requires
                    kk + 1 <= minutes_to_target(d) - minutes_to_critical(d) + 1,
                    minutes_to_critical(d) >= 0,
                    minute_energy_step(d) >= 0,
            {}
            assert(kk * minute_energy_step(d) + minute_energy_step(d) == (kk + 1)
                * minute_energy_step(d)) by (nonlinear_arith) {}
        }
        cur_min = cur_min + step;
        t3 = t3 + 60;
        kk = kk + 1;
    }
    proof {
        if kk == 0 {
            assert(alap_start(d) > d.end);
            assert(60 * (minutes_to_target(d) - minutes_to_critical(d)) < 0);
            assert(alap_last(d) < 0);
            assert(alap_len(d) == 0);
        } else {
            assert(t3 == alap_start(d) + 60 * kk > d.end);
            assert(d.end - alap_start(d) == 60 * alap_last(d));
            assert(60 * kk > 60 * alap_last(d));
            assert(kk == alap_last(d) + 1);
            if alap_first(d) <= alap_last(d) {
                assert(series@.len() == asap_len(d) + middle_len(d) + alap_len(d));
            } else {
                assert(alap_first(d) >= 0);
                assert(series@.len() == asap_len(d) + middle_len(d));
                assert(alap_len(d) == 0);
            }
        }
        assert(series@.len() == flex_len(d));
        assert(series@ =~= flex_series(d));
    }
    Some(series)
}

/// The aggregate window's start: the earliest demand start, seeded at
/// `now`. Every demand widens it, infeasible ones included.
pub open spec fn agg_start(ds: Seq<EnergyDemand>, now: int) -> int
    decreases ds.len(),
{
    if ds.len() == 0 {
        now
    } else {
        let p = agg_start(ds.drop_last(), now);
        if (ds.last().start as int) < p {
            ds.last().start as int
        } else {
            p
        }
    }
}

/// The aggregate window's end: the latest demand end, seeded at `now`.
pub open spec fn agg_end(ds: Seq<EnergyDemand>, now: int) -> int
    decreases ds.len(),
{
    if ds.len() == 0 {
        now
    } else {
        let p = agg_end(ds.drop_last(), now);
        if (ds.last().end as int) > p {
            ds.last().end as int
        } else {
            p
        }
    }
}

/// The aggregate series: every feasible demand's envelope, concatenated in
/// store order; infeasible demands contribute no points.
pub open spec fn agg_series(ds: Seq<EnergyDemand>) -> Seq<AggregationDT>
    decreases ds.len(),
{
    if ds.len() == 0 {
        Seq::empty()
    } else {
        agg_series(ds.drop_last()) + (if feasible(ds.last()) {
            flex_series(ds.last())
        } else {
            Seq::empty()
        })
    }
}

impl crate::demand::Demands {
    /// Folds all stored demands into one aggregate. The window starts from
    /// `now` and is widened by every demand — infeasible ones claim their
    /// window too, though they add no points; the series is the
    /// concatenation, in store order, of each feasible demand's envelope.
    pub fn compute_aggregation(&self, now: i64) -> (r: Aggregation)
        requires
            self.wf(),
        ensures
            r.start as int == agg_start(self.demands@, now as int),
            r.end as int == agg_end(self.demands@, now as int),
            r.series@ == agg_series(self.demands@),
    {
        let ghost all = self.demands@;
        let mut start = now;
        let mut end = now;
        let mut series: Vec<AggregationDT> = Vec::new();
        let mut idx: usize = 0;
        proof {
            assert(all.take(0) =~= Seq::<EnergyDemand>::empty());
            assert(series@ =~= agg_series(all.take(0)));
        }
        while idx < self.demands.len()
            invariant
                all == self.demands@,
                self.wf(),
                idx <= all.len(),
                start as int == agg_start(all.take(idx as int), now as int),
                end as int == agg_end(all.take(idx as int), now as int),
                series@ == agg_series(all.take(idx as int)),
            decreases all.len() - idx,
        {
            let d = &self.demands[idx];
            if d.start < start {
                start = d.start;
            }
            if d.end > end {
                end = d.end;
            }
            let envelope = create_flex_series(d);
            if let Some(mut env) = envelope {
                series.append(&mut env);
            }
            proof {
                assert(all.take(idx + 1).drop_last() =~= all.take(idx as int));
                assert(all.take(idx + 1).last() == all[idx as int]);
                if !feasible(all[idx as int]) {
                    assert(series@ =~= agg_series(all.take(idx as int)) + Seq::<
                        AggregationDT,
                    >::empty());
                }
                assert(series@ == agg_series(all.take(idx + 1)));
            }
            idx = idx + 1;
        }
        proof {
            assert(all.take(all.len() as int) =~= all);
        }
        Aggregation { start, end, series }
    }
}

/// An infeasible demand leaves the aggregate series exactly as it was: it
/// contributes zero points.
pub proof fn lemma_infeasible_contributes_nothing(ds: Seq<EnergyDemand>, d: EnergyDemand)
    requires
        !feasible(d),
    ensures
        agg_series(ds.push(d)) == agg_series(ds),
{
    assert(ds.push(d).drop_last() =~= ds);
    assert(ds.push(d).last() == d);
    assert(agg_series(ds.push(d)) =~= agg_series(ds));
}

/// Aggregating exactly two feasible demands: as long as `now` lies within
/// the union of their windows, the aggregate window is the least start and
/// the greatest end of the two, and the series is one envelope followed by
/// the other — its length is the sum of the two envelope lengths.
pub proof fn lemma_aggregate_pair(d1: EnergyDemand, d2: EnergyDemand, now: int)
    requires
        feasible(d1),
        feasible(d2),
        (if d1.start <= d2.start {
            d1.start as int
        } else {
            d2.start as int
        }) <= now,
        now <= (if d1.end >= d2.end {
            d1.end as int
        } else {
            d2.end as int
        }),
    ensures
        agg_start(seq![d1, d2], now) == (if d1.start <= d2.start {
            d1.start as int
        } else {
            d2.start as int
        }),
        agg_end(seq![d1, d2], now) == (if d1.end >= d2.end {
            d1.end as int
        } else {
            d2.end as int
        }),
        agg_series(seq![d1, d2]) == flex_series(d1) + flex_series(d2),
        agg_series(seq![d1, d2]).len() == flex_len(d1) + flex_len(d2),
{
    let pair = seq![d1, d2];
    let single = seq![d1];
    let none = Seq::<EnergyDemand>::empty();
    assert(pair.drop_last() =~= single);
    assert(single.drop_last() =~= none);
    assert(pair.last() == d2);
    assert(single.last() == d1);
    assert(agg_start(none, now) == now);
    assert(agg_start(single, now) == (if (d1.start as int) < now {
        d1.start as int
    } else {
        now
    }));
    assert(agg_start(pair, now) == (if (d2.start as int) < agg_start(single, now) {
        d2.start as int
    } else {
        agg_start(single, now)
    }));
    assert(agg_end(none, now) == now);
    assert(agg_end(single, now) == (if (d1.end as int) > now {
        d1.end as int
    } else {
        now
    }));
    assert(agg_end(pair, now) == (if (d2.end as int) > agg_end(single, now) {
        d2.end as int
    } else {
        agg_end(single, now)
    }));
    assert(agg_series(none) =~= Seq::<AggregationDT>::empty());
    assert(agg_series(single) =~= flex_series(d1));
    assert(agg_series(pair) =~= flex_series(d1) + flex_series(d2));
    lemma_flex_len_nonneg(d1);
    lemma_flex_len_nonneg(d2);
}

} // verus!
