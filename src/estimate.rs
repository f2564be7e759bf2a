//! Remaining time until the herd-immunity threshold is reached.
use vstd::arithmetic::div_mod::{lemma_div_is_ordered, lemma_div_is_ordered_by_denominator};
use vstd::prelude::*;

verus! {

/// Estimated population of Brazil (IBGE, 2020).
pub const BRAZIL_POPULATION: u32 = 211755692;

/// Herd immunity is reached at `HERD_NUMERATOR / HERD_DENOMINATOR` of the population.
pub const HERD_NUMERATOR: u64 = 7;

pub const HERD_DENOMINATOR: u64 = 10;

/// Why no estimate can be given.
#[derive(Debug, Clone, Copy, PartialEq, Eq, Structural)]
pub enum EstimateError {
    /// The daily rate is zero, so the threshold is never reached.
    ZeroRate,
}

/// People needed for herd immunity: `population * 7 / 10`, rounded down.
pub open spec fn herd_target(population: int) -> int {
    population * HERD_NUMERATOR as int / HERD_DENOMINATOR as int
}

/// Doses still missing: two per person of the herd target, less those given, never negative.
pub open spec fn doses_remaining(total_vaccinations: int, population: int) -> int {
    let needed = 2 * herd_target(population);
    if needed > total_vaccinations {
        needed - total_vaccinations
    } else {
        0
    }
}

/// Whole days until the remaining doses are given at `daily_rate` doses a day.
pub open spec fn days_left(total_vaccinations: int, daily_rate: int, population: int) -> int {
    doses_remaining(total_vaccinations, population) / daily_rate
}

/// The estimate as a value: `None` where the daily rate is zero.
pub open spec fn estimate_outcome(total_vaccinations: int, daily_rate: int, population: int) -> Option<int> {
    if daily_rate == 0 {
        None
    } else {
        Some(days_left(total_vaccinations, daily_rate, population))
    }
}

/// Number of days until `2 * herd_target(population)` doses have been given,
/// starting from `total_vaccinations` at `daily_rate` doses a day. A zero rate
/// is an error.
pub fn estimate_days(total_vaccinations: u64, daily_rate: u64, population: u32) -> (r: Result<
    u64,
    EstimateError,
>)
    ensures
        match r {
            Ok(days) => estimate_outcome(
                total_vaccinations as int,
                daily_rate as int,
                population as int,
            ) == Some(days as int),
            Err(e) => e == EstimateError::ZeroRate && estimate_outcome(
                total_vaccinations as int,
                daily_rate as int,
                population as int,
            ) is None,
        },
{
    if daily_rate == 0 {
        return Err(EstimateError::ZeroRate);
    }
    let herd: u64 = (population as u64) * HERD_NUMERATOR / HERD_DENOMINATOR;
    assert(herd <= population as u64) by (nonlinear_arith)
        requires herd == (population as u64) * 7 / 10;
    let needed: u64 = 2 * herd;
    let doses: u64 = if needed > total_vaccinations {
        needed - total_vaccinations
    } else {
        0
    };
    Ok(doses / daily_rate)
}

/// The estimate for Brazil's population.
pub fn get_brazil_immunization_estimate(total_vaccinations: u64, daily_vaccinations: u64) -> (r:
    Result<u64, EstimateError>)
    ensures
        match r {
            Ok(days) => estimate_outcome(
                total_vaccinations as int,
                daily_vaccinations as int,
                BRAZIL_POPULATION as int,
            ) == Some(days as int),
            Err(e) => e == EstimateError::ZeroRate && estimate_outcome(
                total_vaccinations as int,
                daily_vaccinations as int,
                BRAZIL_POPULATION as int,
            ) is None,
        },
{
    estimate_days(total_vaccinations, daily_vaccinations, BRAZIL_POPULATION)
}

/// Every estimate is a count of days that is never negative.
pub proof fn lemma_estimate_nonnegative(total_vaccinations: int, daily_rate: int, population: int)
    requires
        total_vaccinations >= 0,
        daily_rate > 0,
        population >= 0,
    ensures
        days_left(total_vaccinations, daily_rate, population) >= 0,
{
    assert(doses_remaining(total_vaccinations, population) / daily_rate >= 0) by (nonlinear_arith)
        requires
            doses_remaining(total_vaccinations, population) >= 0,
            daily_rate > 0,
    ;
}

/// More doses already given never lengthen the estimate, and neither does a
/// higher daily rate.
pub proof fn lemma_estimate_monotonic(
    total1: int,
    total2: int,
    rate1: int,
    rate2: int,
    population: int,
)
    requires
        0 <= total1 <= total2,
        0 < rate1 <= rate2,
        population >= 0,
    ensures
        days_left(total2, rate1, population) <= days_left(total1, rate1, population),
        days_left(total1, rate2, population) <= days_left(total1, rate1, population),
{
    lemma_div_is_ordered(
        doses_remaining(total2, population),
        doses_remaining(total1, population),
        rate1,
    );
    lemma_div_is_ordered_by_denominator(doses_remaining(total1, population), rate1, rate2);
}

} // verus!
