//! Two progress bars, for the first and the second dose.
use crate::series::{DataError, RecordCovid19br};
use crate::text::{decimal_string, decimal_text};
use vstd::prelude::*;

verus! {

/// Width of a bar, in blocks.
pub const BAR_WIDTH: u64 = 20;

/// One percentage point, in the millionths that percentages are held in.
pub const POINT: u64 = 1_000_000;

/// `n` copies of `c`.
pub open spec fn repeated(c: char, n: nat) -> Seq<char> {
    Seq::new(n, |i: int| c)
}

/// Filled blocks for a percentage (in millionths of a point): one per five
/// points, at most `BAR_WIDTH`.
pub open spec fn filled_blocks(percent: int) -> int {
    let f = percent * BAR_WIDTH as int / (100 * POINT as int);
    if f > BAR_WIDTH as int {
        BAR_WIDTH as int
    } else {
        f
    }
}

/// The percentage in tenths of a point, half a tenth rounded up.
pub open spec fn percent_tenths(percent: int) -> int {
    (percent + POINT as int / 20) / (POINT as int / 10)
}

/// The percentage with one decimal and a decimal comma, as `"12,3"`.
pub open spec fn percent_text(percent: int) -> Seq<char> {
    let t = percent_tenths(percent);
    decimal_text((t / 10) as nat) + ","@ + decimal_text((t % 10) as nat)
}

/// One bar: filled blocks, empty blocks, a space and the percentage.
pub open spec fn bar_line(percent: int) -> Seq<char> {
    repeated('▓', filled_blocks(percent) as nat) + repeated(
        '░',
        (BAR_WIDTH as int - filled_blocks(percent)) as nat,
    ) + " "@ + percent_text(percent) + "%"@
}

/// The text of both bars.
pub open spec fn progress_text(first: int, second: int) -> Seq<char> {
    "1ª dose:\n"@ + bar_line(first) + "\n\n2ª dose:\n"@ + bar_line(second)
}

fn push_repeated(s: &mut String, block: &str, n: u64)
    requires
        block@.len() == 1,
    ensures
        final(s)@ == old(s)@ + repeated(block@[0], n as nat),
{
    let mut i: u64 = 0;
    while i < n
        invariant
            block@.len() == 1,
            i <= n,
            s@ == old(s)@ + repeated(block@[0], i as nat),
        decreases n - i,
    {
        s.append(block);
        i = i + 1;
        assert(s@ =~= old(s)@ + repeated(block@[0], i as nat));
    }
}

/// One bar for a percentage given in millionths of a point.
pub fn bar_string(percent: u128) -> (r: String)
    requires
        percent <= 2 * u64::MAX,
    ensures
        r@ == bar_line(percent as int),
{
    proof {
        reveal_strlit("▓");
        reveal_strlit("░");
    }
    let f: u128 = percent * (BAR_WIDTH as u128) / (100 * POINT as u128);
    let filled: u64 = if f > BAR_WIDTH as u128 {
        BAR_WIDTH
    } else {
        f as u64
    };
    let mut s = String::new();
    push_repeated(&mut s, "▓", filled);
    push_repeated(&mut s, "░", BAR_WIDTH - filled);
    s.append(" ");
    let tenths: u128 = (percent + (POINT / 20) as u128) / ((POINT / 10) as u128);
    s.append(decimal_string((tenths / 10) as u64).as_str());
    s.append(",");
    s.append(decimal_string((tenths % 10) as u64).as_str());
    s.append("%");
    assert(s@ =~= bar_line(percent as int));
    s
}

/// The bars of a row: first-dose coverage (first doses and single doses)
/// and full coverage (second doses and single doses). Fails when one of the
/// three percentages was not reported.
pub fn format_progress(data: &RecordCovid19br) -> (r: Result<String, DataError>)
    ensures
        ({
            let (first, second, single) = (
                data.vaccinated_per_100_inhabitants,
                data.vaccinated_second_per_100_inhabitants,
                data.vaccinated_single_per_100_inhabitants,
            );
            &&& (first is None || second is None || single is None) <==> r is Err
            &&& r is Err ==> r == Err::<String, DataError>(DataError::MissingData)
            &&& r matches Ok(s) ==> s@ == progress_text(
                first->0 + single->0,
                second->0 + single->0,
            )
        }),
{
    let single = match data.vaccinated_single_per_100_inhabitants {
        Some(p) => p,
        None => return Err(DataError::MissingData),
    };
    let first = match data.vaccinated_per_100_inhabitants {
        Some(p) => p,
        None => return Err(DataError::MissingData),
    };
    let second = match data.vaccinated_second_per_100_inhabitants {
        Some(p) => p,
        None => return Err(DataError::MissingData),
    };
    let mut s = String::from_str("1ª dose:\n");
    s.append(bar_string(first as u128 + single as u128).as_str());
    s.append("\n\n2ª dose:\n");
    s.append(bar_string(second as u128 + single as u128).as_str());
    Ok(s)
}

/// An empty ratio gives twenty empty blocks and `0,0%`.
pub proof fn lemma_progress_empty()
    ensures
        filled_blocks(0) == 0,
        bar_line(0) == repeated('░', BAR_WIDTH as nat) + " 0,0%"@,
{
    reveal_strlit(" ");
    reveal_strlit(",");
    reveal_strlit("%");
    reveal_strlit(" 0,0%");
    assert(decimal_text(0) =~= seq!['0']);
    assert(bar_line(0) =~= repeated('░', BAR_WIDTH as nat) + " 0,0%"@);
}

/// A ratio of one or more (a percentage of at least 100 points) fills all
/// twenty blocks, and the percentage shown is at least `100,0`.
pub proof fn lemma_progress_full(percent: int)
    requires
        percent >= 100 * POINT as int,
    ensures
        filled_blocks(percent) == BAR_WIDTH as int,
        bar_line(percent).subrange(0, BAR_WIDTH as int) == repeated('▓', BAR_WIDTH as nat),
        percent_tenths(percent) >= 1000,
{
    assert(percent * 20 / 100_000_000 >= 20) by (nonlinear_arith)
        requires
            percent >= 100_000_000,
    ;
    assert((percent + 50_000) / 100_000 >= 1000) by (nonlinear_arith)
        requires
            percent >= 100_000_000,
    ;
    assert(bar_line(percent).subrange(0, BAR_WIDTH as int) =~= repeated('▓', BAR_WIDTH as nat));
}

} // verus!
