//! Picking the current row and the row a week earlier, and the daily rate between them.
use crate::civil::{follows, is_next_day};
use crate::estimate::estimate_outcome;
use crate::text::same_text;
use vstd::prelude::*;

verus! {

/// Rows between the anchor and the current row.
pub const WINDOW: usize = 7;

/// One row of the per-state vaccination series.
///
/// The `*_per_100_inhabitants` fields are percentages in millionths of a
/// point: `12.5` is held as `12_500_000`.
#[derive(Debug)]
pub struct RecordCovid19br {
    pub date: String,
    pub country: String,
    pub state: String,
    pub vaccinated: Option<u32>,
    pub vaccinated_per_100_inhabitants: Option<u64>,
    pub vaccinated_second: Option<u32>,
    pub vaccinated_second_per_100_inhabitants: Option<u64>,
    pub vaccinated_single: Option<u32>,
    pub vaccinated_single_per_100_inhabitants: Option<u64>,
}

/// What a row holds, as plain values.
pub struct RecordView {
    pub date: Seq<char>,
    pub country: Seq<char>,
    pub state: Seq<char>,
    pub vaccinated: Option<u32>,
    pub vaccinated_per_100_inhabitants: Option<u64>,
    pub vaccinated_second: Option<u32>,
    pub vaccinated_second_per_100_inhabitants: Option<u64>,
    pub vaccinated_single: Option<u32>,
    pub vaccinated_single_per_100_inhabitants: Option<u64>,
}

impl View for RecordCovid19br {
    type V = RecordView;

    open spec fn view(&self) -> RecordView {
        RecordView {
            date: self.date@,
            country: self.country@,
            state: self.state@,
            vaccinated: self.vaccinated,
            vaccinated_per_100_inhabitants: self.vaccinated_per_100_inhabitants,
            vaccinated_second: self.vaccinated_second,
            vaccinated_second_per_100_inhabitants: self.vaccinated_second_per_100_inhabitants,
            vaccinated_single: self.vaccinated_single,
            vaccinated_single_per_100_inhabitants: self.vaccinated_single_per_100_inhabitants,
        }
    }
}

/// The views of a sequence of rows.
pub open spec fn views(rs: Seq<RecordCovid19br>) -> Seq<RecordView> {
    rs.map_values(|r: RecordCovid19br| r@)
}

impl Clone for RecordCovid19br {
    fn clone(&self) -> (r: Self)
        ensures
            r == *self,
    {
        RecordCovid19br {
            date: self.date.clone(),
            country: self.country.clone(),
            state: self.state.clone(),
            vaccinated: self.vaccinated,
            vaccinated_per_100_inhabitants: self.vaccinated_per_100_inhabitants,
            vaccinated_second: self.vaccinated_second,
            vaccinated_second_per_100_inhabitants: self.vaccinated_second_per_100_inhabitants,
            vaccinated_single: self.vaccinated_single,
            vaccinated_single_per_100_inhabitants: self.vaccinated_single_per_100_inhabitants,
        }
    }
}

/// Why the series gives no estimate.
#[derive(Debug, Clone, Copy, PartialEq, Eq, Structural)]
pub enum DataError {
    /// Fewer rows qualify than the rolling window needs.
    InsufficientData,
    /// A figure needed for the progress bars was not reported.
    MissingData,
}

/// Where a row belongs: the whole country, or one of its states.
#[derive(Debug, Clone, Copy, PartialEq, Eq, Structural)]
pub enum Region {
    Aggregate,
    Subdivision,
}

/// The label `TOTAL` marks the row of the whole country.
pub open spec fn region_of(state: Seq<char>) -> Region {
    if state == "TOTAL"@ {
        Region::Aggregate
    } else {
        Region::Subdivision
    }
}

/// An absent count counts as zero.
pub open spec fn count_or_zero(c: Option<u32>) -> int {
    match c {
        Some(n) => n as int,
        None => 0,
    }
}

/// Doses given: first and second doses, and single doses twice.
pub open spec fn total_of(r: RecordView) -> int {
    count_or_zero(r.vaccinated) + count_or_zero(r.vaccinated_second) + 2 * count_or_zero(
        r.vaccinated_single,
    )
}

/// Doses a day over the window, rounded down. A total that went down
/// (a correction of the data) gives a rate of zero, which the estimator rejects.
pub open spec fn daily_rate_of(current: RecordView, anchor: RecordView) -> int {
    if total_of(current) >= total_of(anchor) {
        (total_of(current) - total_of(anchor)) / WINDOW as int
    } else {
        0
    }
}

/// A row of the whole country, not of a state, and not dated `today`.
pub open spec fn qualifies(r: RecordView, today: Seq<char>) -> bool {
    region_of(r.state) == Region::Aggregate && r.date != today
}

/// Positions, in order, of the qualifying rows among the first `n`.
pub open spec fn qualifying_positions(rs: Seq<RecordView>, today: Seq<char>, n: int) -> Seq<
    int,
>
    decreases n,
{
    if n <= 0 {
        Seq::empty()
    } else {
        qualifying_positions(rs, today, n - 1) + (if qualifies(rs[n - 1], today) {
            seq![n - 1]
        } else {
            Seq::empty()
        })
    }
}

/// Across the last `WINDOW + 1` listed positions, each row is dated the
/// day after the row before it.
pub open spec fn window_consecutive(rs: Seq<RecordView>, q: Seq<int>) -> bool {
    forall|k: int|
        q.len() - 1 - WINDOW <= k < q.len() - 1 ==> #[trigger] follows(
            rs[q[k]].date,
            rs[q[k + 1]].date,
        )
}

/// Every listed position is that of a qualifying row among the first `n`,
/// in increasing order.
pub proof fn lemma_positions_qualify(rs: Seq<RecordView>, today: Seq<char>, n: int)
    requires
        0 <= n <= rs.len(),
    ensures
        forall|k: int|
            0 <= k < qualifying_positions(rs, today, n).len() ==> {
                let p = #[trigger] qualifying_positions(rs, today, n)[k];
                0 <= p < n && qualifies(rs[p], today)
            },
        forall|k: int, l: int|
            0 <= k < l < qualifying_positions(rs, today, n).len() ==> qualifying_positions(
                rs,
                today,
                n,
            )[k] < qualifying_positions(rs, today, n)[l],
    decreases n,
{
    if n > 0 {
        lemma_positions_qualify(rs, today, n - 1);
        let prev = qualifying_positions(rs, today, n - 1);
        let cur = qualifying_positions(rs, today, n);
        assert forall|k: int| 0 <= k < prev.len() implies cur[k] == prev[k] by {}
        assert forall|k: int| 0 <= k < cur.len() implies {
            let p = #[trigger] cur[k];
            0 <= p < n && qualifies(rs[p], today)
        } by {
            if k < prev.len() {
                assert(cur[k] == prev[k]);
            }
        }
        assert forall|k: int, l: int| 0 <= k < l < cur.len() implies cur[k] < cur[l] by {
            if l < prev.len() {
                assert(cur[k] == prev[k] && cur[l] == prev[l]);
            } else {
                assert(cur[k] == prev[k]);
            }
        }
    }
}

impl RecordCovid19br {
    /// Doses given by this row's date.
    pub fn vaccinated_total(&self) -> (r: u64)
        ensures
            r == total_of(self@),
    {
        let first: u64 = match self.vaccinated {
            Some(n) => n as u64,
            None => 0,
        };
        let second: u64 = match self.vaccinated_second {
            Some(n) => n as u64,
            None => 0,
        };
        let single: u64 = match self.vaccinated_single {
            Some(n) => n as u64,
            None => 0,
        };
        first + second + 2 * single
    }

    /// Whether this row is the one for the whole country or for a state.
    pub fn region(&self) -> (r: Region)
        ensures
            r == region_of(self.state@),
    {
        if same_text(self.state.as_str(), "TOTAL") {
            Region::Aggregate
        } else {
            Region::Subdivision
        }
    }
}

/// Average doses a day between `anchor` and `current`, `WINDOW` rows apart.
pub fn daily_rate(current: &RecordCovid19br, anchor: &RecordCovid19br) -> (r: u64)
    ensures
        r == daily_rate_of(current@, anchor@),
{
    let now = current.vaccinated_total();
    let before = anchor.vaccinated_total();
    if now >= before {
        (now - before) / (WINDOW as u64)
    } else {
        0
    }
}

/// Positions of the current row (the last qualifying one) and of the anchor
/// (`WINDOW` qualifying rows before it). Fails when fewer than `WINDOW + 1`
/// rows qualify, or when the dates from the anchor to the current row are
/// not consecutive days (a gap, a repeat or a step back).
pub fn select_series(records: &Vec<RecordCovid19br>, today: &str) -> (r: Result<
    (usize, usize),
    DataError,
>)
    ensures
        ({
            let q = qualifying_positions(views(records@), today@, records@.len() as int);
            &&& (q.len() <= WINDOW || !window_consecutive(views(records@), q)) <==> r is Err
            &&& r is Err ==> r == Err::<(usize, usize), DataError>(DataError::InsufficientData)
            &&& r matches Ok((current, anchor)) ==> {
                &&& current == q.last()
                &&& anchor == q[q.len() - 1 - WINDOW]
                &&& anchor < current < records@.len()
                &&& qualifies(records@[current as int]@, today@)
                &&& qualifies(records@[anchor as int]@, today@)
            }
        }),
{
    let mut positions: Vec<usize> = Vec::new();
    let mut i: usize = 0;
    while i < records.len()
        invariant
            i <= records@.len(),
            positions@.len() == qualifying_positions(views(records@), today@, i as int).len(),
            forall|k: int|
                0 <= k < positions@.len() ==> positions@[k] as int == qualifying_positions(
                    views(records@),
                    today@,
                    i as int,
                )[k],
        decreases records@.len() - i,
    {
        let r = &records[i];
        if r.region() == Region::Aggregate && !same_text(r.date.as_str(), today) {
            positions.push(i);
        }
        proof {
            assert(qualifying_positions(views(records@), today@, i + 1) == qualifying_positions(
                views(records@),
                today@,
                i as int,
            ) + (if qualifies(records@[i as int]@, today@) {
                seq![i as int]
            } else {
                Seq::empty()
            }));
        }
        i = i + 1;
    }
    proof {
        lemma_positions_qualify(views(records@), today@, records@.len() as int);
    }
    let n = positions.len();
    if n <= WINDOW {
        return Err(DataError::InsufficientData);
    }
    let ghost q = qualifying_positions(views(records@), today@, records@.len() as int);
    let ghost rs = views(records@);
    let mut k: usize = n - 1 - WINDOW;
    while k < n - 1
        invariant
            n == positions@.len(),
            n == q.len(),
            n > WINDOW,
            n - 1 - WINDOW <= k <= n - 1,
            rs == views(records@),
            q == qualifying_positions(views(records@), today@, records@.len() as int),
            forall|j: int| 0 <= j < n ==> positions@[j] as int == q[j],
            forall|j: int| 0 <= j < n ==> 0 <= #[trigger] q[j] < records@.len(),
            forall|j: int|
                n - 1 - WINDOW <= j < k ==> #[trigger] follows(rs[q[j]].date, rs[q[j + 1]].date),
        decreases n - 1 - k,
    {
        let a = positions[k];
        let b = positions[k + 1];
        assert(rs[q[k as int]] == records@[a as int]@);
        assert(rs[q[k + 1]] == records@[b as int]@);
        if !is_next_day(records[a].date.as_str(), records[b].date.as_str()) {
            assert(!follows(rs[q[k as int]].date, rs[q[k + 1]].date));
            assert(!window_consecutive(rs, q));
            return Err(DataError::InsufficientData);
        }
        k = k + 1;
    }
    Ok((positions[n - 1], positions[n - 1 - WINDOW]))
}

/// The current row, its total of doses and the daily rate over the window,
/// from rows already decoded and the date (`YYYY-MM-DD`) whose rows are left out.
pub fn latest_with_rate(records: &Vec<RecordCovid19br>, today: &str) -> (r: Result<
    (RecordCovid19br, u64, u64),
    DataError,
>)
    ensures
        ({
            let q = qualifying_positions(views(records@), today@, records@.len() as int);
            &&& (q.len() <= WINDOW || !window_consecutive(views(records@), q)) <==> r is Err
            &&& r is Err ==> r == Err::<(RecordCovid19br, u64, u64), DataError>(
                DataError::InsufficientData,
            )
            &&& r matches Ok((current, total, rate)) ==> {
                &&& current@ == views(records@)[q.last()]
                &&& total == total_of(current@)
                &&& rate == daily_rate_of(current@, views(records@)[q[q.len() - 1 - WINDOW]])
                &&& qualifies(current@, today@)
            }
        }),
{
    match select_series(records, today) {
        Err(e) => Err(e),
        Ok((current, anchor)) => {
            let row = records[current].clone();
            let total = row.vaccinated_total();
            let rate = daily_rate(&records[current], &records[anchor]);
            Ok((row, total, rate))
        },
    }
}

/// A row taken as its own anchor shows no progress: its daily rate is zero,
/// and the estimate from it is refused as a zero rate.
pub proof fn lemma_same_row_gives_zero_rate(r: RecordView, population: int)
    ensures
        daily_rate_of(r, r) == 0,
        estimate_outcome(total_of(r), daily_rate_of(r, r), population) is None,
{
}

} // verus!
