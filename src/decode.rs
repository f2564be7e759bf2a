//! Reading the per-state vaccination series from CSV text.
use crate::calendar::{date_text, instant_in_range, utc_date_text};
use crate::number::{
    count_value, decimal_micro, first_index_of, is_first_index, lemma_first_index_unique,
    parse_count, parse_decimal,
};
use crate::series::{
    daily_rate_of, latest_with_rate, qualifies, qualifying_positions, total_of, views, window_consecutive, DataError,
    RecordCovid19br, RecordView, WINDOW,
};
use crate::text::same_text;
use vstd::prelude::*;

verus! {

/// Offset of Brasília time from UTC, in seconds.
pub const BRASILIA_OFFSET: i64 = -10800;

/// The records of a CSV document, the header row included, as csv reads
/// them; a record that csv could not read is `None`.
pub uninterp spec fn csv_records(text: Seq<char>) -> Seq<Option<Seq<Seq<char>>>>;

/// Relies on csv's `Reader::records`, with the header row read as a record:
/// the fields of each record, in order, and `None` for a record that fails
/// (one whose field count differs from the first record's).
#[verifier::external_body]
pub(crate) fn read_csv(text: &str) -> (r: Vec<Option<Vec<String>>>)
    ensures
        r.deep_view() == csv_records(text@),
{
    csv::ReaderBuilder::new()
        .has_headers(false)
        .from_reader(text.as_bytes())
        .records()
        .map(|rec| rec.ok().map(|fields| fields.iter().map(String::from).collect()))
        .collect()
}

/// The field of `row` under the column named `name`: the first column with
/// that name. `None` where no column has it or the row is too short.
pub open spec fn field_of(header: Seq<Seq<char>>, row: Seq<Seq<char>>, name: Seq<char>) -> Option<
    Seq<char>,
> {
    match first_index_of(header, name) {
        Some(i) => if i < row.len() {
            Some(row[i])
        } else {
            None
        },
        None => None,
    }
}

/// A count column: absent or empty reads as no figure; otherwise it must
/// be a count (`None` means the row does not decode).
pub open spec fn count_field(f: Option<Seq<char>>) -> Option<Option<u32>> {
    match f {
        None => Some(None),
        Some(t) => if t.len() == 0 {
            Some(None)
        } else {
            match count_value(t) {
                Some(v) => Some(Some(v as u32)),
                None => None,
            }
        },
    }
}

/// A percentage column, in millionths of a point, read as `count_field` reads counts.
pub open spec fn decimal_field(f: Option<Seq<char>>) -> Option<Option<u64>> {
    match f {
        None => Some(None),
        Some(t) => if t.len() == 0 {
            Some(None)
        } else {
            match decimal_micro(t) {
                Some(v) => Some(Some(v as u64)),
                None => None,
            }
        },
    }
}

/// The record of a data row, matched to the header by column name. `date`,
/// `country` and `state` must be present; every numeric column must be
/// empty, absent or well-formed. A count is a `u32`, in decimal or in
/// hexadecimal after `0x`. A percentage is a non-negative decimal
/// `[+]digits[.digits][(e|E)[+|-]digits]`: a negative value, `inf`, `NaN`, an
/// exponent above 999 in magnitude or a whole part above 10^12 does not decode.
pub open spec fn decoded_row(header: Seq<Seq<char>>, row: Seq<Seq<char>>) -> Option<RecordView> {
    let date = field_of(header, row, "date"@);
    let country = field_of(header, row, "country"@);
    let state = field_of(header, row, "state"@);
    let v1 = count_field(field_of(header, row, "vaccinated"@));
    let p1 = decimal_field(field_of(header, row, "vaccinated_per_100_inhabitants"@));
    let v2 = count_field(field_of(header, row, "vaccinated_second"@));
    let p2 = decimal_field(field_of(header, row, "vaccinated_second_per_100_inhabitants"@));
    let vs = count_field(field_of(header, row, "vaccinated_single"@));
    let ps = decimal_field(field_of(header, row, "vaccinated_single_per_100_inhabitants"@));
    if date is Some && country is Some && state is Some && v1 is Some && p1 is Some && v2 is Some
        && p2 is Some && vs is Some && ps is Some {
        Some(
            RecordView {
                date: date->0,
                country: country->0,
                state: state->0,
                vaccinated: v1->0,
                vaccinated_per_100_inhabitants: p1->0,
                vaccinated_second: v2->0,
                vaccinated_second_per_100_inhabitants: p2->0,
                vaccinated_single: vs->0,
                vaccinated_single_per_100_inhabitants: ps->0,
            },
        )
    } else {
        None
    }
}

/// The records of the first `n` data rows that decode, in order.
pub open spec fn decoded_rows(
    header: Seq<Seq<char>>,
    rows: Seq<Option<Seq<Seq<char>>>>,
    n: int,
) -> Seq<RecordView>
    decreases n,
{
    if n <= 0 {
        Seq::empty()
    } else {
        decoded_rows(header, rows, n - 1) + match rows[n - 1] {
            Some(row) => match decoded_row(header, row) {
                Some(v) => seq![v],
                None => Seq::empty(),
            },
            None => Seq::empty(),
        }
    }
}

/// The records of a CSV document: its first record names the columns, the
/// others are data rows; rows that do not decode are skipped.
pub open spec fn decoded_text(text: Seq<char>) -> Seq<RecordView> {
    let recs = csv_records(text);
    if recs.len() == 0 || recs[0] is None {
        Seq::empty()
    } else {
        let data = recs.subrange(1, recs.len() as int);
        decoded_rows(recs[0]->0, data, data.len() as int)
    }
}

/// Position of the first column named `name`.
fn find_column(header: &Vec<String>, name: &str) -> (r: Option<usize>)
    ensures
        match r {
            Some(i) => first_index_of(header.deep_view(), name@) == Some(i as int),
            None => first_index_of(header.deep_view(), name@) is None,
        },
{
    let ghost h = header.deep_view();
    let mut i: usize = 0;
    while i < header.len()
        invariant
            i <= header@.len(),
            h == header.deep_view(),
            forall|j: int| 0 <= j < i ==> h[j] != name@,
        decreases header@.len() - i,
    {
        if same_text(header[i].as_str(), name) {
            proof {
                assert(is_first_index(h, name@, i as int));
                lemma_first_index_unique(h, name@, i as int);
            }
            return Some(i);
        }
        i = i + 1;
    }
    assert(!exists|k: int| is_first_index(h, name@, k));
    None
}

pub(crate) fn field<'a>(header: &Vec<String>, row: &'a Vec<String>, name: &str) -> (r: Option<&'a String>)
    ensures
        match r {
            Some(f) => field_of(header.deep_view(), row.deep_view(), name@) == Some(f@),
            None => field_of(header.deep_view(), row.deep_view(), name@) is None,
        },
{
    match find_column(header, name) {
        Some(i) => if i < row.len() {
            Some(&row[i])
        } else {
            None
        },
        None => None,
    }
}

pub(crate) fn read_count(f: Option<&String>) -> (r: Option<Option<u32>>)
    ensures
        r == count_field(
            match f {
                Some(s) => Some(s@),
                None => None,
            },
        ),
{
    match f {
        None => Some(None),
        Some(s) => {
            if s.as_str().unicode_len() == 0 {
                Some(None)
            } else {
                match parse_count(s.as_str()) {
                    Some(v) => Some(Some(v)),
                    None => None,
                }
            }
        },
    }
}

pub(crate) fn read_decimal(f: Option<&String>) -> (r: Option<Option<u64>>)
    ensures
        r == decimal_field(
            match f {
                Some(s) => Some(s@),
                None => None,
            },
        ),
{
    match f {
        None => Some(None),
        Some(s) => {
            if s.as_str().unicode_len() == 0 {
                Some(None)
            } else {
                match parse_decimal(s.as_str()) {
                    Some(v) => Some(Some(v)),
                    None => None,
                }
            }
        },
    }
}

pub(crate) fn read_text(f: Option<&String>) -> (r: Option<String>)
    ensures
        match r {
            Some(s) => f is Some && s@ == f->0@,
            None => f is None,
        },
{
    match f {
        Some(s) => Some(s.clone()),
        None => None,
    }
}

/// Decodes one data row against the header.
pub fn decode_row(header: &Vec<String>, row: &Vec<String>) -> (r: Option<RecordCovid19br>)
    ensures
        match r {
            Some(rec) => decoded_row(header.deep_view(), row.deep_view()) == Some(rec@),
            None => decoded_row(header.deep_view(), row.deep_view()) is None,
        },
{
    let date = read_text(field(header, row, "date"));
    let country = read_text(field(header, row, "country"));
    let state = read_text(field(header, row, "state"));
    let v1 = read_count(field(header, row, "vaccinated"));
    let p1 = read_decimal(field(header, row, "vaccinated_per_100_inhabitants"));
    let v2 = read_count(field(header, row, "vaccinated_second"));
    let p2 = read_decimal(field(header, row, "vaccinated_second_per_100_inhabitants"));
    let vs = read_count(field(header, row, "vaccinated_single"));
    let ps = read_decimal(field(header, row, "vaccinated_single_per_100_inhabitants"));
    match (date, country, state, v1, p1, v2, p2, vs, ps) {
        (Some(date), Some(country), Some(state), Some(v1), Some(p1), Some(v2), Some(p2), Some(vs), Some(ps)) => {
            Some(
                RecordCovid19br {
                    date,
                    country,
                    state,
                    vaccinated: v1,
                    vaccinated_per_100_inhabitants: p1,
                    vaccinated_second: v2,
                    vaccinated_second_per_100_inhabitants: p2,
                    vaccinated_single: vs,
                    vaccinated_single_per_100_inhabitants: ps,
                },
            )
        },
        _ => None,
    }
}

/// The records of a CSV document, rows that do not decode skipped.
pub fn decode_covid19br(csv_text: &str) -> (r: Vec<RecordCovid19br>)
    ensures
        views(r@) == decoded_text(csv_text@),
{
    let recs = read_csv(csv_text);
    let ghost rv = recs.deep_view();
    let mut out: Vec<RecordCovid19br> = Vec::new();
    if recs.len() == 0 {
        assert(views(out@) =~= decoded_text(csv_text@));
        return out;
    }
    let header = match &recs[0] {
        Some(h) => h,
        None => {
            assert(views(out@) =~= decoded_text(csv_text@));
            return out;
        },
    };
    let ghost data = rv.subrange(1, rv.len() as int);
    assert(header.deep_view() == rv[0]->0);
    let mut i: usize = 1;
    while i < recs.len()
        invariant
            1 <= i <= recs@.len(),
            rv == recs.deep_view(),
            data == rv.subrange(1, rv.len() as int),
            header.deep_view() == rv[0]->0,
            views(out@) == decoded_rows(rv[0]->0, data, i - 1),
        decreases recs@.len() - i,
    {
        assert(data[i - 1] == rv[i as int]);
        match &recs[i] {
            Some(row) => {
                match decode_row(header, row) {
                    Some(rec) => {
                        out.push(rec);
                    },
                    None => {},
                }
            },
            None => {},
        }
        assert(views(out@) =~= decoded_rows(rv[0]->0, data, i as int));
        i = i + 1;
    }
    out
}

/// The current row of the national series, its total of doses and the
/// daily rate over the window. Rows dated on the day of `now` (a Unix instant)
/// in Brasília time are left out as incomplete. Fails with too few rows, or
/// when the window's dates are not consecutive days.
pub fn get_last_vaccination_data_covid19br(csv_text: &str, now: i64) -> (r: Result<
    (RecordCovid19br, u64, u64),
    DataError,
>)
    requires
        instant_in_range(now + BRASILIA_OFFSET),
    ensures
        ({
            let rs = decoded_text(csv_text@);
            let today = utc_date_text(now + BRASILIA_OFFSET);
            let q = qualifying_positions(rs, today, rs.len() as int);
            &&& (q.len() <= WINDOW || !window_consecutive(rs, q)) <==> r is Err
            &&& r is Err ==> r == Err::<(RecordCovid19br, u64, u64), DataError>(
                DataError::InsufficientData,
            )
            &&& r matches Ok((current, total, rate)) ==> {
                &&& current@ == rs[q.last()]
                &&& total == total_of(current@)
                &&& rate == daily_rate_of(current@, rs[q[q.len() - 1 - WINDOW]])
                &&& qualifies(current@, today)
            }
        }),
{
    let today = date_text(now + BRASILIA_OFFSET);
    let records = decode_covid19br(csv_text);
    latest_with_rate(&records, today.as_str())
}

} // verus!
