//! The simpler single-country series: the last row of one location.
use crate::decode::{
    count_field, csv_records, decimal_field, field, field_of, read_count, read_csv, read_decimal,
    read_text,
};
use crate::number::{parse_signed, signed_value};
use crate::series::DataError;
use crate::text::same_text;
use vstd::prelude::*;

verus! {

/// One row of the per-country vaccination series. The `*_per_hundred`
/// fields are in millionths: `12.5` is held as `12_500_000`.
#[derive(Debug)]
pub struct Record {
    pub location: String,
    pub iso_code: String,
    pub date: String,
    pub total_vaccinations: Option<u32>,
    pub people_vaccinated: Option<u32>,
    pub people_fully_vaccinated: Option<u32>,
    pub daily_vaccinations_raw: Option<i32>,
    pub daily_vaccinations: Option<u32>,
    pub total_vaccinations_per_hundred: Option<u64>,
    pub people_vaccinated_per_hundred: Option<u64>,
    pub people_fully_vaccinated_per_hundred: Option<u64>,
    pub daily_vaccinations_per_million: Option<u32>,
}

/// What a row of the per-country series holds, as plain values.
pub struct OwidView {
    pub location: Seq<char>,
    pub iso_code: Seq<char>,
    pub date: Seq<char>,
    pub total_vaccinations: Option<u32>,
    pub people_vaccinated: Option<u32>,
    pub people_fully_vaccinated: Option<u32>,
    pub daily_vaccinations_raw: Option<i32>,
    pub daily_vaccinations: Option<u32>,
    pub total_vaccinations_per_hundred: Option<u64>,
    pub people_vaccinated_per_hundred: Option<u64>,
    pub people_fully_vaccinated_per_hundred: Option<u64>,
    pub daily_vaccinations_per_million: Option<u32>,
}

impl View for Record {
    type V = OwidView;

    open spec fn view(&self) -> OwidView {
        OwidView {
            location: self.location@,
            iso_code: self.iso_code@,
            date: self.date@,
            total_vaccinations: self.total_vaccinations,
            people_vaccinated: self.people_vaccinated,
            people_fully_vaccinated: self.people_fully_vaccinated,
            daily_vaccinations_raw: self.daily_vaccinations_raw,
            daily_vaccinations: self.daily_vaccinations,
            total_vaccinations_per_hundred: self.total_vaccinations_per_hundred,
            people_vaccinated_per_hundred: self.people_vaccinated_per_hundred,
            people_fully_vaccinated_per_hundred: self.people_fully_vaccinated_per_hundred,
            daily_vaccinations_per_million: self.daily_vaccinations_per_million,
        }
    }
}

/// A signed count column, read as `count_field` reads counts.
pub open spec fn signed_field(f: Option<Seq<char>>) -> Option<Option<i32>> {
    match f {
        None => Some(None),
        Some(t) => if t.len() == 0 {
            Some(None)
        } else {
            match signed_value(t) {
                Some(v) => Some(Some(v as i32)),
                None => None,
            }
        },
    }
}

/// The record of a data row, matched to the header by column name;
/// `location`, `iso_code` and `date` must be present.
pub open spec fn decoded_owid_row(header: Seq<Seq<char>>, row: Seq<Seq<char>>) -> Option<OwidView> {
    let location = field_of(header, row, "location"@);
    let iso_code = field_of(header, row, "iso_code"@);
    let date = field_of(header, row, "date"@);
    let tv = count_field(field_of(header, row, "total_vaccinations"@));
    let pv = count_field(field_of(header, row, "people_vaccinated"@));
    let pfv = count_field(field_of(header, row, "people_fully_vaccinated"@));
    let dvr = signed_field(field_of(header, row, "daily_vaccinations_raw"@));
    let dv = count_field(field_of(header, row, "daily_vaccinations"@));
    let tvh = decimal_field(field_of(header, row, "total_vaccinations_per_hundred"@));
    let pvh = decimal_field(field_of(header, row, "people_vaccinated_per_hundred"@));
    let pfvh = decimal_field(field_of(header, row, "people_fully_vaccinated_per_hundred"@));
    let dvm = count_field(field_of(header, row, "daily_vaccinations_per_million"@));
    if location is Some && iso_code is Some && date is Some && tv is Some && pv is Some && pfv is Some
        && dvr is Some && dv is Some && tvh is Some && pvh is Some && pfvh is Some && dvm is Some {
        Some(
            OwidView {
                location: location->0,
                iso_code: iso_code->0,
                date: date->0,
                total_vaccinations: tv->0,
                people_vaccinated: pv->0,
                people_fully_vaccinated: pfv->0,
                daily_vaccinations_raw: dvr->0,
                daily_vaccinations: dv->0,
                total_vaccinations_per_hundred: tvh->0,
                people_vaccinated_per_hundred: pvh->0,
                people_fully_vaccinated_per_hundred: pfvh->0,
                daily_vaccinations_per_million: dvm->0,
            },
        )
    } else {
        None
    }
}

/// Among the first `n` records (the header is record 0), the last data row
/// that decodes and whose location is `country`.
pub open spec fn last_of_country(
    recs: Seq<Option<Seq<Seq<char>>>>,
    country: Seq<char>,
    n: int,
) -> Option<OwidView>
    decreases n,
{
    if n <= 1 {
        None
    } else {
        let here = match recs[n - 1] {
            Some(row) => match decoded_owid_row(recs[0]->0, row) {
                Some(v) => if v.location == country {
                    Some(v)
                } else {
                    None
                },
                None => None,
            },
            None => None,
        };
        if here is Some {
            here
        } else {
            last_of_country(recs, country, n - 1)
        }
    }
}

/// The last row of `country` in a CSV document.
pub open spec fn last_record_of(text: Seq<char>, country: Seq<char>) -> Option<OwidView> {
    let recs = csv_records(text);
    if recs.len() == 0 || recs[0] is None {
        None
    } else {
        last_of_country(recs, country, recs.len() as int)
    }
}

pub(crate) fn read_signed(f: Option<&String>) -> (r: Option<Option<i32>>)
    ensures
        r == signed_field(
            match f {
                Some(s) => Some(s@),
                None => None,
            },
        ),
{
    match f {
        None => Some(None),
        Some(s) => {
            if s.as_str().unicode_len() == 0 {
                Some(None)
            } else {
                match parse_signed(s.as_str()) {
                    Some(v) => Some(Some(v)),
                    None => None,
                }
            }
        },
    }
}

/// Decodes one data row of the per-country series against the header.
pub fn decode_owid_row(header: &Vec<String>, row: &Vec<String>) -> (r: Option<Record>)
    ensures
        match r {
            Some(rec) => decoded_owid_row(header.deep_view(), row.deep_view()) == Some(rec@),
            None => decoded_owid_row(header.deep_view(), row.deep_view()) is None,
        },
{
    let location = read_text(field(header, row, "location"));
    let iso_code = read_text(field(header, row, "iso_code"));
    let date = read_text(field(header, row, "date"));
    let tv = read_count(field(header, row, "total_vaccinations"));
    let pv = read_count(field(header, row, "people_vaccinated"));
    let pfv = read_count(field(header, row, "people_fully_vaccinated"));
    let dvr = read_signed(field(header, row, "daily_vaccinations_raw"));
    let dv = read_count(field(header, row, "daily_vaccinations"));
    let tvh = read_decimal(field(header, row, "total_vaccinations_per_hundred"));
    let pvh = read_decimal(field(header, row, "people_vaccinated_per_hundred"));
    let pfvh = read_decimal(field(header, row, "people_fully_vaccinated_per_hundred"));
    let dvm = read_count(field(header, row, "daily_vaccinations_per_million"));
    if location.is_none() || iso_code.is_none() || date.is_none() || tv.is_none() || pv.is_none()
        || pfv.is_none() || dvr.is_none() || dv.is_none() || tvh.is_none() || pvh.is_none()
        || pfvh.is_none() || dvm.is_none() {
        return None;
    }
    Some(
        Record {
            location: location.unwrap(),
            iso_code: iso_code.unwrap(),
            date: date.unwrap(),
            total_vaccinations: tv.unwrap(),
            people_vaccinated: pv.unwrap(),
            people_fully_vaccinated: pfv.unwrap(),
            daily_vaccinations_raw: dvr.unwrap(),
            daily_vaccinations: dv.unwrap(),
            total_vaccinations_per_hundred: tvh.unwrap(),
            people_vaccinated_per_hundred: pvh.unwrap(),
            people_fully_vaccinated_per_hundred: pfvh.unwrap(),
            daily_vaccinations_per_million: dvm.unwrap(),
        },
    )
}

/// The last row of `country` in the per-country series; fails when no
/// row of that location decodes.
pub fn get_last_vaccination_data(csv_text: &str, country: &str) -> (r: Result<Record, DataError>)
    ensures
        match r {
            Ok(rec) => last_record_of(csv_text@, country@) == Some(rec@),
            Err(e) => e == DataError::InsufficientData && last_record_of(
                csv_text@,
                country@,
            ) is None,
        },
{
    let recs = read_csv(csv_text);
    let ghost rv = recs.deep_view();
    if recs.len() == 0 {
        return Err(DataError::InsufficientData);
    }
    let header = match &recs[0] {
        Some(h) => h,
        None => return Err(DataError::InsufficientData),
    };
    let mut n: usize = recs.len();
    while n > 1
        invariant
            1 <= n <= recs@.len(),
            rv == recs.deep_view(),
            header.deep_view() == rv[0]->0,
            last_record_of(csv_text@, country@) == last_of_country(rv, country@, n as int),
        decreases n,
    {
        assert(rv[n - 1] == recs@[n - 1].deep_view());
        if let Some(row) = &recs[n - 1] {
            if let Some(rec) = decode_owid_row(header, row) {
                if same_text(rec.location.as_str(), country) {
                    return Ok(rec);
                }
            }
        }
        n = n - 1;
    }
    Err(DataError::InsufficientData)
}

} // verus!
