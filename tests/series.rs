use chrono::TimeZone;
use quantofalta::{
    decode_covid19br, format_progress, get_last_vaccination_data_covid19br, select_series,
    DataError, RecordCovid19br, Region,
};

const HEADER: &str = "epi_week,date,country,state,city,vaccinated,vaccinated_per_100_inhabitants,vaccinated_second,vaccinated_second_per_100_inhabitants,vaccinated_single,vaccinated_single_per_100_inhabitants\n";

fn instant(y: i32, m: u32, d: u32) -> i64 {
    chrono::Utc.with_ymd_and_hms(y, m, d, 0, 0, 0).unwrap().timestamp()
}

/// National rows for 2021-04-{first..=last}, with a state row after each.
fn series(first: u32, last: u32) -> String {
    let mut text = HEADER.to_string();
    for k in first..=last {
        let d = k - 14;
        text.push_str(&format!(
            "16,2021-04-{:02},Brazil,TOTAL,TOTAL,{},18.59472,{},5.36529,{},0.12345\n",
            k,
            1000 + 100 * d,
            10 * d,
            d
        ));
        text.push_str(&format!(
            "16,2021-04-{:02},Brazil,SP,TOTAL,{},1.0,{},1.0,{},1.0\n",
            k,
            900000 + k,
            900000,
            900000
        ));
    }
    text
}

#[test]
fn get_last_vaccination_data_covid19br_works() {
    // National rows from 2021-04-14 to 2021-04-23; the row of 04-23 (the
    // day in Brasília at 2021-04-24 00:00 UTC) is left out, 04-22 is current
    // and 04-15 is the anchor.
    let mut test_csv = HEADER.to_string();
    let totals: [(u32, u32, u32, u32); 10] = [
        (14, 22000000, 10500000, 20000),
        (15, 23000001, 11000000, 25165),
        (16, 23500000, 11300000, 30000),
        (17, 24000000, 11600000, 40000),
        (18, 24500000, 11900000, 50000),
        (19, 25000000, 12200000, 60000),
        (20, 25400000, 12500000, 80000),
        (21, 25700000, 12800000, 100000),
        (22, 26000001, 13000000, 110195),
        (23, 26300000, 13200000, 120000),
    ];
    for (day, first, second, single) in totals.iter() {
        test_csv.push_str(&format!(
            "16,2021-04-{},Brazil,TOTAL,TOTAL,{},12.27812,{},6.23378,{},0.05204\n",
            day, first, second, single
        ));
        test_csv.push_str(&format!(
            "16,2021-04-{},Brazil,RJ,TOTAL,{},10.0,{},5.0,{},0.01\n",
            day,
            first / 10,
            second / 10,
            single / 10
        ));
    }
    let now = chrono::Utc.with_ymd_and_hms(2021, 4, 24, 0, 0, 0).unwrap().timestamp();
    let d = get_last_vaccination_data_covid19br(&test_csv, now).unwrap();
    println!("{:?} {} {}", d.0, d.1, d.2);
    assert_eq!(d.1, 39220391);
    assert_eq!(d.2, 738580);
}

#[test]
fn today_row_is_never_current() {
    // 2021-04-24 00:00 UTC is still 2021-04-23 in Brasília.
    let text = series(14, 23);
    let (current, total, rate) =
        get_last_vaccination_data_covid19br(&text, instant(2021, 4, 24)).unwrap();
    assert_eq!(current.date, "2021-04-22");
    assert_eq!(current.state, "TOTAL");
    assert_eq!(total, 1000 + 112 * 8);
    assert_eq!(rate, (112 * 8 - 112) / 7);
}

#[test]
fn later_rows_stay_when_not_today() {
    let text = series(14, 23);
    let (current, total, _rate) =
        get_last_vaccination_data_covid19br(&text, instant(2021, 4, 30)).unwrap();
    assert_eq!(current.date, "2021-04-23");
    assert_eq!(total, 1000 + 112 * 9);
}

#[test]
fn too_few_rows_is_insufficient() {
    // Eight national rows, one of them today's: seven qualify.
    let text = series(16, 23);
    let r = get_last_vaccination_data_covid19br(&text, instant(2021, 4, 24));
    assert_eq!(r.err(), Some(DataError::InsufficientData));
    // Eight qualify: the anchor is the first one.
    let text = series(15, 23);
    let (_, total, rate) =
        get_last_vaccination_data_covid19br(&text, instant(2021, 4, 24)).unwrap();
    assert_eq!(total, 1000 + 112 * 8);
    assert_eq!(rate, 112);
}

#[test]
fn empty_input_is_insufficient() {
    let r = get_last_vaccination_data_covid19br("", instant(2021, 4, 24));
    assert_eq!(r.err(), Some(DataError::InsufficientData));
    let r = get_last_vaccination_data_covid19br(HEADER, instant(2021, 4, 24));
    assert_eq!(r.err(), Some(DataError::InsufficientData));
}

#[test]
fn bad_rows_are_skipped() {
    let mut text = HEADER.to_string();
    text.push_str("16,2021-04-14,Brazil,TOTAL,TOTAL,abc,1.0,2,1.0,3,1.0\n");
    text.push_str("16,2021-04-15,Brazil,TOTAL,TOTAL,1\n");
    text.push_str("16,2021-04-16,Brazil,TOTAL,TOTAL,,,0x10,,+3,1.5\n");
    let rows = decode_covid19br(&text);
    assert_eq!(rows.len(), 1);
    assert_eq!(rows[0].date, "2021-04-16");
    assert_eq!(rows[0].vaccinated, None);
    assert_eq!(rows[0].vaccinated_second, Some(16));
    assert_eq!(rows[0].vaccinated_single, Some(3));
    assert_eq!(rows[0].vaccinated_single_per_100_inhabitants, Some(1_500_000));
    assert_eq!(rows[0].vaccinated_total(), 22);
}

#[test]
fn columns_match_by_name() {
    let text = "vaccinated_single,state,vaccinated,date,country\n4,TOTAL,10,2021-04-14,Brazil\n";
    let rows = decode_covid19br(text);
    assert_eq!(rows.len(), 1);
    assert_eq!(rows[0].vaccinated, Some(10));
    assert_eq!(rows[0].vaccinated_single, Some(4));
    assert_eq!(rows[0].vaccinated_second, None);
    assert_eq!(rows[0].vaccinated_total(), 18);
}

#[test]
fn select_series_positions() {
    let rows = decode_covid19br(&series(14, 23));
    // National rows sit at even positions; the one for 04-22 is at 16.
    assert_eq!(select_series(&rows, "2021-04-23"), Ok((16, 2)));
    assert_eq!(select_series(&rows, "2021-04-30"), Ok((18, 4)));
}

#[test]
fn progress_of_current_row() {
    let text = series(14, 23);
    let (current, _, _) =
        get_last_vaccination_data_covid19br(&text, instant(2021, 4, 24)).unwrap();
    let p = format_progress(&current).unwrap();
    assert_eq!(
        p,
        "1ª dose:\n▓▓▓░░░░░░░░░░░░░░░░░ 18,7%\n\n2ª dose:\n▓░░░░░░░░░░░░░░░░░░░ 5,5%"
    );
}

fn with_percentages(first: Option<u64>, second: Option<u64>, single: Option<u64>) -> RecordCovid19br {
    RecordCovid19br {
        date: "2021-04-22".to_string(),
        country: "Brazil".to_string(),
        state: "TOTAL".to_string(),
        vaccinated: None,
        vaccinated_per_100_inhabitants: first,
        vaccinated_second: None,
        vaccinated_second_per_100_inhabitants: second,
        vaccinated_single: None,
        vaccinated_single_per_100_inhabitants: single,
    }
}

#[test]
fn progress_empty_and_full() {
    let empty = format_progress(&with_percentages(Some(0), Some(0), Some(0))).unwrap();
    let line = format!("{} 0,0%", "░".repeat(20));
    assert_eq!(empty, format!("1ª dose:\n{}\n\n2ª dose:\n{}", line, line));
    let full = format_progress(&with_percentages(Some(95_000_000), Some(90_000_000), Some(10_000_000))).unwrap();
    assert_eq!(
        full,
        format!("1ª dose:\n{} 105,0%\n\n2ª dose:\n{} 100,0%", "▓".repeat(20), "▓".repeat(20))
    );
}

#[test]
fn progress_rounds_half_up() {
    let p = format_progress(&with_percentages(Some(12_250_000), Some(4_999_999), Some(0))).unwrap();
    assert_eq!(
        p,
        format!(
            "1ª dose:\n{}{} 12,3%\n\n2ª dose:\n{} 5,0%",
            "▓".repeat(2),
            "░".repeat(18),
            "░".repeat(20)
        )
    );
}

#[test]
fn progress_missing_data() {
    assert_eq!(
        format_progress(&with_percentages(Some(1), None, Some(1))),
        Err(DataError::MissingData)
    );
    assert_eq!(
        format_progress(&with_percentages(Some(1), Some(1), None)),
        Err(DataError::MissingData)
    );
}

#[test]
fn region_of_rows() {
    let mut r = with_percentages(None, None, None);
    assert_eq!(r.region(), Region::Aggregate);
    r.state = "SP".to_string();
    assert_eq!(r.region(), Region::Subdivision);
    r.state = "total".to_string();
    assert_eq!(r.region(), Region::Subdivision);
}

fn national_row(date: &str, first: u32) -> String {
    format!("16,{},Brazil,TOTAL,TOTAL,{},1.0,0,1.0,0,1.0\n", date, first)
}

#[test]
fn window_with_gap_is_insufficient() {
    let mut text = HEADER.to_string();
    for (k, date) in [
        "2021-04-13", "2021-04-14", "2021-04-15", "2021-04-16", "2021-04-18", "2021-04-19",
        "2021-04-20", "2021-04-21",
    ]
    .iter()
    .enumerate()
    {
        text.push_str(&national_row(date, 1000 * k as u32));
    }
    let r = get_last_vaccination_data_covid19br(&text, instant(2021, 4, 30));
    assert_eq!(r.err(), Some(DataError::InsufficientData));
}

#[test]
fn window_with_repeat_is_insufficient() {
    let mut text = series(14, 22);
    text.push_str(&national_row("2021-04-22", 5000));
    let r = get_last_vaccination_data_covid19br(&text, instant(2021, 4, 30));
    assert_eq!(r.err(), Some(DataError::InsufficientData));
}

#[test]
fn gap_before_window_is_ignored() {
    let mut text = HEADER.to_string();
    text.push_str(&national_row("2021-03-01", 0));
    for k in 14..=21 {
        text.push_str(&national_row(&format!("2021-04-{}", k), 700 * (k - 14)));
    }
    let (current, total, rate) =
        get_last_vaccination_data_covid19br(&text, instant(2021, 4, 30)).unwrap();
    assert_eq!(current.date, "2021-04-21");
    assert_eq!(total, 4900);
    assert_eq!(rate, 700);
}

#[test]
fn window_across_month_and_leap_day() {
    let dates = [
        "2024-02-25", "2024-02-26", "2024-02-27", "2024-02-28", "2024-02-29", "2024-03-01",
        "2024-03-02", "2024-03-03",
    ];
    let mut text = HEADER.to_string();
    for (k, date) in dates.iter().enumerate() {
        text.push_str(&national_row(date, 70 * k as u32));
    }
    let (current, _, rate) =
        get_last_vaccination_data_covid19br(&text, instant(2024, 3, 10)).unwrap();
    assert_eq!(current.date, "2024-03-03");
    assert_eq!(rate, 70);
    // 2023 has no 29 February.
    let text = text.replace("2024-", "2023-");
    let r = get_last_vaccination_data_covid19br(&text, instant(2023, 3, 10));
    assert_eq!(r.err(), Some(DataError::InsufficientData));
}

#[test]
fn window_across_year_end() {
    let dates = [
        "2020-12-26", "2020-12-27", "2020-12-28", "2020-12-29", "2020-12-30", "2020-12-31",
        "2021-01-01", "2021-01-02",
    ];
    let mut text = HEADER.to_string();
    for (k, date) in dates.iter().enumerate() {
        text.push_str(&national_row(date, 7 * k as u32));
    }
    let (_, _, rate) =
        get_last_vaccination_data_covid19br(&text, instant(2021, 1, 10)).unwrap();
    assert_eq!(rate, 7);
}
