use quantofalta::{daily_rate, estimate_days, get_brazil_immunization_estimate, EstimateError, RecordCovid19br, BRAZIL_POPULATION};

#[test]
fn get_brazil_immunization_estimate_works() {
    let e = get_brazil_immunization_estimate(0, 168025).unwrap();
    assert_eq!(chrono::Duration::days(e as i64), chrono::Duration::days(1764));
    let e = get_brazil_immunization_estimate(11422666, 168025).unwrap();
    assert_eq!(chrono::Duration::days(e as i64), chrono::Duration::days(1696));
}

#[test]
fn estimate_is_exact_floor() {
    // 70% of 1000 people is 700; 1400 doses; 400 given; 1000 left at 300 a day.
    assert_eq!(estimate_days(400, 300, 1000), Ok(3));
    assert_eq!(estimate_days(400, 1000, 1000), Ok(1));
    assert_eq!(estimate_days(400, 1001, 1000), Ok(0));
}

#[test]
fn estimate_never_negative_past_target() {
    assert_eq!(estimate_days(5000, 10, 1000), Ok(0));
    assert_eq!(estimate_days(1400, 10, 1000), Ok(0));
}

#[test]
fn estimate_zero_rate_is_error() {
    assert_eq!(estimate_days(0, 0, 1000), Err(EstimateError::ZeroRate));
    assert_eq!(get_brazil_immunization_estimate(100, 0), Err(EstimateError::ZeroRate));
}

#[test]
fn estimate_is_monotonic() {
    let a = estimate_days(1_000_000, 168025, BRAZIL_POPULATION).unwrap();
    let b = estimate_days(2_000_000, 168025, BRAZIL_POPULATION).unwrap();
    let c = estimate_days(1_000_000, 200000, BRAZIL_POPULATION).unwrap();
    assert!(b <= a);
    assert!(c <= a);
}

fn row(first: u32, second: u32, single: u32) -> RecordCovid19br {
    RecordCovid19br {
        date: "2021-04-22".to_string(),
        country: "Brazil".to_string(),
        state: "TOTAL".to_string(),
        vaccinated: Some(first),
        vaccinated_per_100_inhabitants: None,
        vaccinated_second: Some(second),
        vaccinated_second_per_100_inhabitants: None,
        vaccinated_single: Some(single),
        vaccinated_single_per_100_inhabitants: None,
    }
}

#[test]
fn same_row_rate_is_rejected() {
    let r = row(1000, 500, 20);
    assert_eq!(r.vaccinated_total(), 1540);
    let rate = daily_rate(&r, &r);
    assert_eq!(rate, 0);
    assert_eq!(estimate_days(r.vaccinated_total(), rate, BRAZIL_POPULATION), Err(EstimateError::ZeroRate));
}

#[test]
fn rate_over_window() {
    let anchor = row(1000, 0, 0);
    let current = row(1700, 50, 10);
    assert_eq!(daily_rate(&current, &anchor), (1770 - 1000) / 7);
    // A total that went down gives no rate.
    assert_eq!(daily_rate(&anchor, &current), 0);
}
