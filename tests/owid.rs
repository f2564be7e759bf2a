use quantofalta::get_last_vaccination_data;
use quantofalta::number::{parse_count, parse_decimal, parse_signed};
use quantofalta::DataError;

const OWID: &str = "location,iso_code,date,total_vaccinations,people_vaccinated,people_fully_vaccinated,daily_vaccinations_raw,daily_vaccinations,total_vaccinations_per_hundred,people_vaccinated_per_hundred,people_fully_vaccinated_per_hundred,daily_vaccinations_per_million
Brazil,BRA,2021-02-20,5800000,5000000,800000,,150000,2.73,2.35,0.38,705
Chile,CHL,2021-02-20,2900000,2800000,100000,-5,200000,15.17,14.65,0.52,10462
Brazil,BRA,2021-02-21,6000000,5100000,900000,120000,168025,2.82,2.4,0.42,790
Brazil,BRA,2021-02-22,oops,5100000,900000,120000,1,2.82,2.4,0.42,790
Chile,CHL,2021-02-21,3000000,2850000,150000,80000,210000,15.69,14.91,0.78,10985
";

#[test]
fn get_last_vaccination_data_works() {
    let d = get_last_vaccination_data(OWID, "Brazil").unwrap();
    assert_eq!(d.daily_vaccinations.unwrap(), 168025);
}

#[test]
fn last_row_of_country() {
    let d = get_last_vaccination_data(OWID, "Brazil").unwrap();
    assert_eq!(d.date, "2021-02-21");
    assert_eq!(d.people_vaccinated_per_hundred, Some(2_400_000));
    let c = get_last_vaccination_data(OWID, "Chile").unwrap();
    assert_eq!(c.daily_vaccinations, Some(210000));
    assert_eq!(c.daily_vaccinations_raw, Some(80000));
}

#[test]
fn unknown_country_fails() {
    assert_eq!(get_last_vaccination_data(OWID, "Peru").err(), Some(DataError::InsufficientData));
    assert_eq!(get_last_vaccination_data("", "Brazil").err(), Some(DataError::InsufficientData));
}

#[test]
fn counts_parse_like_csv_fields() {
    assert_eq!(parse_count("168025"), Some(168025));
    assert_eq!(parse_count("+7"), Some(7));
    assert_eq!(parse_count("0x1F"), Some(31));
    assert_eq!(parse_count("0xff"), Some(255));
    assert_eq!(parse_count("4294967295"), Some(u32::MAX));
    assert_eq!(parse_count("4294967296"), None);
    assert_eq!(parse_count(""), None);
    assert_eq!(parse_count("+"), None);
    assert_eq!(parse_count("-1"), None);
    assert_eq!(parse_count("1f"), None);
    assert_eq!(parse_signed("-5"), Some(-5));
    assert_eq!(parse_signed("-2147483648"), Some(i32::MIN));
    assert_eq!(parse_signed("2147483648"), None);
    assert_eq!(parse_signed("0x-10"), Some(-16));
}

#[test]
fn decimals_in_millionths() {
    assert_eq!(parse_decimal("12.5"), Some(12_500_000));
    assert_eq!(parse_decimal("0.12345"), Some(123_450));
    assert_eq!(parse_decimal("1.23456789"), Some(1_234_567));
    assert_eq!(parse_decimal("7"), Some(7_000_000));
    assert_eq!(parse_decimal(".5"), Some(500_000));
    assert_eq!(parse_decimal("5."), Some(5_000_000));
    assert_eq!(parse_decimal("+1.0"), Some(1_000_000));
    assert_eq!(parse_decimal("."), None);
    assert_eq!(parse_decimal("1e5"), Some(100_000_000_000));
    assert_eq!(parse_decimal("1.2.3"), None);
    assert_eq!(parse_decimal("-1"), None);
    assert_eq!(parse_decimal("-0.1"), None);
}

#[test]
fn decimals_with_exponent() {
    assert_eq!(parse_decimal("1e-3"), Some(1_000));
    assert_eq!(parse_decimal("1.5E2"), Some(150_000_000));
    assert_eq!(parse_decimal("12.34e+1"), Some(123_400_000));
    assert_eq!(parse_decimal("123e-2"), Some(1_230_000));
    assert_eq!(parse_decimal(".5e1"), Some(5_000_000));
    assert_eq!(parse_decimal("5.e0"), Some(5_000_000));
    assert_eq!(parse_decimal("1e-7"), Some(0));
    assert_eq!(parse_decimal("0e999"), Some(0));
    assert_eq!(parse_decimal("1e13"), None);
    assert_eq!(parse_decimal("1e1000"), None);
    assert_eq!(parse_decimal("1e"), None);
    assert_eq!(parse_decimal("e5"), None);
    assert_eq!(parse_decimal("1e5e3"), None);
    assert_eq!(parse_decimal("1.2.3e5"), None);
}
