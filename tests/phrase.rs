use chrono::TimeZone;
use quantofalta::{format_estimate, format_full_estimate, phrase_from_parts};

fn instant(y: i32, m: u32, d: u32, h: u32) -> i64 {
    chrono::Utc.with_ymd_and_hms(y, m, d, h, 0, 0).unwrap().timestamp()
}

#[test]
fn format_estimate_works() {
    let start = instant(2021, 3, 16, 0);
    let r = format_estimate(start, 0);
    assert_eq!(r, "faltam 0 dias");
    let r = format_estimate(start, 1);
    assert_eq!(r, "falta 1 dia");
    let r = format_estimate(start, 2);
    assert_eq!(r, "faltam 2 dias");
    let r = format_estimate(start, 31);
    assert_eq!(r, "falta 1 mês");
    let r = format_estimate(start, 32);
    assert_eq!(r, "faltam 1 mês e 1 dia");
    let r = format_estimate(start, 33);
    assert_eq!(r, "faltam 1 mês e 2 dias");
    let r = format_estimate(start, 31 + 30);
    assert_eq!(r, "faltam 2 meses");
    let r = format_estimate(start, 365);
    assert_eq!(r, "falta 1 ano");
    let r = format_estimate(start, 365 + 31);
    assert_eq!(r, "faltam 1 ano e 1 mês");
    let r = format_estimate(start, 365 + 31 + 1);
    assert_eq!(r, "faltam 1 ano, 1 mês e 1 dia");
    let r = format_estimate(start, 365 * 2 + 31 + 1);
    assert_eq!(r, "faltam 2 anos, 1 mês e 1 dia");
}

#[test]
fn format_tweet_works() {
    let start = instant(2021, 3, 16, 0);
    let r = format_full_estimate(start, 1);
    assert_eq!(
        r,
        "No ritmo atual de vacinação, falta 1 dia para o Brasil se imunizar contra o novo coronavírus."
    );
}

#[test]
fn test_date() {
    let now = instant(2021, 3, 31, 15);
    let _phrase = format_estimate(now, 646);
}

#[test]
fn calendar_borrows_month_length() {
    // 2021-03-31 15:00 plus 646 days is 2023-01-06 15:00.
    let now = instant(2021, 3, 31, 15);
    assert_eq!(format_estimate(now, 646), "faltam 1 ano, 9 meses e 6 dias");
}

#[test]
fn full_estimate_when_done() {
    let start = instant(2021, 3, 16, 0);
    assert_eq!(format_full_estimate(start, 0), "O Brasil está finalmente imunizado!");
    // No calendar work is done for a zero estimate, whatever the instant.
    assert_eq!(format_full_estimate(i64::MAX, 0), "O Brasil está finalmente imunizado!");
}

#[test]
fn zero_components_phrase() {
    assert_eq!(phrase_from_parts(0, 0, 0), "faltam 0 dias");
}

#[test]
fn parts_plural_and_lists() {
    assert_eq!(phrase_from_parts(3, 0, 0), "faltam 3 anos");
    assert_eq!(phrase_from_parts(0, 11, 30), "faltam 11 meses e 30 dias");
    assert_eq!(phrase_from_parts(1, 0, 1), "faltam 1 ano e 1 dia");
    assert_eq!(phrase_from_parts(2, 3, 4), "faltam 2 anos, 3 meses e 4 dias");
    // The verb follows the first character of the numeral.
    assert_eq!(phrase_from_parts(0, 0, 10), "falta 10 dias");
    assert_eq!(phrase_from_parts(0, 0, 21), "faltam 21 dias");
    // Components that are not positive are left out.
    assert_eq!(phrase_from_parts(-1, 0, 5), "faltam 5 dias");
}
