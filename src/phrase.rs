//! The estimate as a Portuguese phrase ("faltam 1 ano, 2 meses e 3 dias").
use crate::calendar::{
    calendar_gap, calendar_parts, instant_in_range, SECONDS_PER_DAY,
};
use crate::text::{decimal_string, decimal_text, lemma_decimal_text_nonempty};
use vstd::prelude::*;

verus! {

/// `"<count> <unit>"`, with the singular unit word for a count of one.
pub open spec fn counted(n: nat, one: Seq<char>, many: Seq<char>) -> Seq<char> {
    decimal_text(n) + " "@ + (if n == 1 {
        one
    } else {
        many
    })
}

/// The non-zero components among years, months and days, in that order,
/// each with its count and unit word.
pub open spec fn components(years: int, months: int, days: int) -> Seq<Seq<char>> {
    (if years > 0 {
        seq![counted(years as nat, "ano"@, "anos"@)]
    } else {
        Seq::empty()
    }) + (if months > 0 {
        seq![counted(months as nat, "mês"@, "meses"@)]
    } else {
        Seq::empty()
    }) + (if days > 0 {
        seq![counted(days as nat, "dia"@, "dias"@)]
    } else {
        Seq::empty()
    })
}

/// The components joined as a Portuguese list: `"0 dias"` when there is
/// none, `"A e B"` for two and `"A, B e C"` for three.
pub open spec fn joined(c: Seq<Seq<char>>) -> Seq<char> {
    if c.len() == 0 {
        "0 dias"@
    } else if c.len() == 1 {
        c[0]
    } else if c.len() == 2 {
        c[0] + " e "@ + c[1]
    } else {
        c[0] + ", "@ + c[1] + " e "@ + c[2]
    }
}

/// The whole phrase: the verb is singular (`"falta"`) when there is exactly
/// one component and its numeral starts with `1`, plural (`"faltam"`) otherwise.
pub open spec fn phrase(years: int, months: int, days: int) -> Seq<char> {
    let c = components(years, months, days);
    if c.len() == 1 && c[0][0] == '1' {
        "falta "@ + joined(c)
    } else {
        "faltam "@ + joined(c)
    }
}

/// The phrase for the calendar gap between `now` and `days` days later.
pub open spec fn estimate_phrase(now: int, days: int) -> Seq<char> {
    let gap = calendar_gap(now, now + days * SECONDS_PER_DAY);
    phrase(gap.0, gap.1, gap.2)
}

/// The sentence published for an estimate of `days` days from `now`.
pub open spec fn full_estimate_text(now: int, days: int) -> Seq<char> {
    if days == 0 {
        "O Brasil está finalmente imunizado!"@
    } else {
        "No ritmo atual de vacinação, "@ + estimate_phrase(now, days)
            + " para o Brasil se imunizar contra o novo coronavírus."@
    }
}

fn counted_string(n: i64, one: &str, many: &str) -> (r: String)
    requires
        n > 0,
    ensures
        r@ == counted(n as nat, one@, many@),
        r@.len() >= 1,
        r@[0] == decimal_text(n as nat)[0],
{
    let mut s = decimal_string(n as u64);
    s.append(" ");
    if n == 1 {
        s.append(one);
    } else {
        s.append(many);
    }
    proof {
        lemma_decimal_text_nonempty(n as nat);
    }
    s
}

/// Renders years, months and days as a phrase; components that are not
/// positive are left out.
pub fn phrase_from_parts(years: i64, months: i64, days: i64) -> (r: String)
    ensures
        r@ == phrase(years as int, months as int, days as int),
{
    let ghost c = components(years as int, months as int, days as int);
    let mut parts: Vec<String> = Vec::new();
    if years > 0 {
        parts.push(counted_string(years, "ano", "anos"));
    }
    if months > 0 {
        parts.push(counted_string(months, "mês", "meses"));
    }
    if days > 0 {
        parts.push(counted_string(days, "dia", "dias"));
    }
    assert(parts@.len() == c.len());
    assert(forall|i: int| 0 <= i < c.len() ==> parts@[i]@ == c[i]);
    let n = parts.len();
    let mut body = if n == 0 {
        String::from_str("0 dias")
    } else {
        parts[0].clone()
    };
    if n == 2 {
        body.append(" e ");
        body.append(parts[1].as_str());
    } else if n == 3 {
        body.append(", ");
        body.append(parts[1].as_str());
        body.append(" e ");
        body.append(parts[2].as_str());
    }
    assert(body@ =~= joined(c));
    let singular = n == 1 && parts[0].as_str().get_char(0) == '1';
    let mut out = if singular {
        String::from_str("falta ")
    } else {
        String::from_str("faltam ")
    };
    out.append(body.as_str());
    out
}

/// Formats the time left from `now` (a Unix instant in seconds) until
/// `days` days later, as years, months and days along the calendar.
/// date_component may borrow into a negative day count (from 2021-01-31 to
/// 2021-03-01 it gives one month and -2 days); such a part is left out.
pub fn format_estimate(now: i64, days: u64) -> (r: String)
    requires
        instant_in_range(now as int),
        instant_in_range(now as int + days as int * SECONDS_PER_DAY as int),
    ensures
        r@ == estimate_phrase(now as int, days as int),
{
    let end: i64 = now + (days as i64) * SECONDS_PER_DAY;
    let (years, months, d) = calendar_parts(now, end);
    phrase_from_parts(years, months, d)
}

/// The full sentence for an estimate: a fixed message once no day is left,
/// otherwise the phrase of [`format_estimate`] inside a sentence.
pub fn format_full_estimate(now: i64, days: u64) -> (r: String)
    requires
        days > 0 ==> instant_in_range(now as int),
        days > 0 ==> instant_in_range(now as int + days as int * SECONDS_PER_DAY as int),
    ensures
        r@ == full_estimate_text(now as int, days as int),
{
    if days == 0 {
        return String::from_str("O Brasil está finalmente imunizado!");
    }
    let mut s = String::from_str("No ritmo atual de vacinação, ");
    let p = format_estimate(now, days);
    s.append(p.as_str());
    s.append(" para o Brasil se imunizar contra o novo coronavírus.");
    s
}

/// With no component left, the list reads `"0 dias"` and the verb is plural.
pub proof fn lemma_zero_components()
    ensures
        joined(components(0, 0, 0)) == "0 dias"@,
        phrase(0, 0, 0) == "faltam "@ + "0 dias"@,
{
    assert(components(0, 0, 0) =~= Seq::<Seq<char>>::empty());
}

} // verus!
