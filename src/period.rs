//! Short labels for a number of days: `6D`, `1W+`, `4M+`, `2Y+`.
use crate::numeric::{decimal_text, push_decimal};
use vstd::prelude::*;

verus! {

/// Division that rounds toward zero, as Rust's `/` on integers does.
pub open spec fn quotient(a: int, b: int) -> int {
    if a >= 0 {
        a / b
    } else {
        -((-a) / b)
    }
}

/// `n` whole units of `unit` days, then the unit's letter and a `+`.
pub open spec fn units_text(days: int, unit: int, suffix: Seq<char>) -> Seq<char> {
    decimal_text(quotient(days, unit)) + suffix
}

/// The label of a number of days: years from 365 on, else months from 30 on,
/// else weeks from 7 on, else the days themselves.
pub open spec fn period_text(days: int) -> Seq<char> {
    if days >= 365 {
        units_text(days, 365, "Y+"@)
    } else if days >= 30 {
        units_text(days, 30, "M+"@)
    } else if days >= 7 {
        units_text(days, 7, "W+"@)
    } else {
        decimal_text(days) + "D"@
    }
}

fn units_of(days: i64, unit: u64) -> (r: i64)
    requires
        2 <= unit,
    ensures
        r == quotient(days as int, unit as int),
{
    let m: u64 = if days >= 0 {
        days as u64
    } else {
        (-(days as i128)) as u64
    };
    let q: u64 = m / unit;
    assert(q * 2 <= m) by (nonlinear_arith)
        requires
            q == m / unit,
            unit >= 2,
    ;
    if days >= 0 {
        q as i64
    } else {
        -(q as i64)
    }
}

fn push_period(out: &mut String, days: i64)
    ensures
        final(out)@ == old(out)@ + period_text(days as int),
{
    if days >= 365 {
        push_decimal(out, units_of(days, 365));
        out.append("Y+");
    } else if days >= 30 {
        push_decimal(out, units_of(days, 30));
        out.append("M+");
    } else if days >= 7 {
        push_decimal(out, units_of(days, 7));
        out.append("W+");
    } else {
        push_decimal(out, days);
        out.append("D");
    }
    assert(final(out)@ =~= old(out)@ + period_text(days as int));
}

/// Appends the label of `days`.
pub fn append_period(out: &mut String, days: i64)
    ensures
        final(out)@ == old(out)@ + period_text(days as int),
{
    push_period(out, days)
}

/// The label of a number of days.
pub fn days_to_time_period(days: i64) -> (r: String)
    ensures
        r@ == period_text(days as int),
{
    let mut out = String::new();
    push_period(&mut out, days);
    out
}

/// Whole weeks in `days`, as `{n}W+`.
pub fn days_to_weeks(days: i64) -> (r: String)
    ensures
        r@ == units_text(days as int, 7, "W+"@),
{
    let mut out = String::new();
    push_decimal(&mut out, units_of(days, 7));
    out.append("W+");
    out
}

/// Whole months of thirty days in `days`, as `{n}M+`.
pub fn days_to_months(days: i64) -> (r: String)
    ensures
        r@ == units_text(days as int, 30, "M+"@),
{
    let mut out = String::new();
    push_decimal(&mut out, units_of(days, 30));
    out.append("M+");
    out
}

/// Whole years of 365 days in `days`, as `{n}Y+`.
pub fn days_to_years(days: i64) -> (r: String)
    ensures
        r@ == units_text(days as int, 365, "Y+"@),
{
    let mut out = String::new();
    push_decimal(&mut out, units_of(days, 365));
    out.append("Y+");
    out
}

} // verus!
