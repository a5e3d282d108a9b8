//! Values of FEEL scripts: numbers are decimals, computed by `rust_decimal`
//! and held here as mantissa and scale.
use crate::helpers::joined;
use crate::script::ast::{node_view, strings_view, Node, SNode};
use crate::temporal::{
    chrono_format, chrono_text, offset_secs, offset_secs_exec, ymd_fields, ymd_fields_exec, Date,
    DateTime, Duration, Temporal, Time,
};
use crate::text::{nat_text, push_char, push_str, push_usize, str_eq};
use std::cmp::Ordering;
use vstd::prelude::*;

verus! {

/// A decimal number: `mantissa / 10^scale`.
#[derive(Clone, Copy, PartialEq, Eq, Debug, Structural)]
pub struct Num {
    pub mantissa: i128,
    pub scale: u32,
}

/// The decimals `rust_decimal` can hold: a scale of at most 28 and a
/// mantissa of at most 96 bits.
pub open spec fn num_wf(n: Num) -> bool {
    &&& n.scale <= 28
    &&& -0xffff_ffff_ffff_ffff_ffff_ffff <= n.mantissa <= 0xffff_ffff_ffff_ffff_ffff_ffff
}

/// What `Decimal::from_str_exact` reads from a text: the number, or the
/// text of its error.
pub uninterp spec fn num_parse(s: Seq<char>) -> Result<Num, Seq<char>>;

/// What `Decimal::checked_add` gives.
pub uninterp spec fn num_add(a: Num, b: Num) -> Option<Num>;

/// What `Decimal::checked_sub` gives.
pub uninterp spec fn num_sub(a: Num, b: Num) -> Option<Num>;

/// What `Decimal::checked_mul` gives.
pub uninterp spec fn num_mul(a: Num, b: Num) -> Option<Num>;

/// What `Decimal::checked_div` gives.
pub uninterp spec fn num_div(a: Num, b: Num) -> Option<Num>;

/// The order of the values of two decimals, `-1`, `0` or `1`: that of
/// `a.mantissa * 10^b.scale` and `b.mantissa * 10^a.scale`.
pub open spec fn num_order(a: Num, b: Num) -> int {
    let x = a.mantissa * vstd::arithmetic::power::pow(10, b.scale as nat);
    let y = b.mantissa * vstd::arithmetic::power::pow(10, a.scale as nat);
    if x < y {
        -1
    } else if x == y {
        0
    } else {
        1
    }
}

/// A mantissa and scale with the trailing zeros of the fraction dropped.
pub open spec fn strip_zeros(m: int, s: nat) -> (int, nat)
    decreases s,
{
    if s > 0 && m % 10 == 0 {
        strip_zeros(m / 10, (s - 1) as nat)
    } else {
        (m, s)
    }
}

/// The text of a decimal after `Decimal::normalize`: zero is `0`; else the
/// sign, then the digits of the mantissa without the trailing zeros of the
/// fraction, with a point before the last `scale` of them (and `0.` and
/// zeros in front where there are not more digits than that).
pub open spec fn num_text(a: Num) -> Seq<char> {
    if a.mantissa == 0 {
        "0"@
    } else {
        let (m, s) = strip_zeros(a.mantissa as int, a.scale as nat);
        let d = nat_text((if m < 0 { -m } else { m }) as nat);
        let body = if s == 0 {
            d
        } else if d.len() > s {
            d.take(d.len() - s) + "."@ + d.skip(d.len() - s)
        } else {
            "0."@ + Seq::new((s - d.len()) as nat, |i: int| '0') + d
        };
        (if m < 0 {
            "-"@
        } else {
            Seq::empty()
        }) + body
    }
}

/// `n` in decimal, with zeros in front up to `w` digits.
pub open spec fn padded(n: nat, w: nat) -> Seq<char> {
    let d = nat_text(n);
    if d.len() < w {
        Seq::new((w - d.len()) as nat, |i: int| '0') + d
    } else {
        d
    }
}

/// `i` in decimal, zero padded to a width of `w` counting its sign.
pub open spec fn signed_padded(i: int, w: nat) -> Seq<char> {
    if i < 0 {
        "-"@ + padded((-i) as nat, if w > 0 {
            (w - 1) as nat
        } else {
            0
        })
    } else {
        padded(i as nat, w)
    }
}

/// A year in at least four digits, with its sign where negative.
pub open spec fn year_form(y: i32) -> Seq<char> {
    if y < 0 {
        "-"@ + padded((-y) as nat, 4)
    } else {
        padded(y as nat, 4)
    }
}

/// The form `Display` gives a date of the `iso8601` crate.
pub open spec fn date_form(d: Date) -> Seq<char> {
    match d {
        Date::YMD { year, month, day } => year_form(year) + "-"@ + padded(month as nat, 2) + "-"@
            + padded(day as nat, 2),
        Date::Week { year, ww, d } => year_form(year) + "-W"@ + padded(ww as nat, 2) + "-"@
            + padded(d as nat, 1),
        Date::Ordinal { year, ddd } => year_form(year) + "-"@ + padded(ddd as nat, 3),
    }
}

/// The form `Display` gives a time of the `iso8601` crate: hours, minutes,
/// seconds and milliseconds, then the offset, negated with a `-` where one
/// of its parts is negative.
pub open spec fn time_form(t: Time) -> Seq<char> {
    clock_form(t) + offset_form(t)
}

/// Hours, minutes, seconds and milliseconds of a time.
pub open spec fn clock_form(t: Time) -> Seq<char> {
    padded(t.hour as nat, 2) + ":"@ + padded(t.minute as nat, 2) + ":"@ + padded(
        t.second as nat,
        2,
    ) + "."@ + padded(t.millisecond as nat, 3)
}

/// The offset of a time: its sign, hours and minutes, each part negated
/// where one of them is negative.
pub open spec fn offset_form(t: Time) -> Seq<char> {
    let negative = t.tz_offset_hours < 0 || t.tz_offset_minutes < 0;
    let h: int = if negative {
        -t.tz_offset_hours
    } else {
        t.tz_offset_hours as int
    };
    let m: int = if negative {
        -t.tz_offset_minutes
    } else {
        t.tz_offset_minutes as int
    };
    (if negative {
        "-"@
    } else {
        "+"@
    }) + signed_padded(h, 2) + ":"@ + signed_padded(m, 2)
}

/// `n` followed by the unit `u` where `n` is not zero.
pub open spec fn unit_part(n: u32, u: Seq<char>) -> Seq<char> {
    if n > 0 {
        nat_text(n as nat) + u
    } else {
        Seq::empty()
    }
}

/// The text `Display` gives for a duration of the `iso8601` crate: `P0D`
/// for zero, else `P` and the non-zero units, the clock units after `T`.
pub open spec fn duration_text(d: Duration) -> Seq<char> {
    match d {
        Duration::YMDHMS { year, month, day, hour, minute, second, millisecond } => if year == 0
            && month == 0 && day == 0 && hour == 0 && minute == 0 && second == 0 && millisecond
            == 0 {
            "P0D"@
        } else {
            "P"@ + unit_part(year, "Y"@) + unit_part(month, "M"@) + unit_part(day, "D"@)
                + clock_units(hour, minute, second, millisecond)
        },
        Duration::Weeks(w) => if w == 0 {
            "P0D"@
        } else {
            "P"@ + nat_text(w as nat) + "W"@
        },
    }
}

/// The clock units of a duration: `T` where one is not zero, then hours,
/// minutes, and seconds with their milliseconds.
pub open spec fn clock_units(hour: u32, minute: u32, second: u32, millisecond: u32) -> Seq<char> {
    (if hour > 0 || minute > 0 || second > 0 || millisecond > 0 {
        "T"@
    } else {
        Seq::empty()
    }) + unit_part(hour, "H"@) + unit_part(minute, "M"@) + seconds_part(second, millisecond)
}

/// The seconds of a duration, with their milliseconds where not zero.
pub open spec fn seconds_part(second: u32, millisecond: u32) -> Seq<char> {
    if millisecond > 0 {
        nat_text(second as nat) + "."@ + padded(millisecond as nat, 3) + "S"@
    } else {
        unit_part(second, "S"@)
    }
}

/// Calls `Decimal::from_str_exact`; the number is given as its mantissa and
/// scale, the error as its text.  Both make the name `num_parse`; a number
/// read fits `num_wf`.
#[verifier::external_body]
pub(crate) fn parse_num(s: &str) -> (r: Result<Num, String>)
    ensures
        match num_parse(s@) {
            Ok(n) => r == Ok::<Num, String>(n) && num_wf(n),
            Err(m) => r matches Err(e) && e@ == m,
        },
{
    match rust_decimal::Decimal::from_str_exact(s) {
        Ok(d) => Ok(Num { mantissa: d.mantissa(), scale: d.scale() }),
        Err(e) => Err(e.to_string()),
    }
}

/// Calls `Decimal::checked_add` on the decimals of `a` and `b`.
#[verifier::external_body]
pub(crate) fn add_num(a: Num, b: Num) -> (r: Option<Num>)
    requires
        num_wf(a),
        num_wf(b),
    ensures
        r == num_add(a, b),
        r matches Some(n) ==> num_wf(n),
{
    let x = rust_decimal::Decimal::from_i128_with_scale(a.mantissa, a.scale);
    let y = rust_decimal::Decimal::from_i128_with_scale(b.mantissa, b.scale);
    match x.checked_add(y) {
        Some(d) => Some(Num { mantissa: d.mantissa(), scale: d.scale() }),
        None => None,
    }
}

/// Calls `Decimal::checked_sub` on the decimals of `a` and `b`.
#[verifier::external_body]
pub(crate) fn sub_num(a: Num, b: Num) -> (r: Option<Num>)
    requires
        num_wf(a),
        num_wf(b),
    ensures
        r == num_sub(a, b),
        r matches Some(n) ==> num_wf(n),
{
    let x = rust_decimal::Decimal::from_i128_with_scale(a.mantissa, a.scale);
    let y = rust_decimal::Decimal::from_i128_with_scale(b.mantissa, b.scale);
    match x.checked_sub(y) {
        Some(d) => Some(Num { mantissa: d.mantissa(), scale: d.scale() }),
        None => None,
    }
}

/// Calls `Decimal::checked_mul` on the decimals of `a` and `b`.
#[verifier::external_body]
pub(crate) fn mul_num(a: Num, b: Num) -> (r: Option<Num>)
    requires
        num_wf(a),
        num_wf(b),
    ensures
        r == num_mul(a, b),
        r matches Some(n) ==> num_wf(n),
{
    let x = rust_decimal::Decimal::from_i128_with_scale(a.mantissa, a.scale);
    let y = rust_decimal::Decimal::from_i128_with_scale(b.mantissa, b.scale);
    match x.checked_mul(y) {
        Some(d) => Some(Num { mantissa: d.mantissa(), scale: d.scale() }),
        None => None,
    }
}

/// Calls `Decimal::checked_div` on the decimals of `a` and `b`; it gives
/// `None` for a zero divisor.
#[verifier::external_body]
pub(crate) fn div_num(a: Num, b: Num) -> (r: Option<Num>)
    requires
        num_wf(a),
        num_wf(b),
    ensures
        r == num_div(a, b),
        r matches Some(n) ==> num_wf(n),
        b.mantissa == 0 ==> r is None,
{
    let x = rust_decimal::Decimal::from_i128_with_scale(a.mantissa, a.scale);
    let y = rust_decimal::Decimal::from_i128_with_scale(b.mantissa, b.scale);
    match x.checked_div(y) {
        Some(d) => Some(Num { mantissa: d.mantissa(), scale: d.scale() }),
        None => None,
    }
}

/// Calls `Decimal::cmp` on the decimals of `a` and `b`, which orders them
/// by value, whatever their scales.
#[verifier::external_body]
pub(crate) fn order_num(a: Num, b: Num) -> (r: i8)
    requires
        num_wf(a),
        num_wf(b),
    ensures
        r == num_order(a, b),
        -1 <= r <= 1,
{
    let x = rust_decimal::Decimal::from_i128_with_scale(a.mantissa, a.scale);
    let y = rust_decimal::Decimal::from_i128_with_scale(b.mantissa, b.scale);
    match x.cmp(&y) {
        Ordering::Less => -1,
        Ordering::Equal => 0,
        Ordering::Greater => 1,
    }
}

/// Formats the decimal of `a` after `Decimal::normalize`, which drops the
/// trailing zeros of the fraction and makes `-0` zero.
#[verifier::external_body]
pub(crate) fn num_to_string(a: Num) -> (r: String)
    requires
        num_wf(a),
    ensures
        r@ == num_text(a),
{
    rust_decimal::Decimal::from_i128_with_scale(a.mantissa, a.scale).normalize().to_string()
}

fn nat_text_len(n: usize) -> (r: usize)
    ensures
        r == nat_text(n as nat).len(),
        1 <= r <= n + 1,
    decreases n,
{
    if n < 10 {
        1
    } else {
        nat_text_len(n / 10) + 1
    }
}

fn push_padded(s: &mut String, n: usize, w: usize)
    ensures
        final(s)@ == old(s)@ + padded(n as nat, w as nat),
{
    let len = nat_text_len(n);
    let ghost s0 = s@;
    let mut k: usize = len;
    while k < w
        invariant
            len <= k,
            len < w ==> k <= w,
            len >= w ==> k == len,
            s@ == s0 + Seq::new((k - len) as nat, |i: int| '0'),
        decreases w - k,
    {
        push_char(s, '0');
        proof {
            assert(s@ =~= s0 + Seq::new((k + 1 - len) as nat, |i: int| '0'));
        }
        k = k + 1;
    }
    let ghost z = s@;
    push_usize(s, n);
    proof {
        if len < w {
            assert(s@ =~= s0 + (Seq::new((w - len) as nat, |i: int| '0') + nat_text(n as nat)));
        } else {
            assert(k == len);
            assert(Seq::new((k - len) as nat, |i: int| '0') =~= Seq::<char>::empty());
            assert(z =~= s0);
        }
    }
}

fn push_signed_padded(s: &mut String, i: i64, w: usize)
    requires
        -0x1_0000_0000 < i < 0x1_0000_0000,
    ensures
        final(s)@ == old(s)@ + signed_padded(i as int, w as nat),
{
    if i < 0 {
        push_str(s, "-");
        let ghost s1 = s@;
        let w1: usize = if w > 0 {
            w - 1
        } else {
            0
        };
        push_padded(s, (-i) as usize, w1);
        proof {
            reveal_strlit("-");
            assert(s@ =~= old(s)@ + signed_padded(i as int, w as nat));
        }
    } else {
        push_padded(s, i as usize, w);
    }
}

fn push_year(s: &mut String, y: i32)
    ensures
        final(s)@ == old(s)@ + year_form(y),
{
    if y < 0 {
        push_str(s, "-");
        let v: i64 = -(y as i64);
        push_padded(s, v as usize, 4);
        proof {
            reveal_strlit("-");
            assert(s@ =~= old(s)@ + year_form(y));
        }
    } else {
        push_padded(s, y as usize, 4);
    }
}

/// Appends the form `Display` gives a date of the `iso8601` crate.  Where
/// the year is `i32::MIN`, whose negation `iso8601` overflows, the form
/// holds the magnitude of the year.
#[verifier::rlimit(30)]
fn push_date(s: &mut String, d: Date)
    ensures
        final(s)@ == old(s)@ + date_form(d),
{
    match d {
        Date::YMD { year, month, day } => {
            push_year(s, year);
            let ghost s1 = s@;
            push_str(s, "-");
            push_padded(s, month as usize, 2);
            push_str(s, "-");
            push_padded(s, day as usize, 2);
            proof {
                assert(s@ =~= s1 + ("-"@ + padded(month as nat, 2) + "-"@ + padded(day as nat, 2)));
                assert(s@ =~= old(s)@ + date_form(d));
            }
        },
        Date::Week { year, ww, d: wd } => {
            push_year(s, year);
            let ghost s1 = s@;
            push_str(s, "-W");
            push_padded(s, ww as usize, 2);
            push_str(s, "-");
            push_padded(s, wd as usize, 1);
            proof {
                assert(s@ =~= s1 + ("-W"@ + padded(ww as nat, 2) + "-"@ + padded(wd as nat, 1)));
                assert(s@ =~= old(s)@ + date_form(d));
            }
        },
        Date::Ordinal { year, ddd } => {
            push_year(s, year);
            push_str(s, "-");
            push_padded(s, ddd as usize, 3);
            proof {
                assert(s@ =~= old(s)@ + date_form(d));
            }
        },
    }
}

fn push_clock(s: &mut String, t: Time)
    ensures
        final(s)@ == old(s)@ + clock_form(t),
{
    push_padded(s, t.hour as usize, 2);
    push_str(s, ":");
    push_padded(s, t.minute as usize, 2);
    push_str(s, ":");
    push_padded(s, t.second as usize, 2);
    push_str(s, ".");
    push_padded(s, t.millisecond as usize, 3);
    proof {
        assert(s@ =~= old(s)@ + clock_form(t));
    }
}

fn push_offset(s: &mut String, t: Time)
    ensures
        final(s)@ == old(s)@ + offset_form(t),
{
    let negative = t.tz_offset_hours < 0 || t.tz_offset_minutes < 0;
    let h: i64 = if negative {
        -(t.tz_offset_hours as i64)
    } else {
        t.tz_offset_hours as i64
    };
    let m: i64 = if negative {
        -(t.tz_offset_minutes as i64)
    } else {
        t.tz_offset_minutes as i64
    };
    if negative {
        push_str(s, "-");
    } else {
        push_str(s, "+");
    }
    push_signed_padded(s, h, 2);
    push_str(s, ":");
    push_signed_padded(s, m, 2);
    proof {
        assert(s@ =~= old(s)@ + offset_form(t));
    }
}

/// Appends the form `Display` gives a time of the `iso8601` crate.  Where a
/// part of the offset is `i32::MIN`, whose negation `iso8601` overflows,
/// the form holds its magnitude.
fn push_time(s: &mut String, t: Time)
    ensures
        final(s)@ == old(s)@ + time_form(t),
{
    push_clock(s, t);
    push_offset(s, t);
    proof {
        assert(s@ =~= old(s)@ + time_form(t));
    }
}

/// Appends the text `Display` gives a duration of the `iso8601` crate.
fn push_duration(s: &mut String, d: Duration)
    ensures
        final(s)@ == old(s)@ + duration_text(d),
{
    match d {
        Duration::YMDHMS { year, month, day, hour, minute, second, millisecond } => {
            if year == 0 && month == 0 && day == 0 && hour == 0 && minute == 0 && second == 0
                && millisecond == 0 {
                push_str(s, "P0D");
            } else {
                push_str(s, "P");
                push_unit(s, year, "Y");
                push_unit(s, month, "M");
                push_unit(s, day, "D");
                push_clock_units(s, hour, minute, second, millisecond);
                proof {
                    reveal_strlit("P");
                    assert(s@ =~= old(s)@ + duration_text(d));
                }
            }
        },
        Duration::Weeks(w) => {
            if w == 0 {
                push_str(s, "P0D");
            } else {
                push_str(s, "P");
                push_usize(s, w as usize);
                push_str(s, "W");
                proof {
                    assert(s@ =~= old(s)@ + duration_text(d));
                }
            }
        },
    }
}

fn push_clock_units(s: &mut String, hour: u32, minute: u32, second: u32, millisecond: u32)
    ensures
        final(s)@ == old(s)@ + clock_units(hour, minute, second, millisecond),
{
    if hour > 0 || minute > 0 || second > 0 || millisecond > 0 {
        push_str(s, "T");
    }
    let ghost s1 = s@;
    push_unit(s, hour, "H");
    push_unit(s, minute, "M");
    push_seconds(s, second, millisecond);
    proof {
        let t: Seq<char> = if hour > 0 || minute > 0 || second > 0 || millisecond > 0 {
            "T"@
        } else {
            Seq::empty()
        };
        assert(s1 =~= old(s)@ + t);
        assert(s@ =~= old(s)@ + clock_units(hour, minute, second, millisecond));
    }
}

fn push_seconds(s: &mut String, second: u32, millisecond: u32)
    ensures
        final(s)@ == old(s)@ + seconds_part(second, millisecond),
{
    if millisecond > 0 {
        push_usize(s, second as usize);
        push_str(s, ".");
        push_padded(s, millisecond as usize, 3);
        push_str(s, "S");
        proof {
            assert(s@ =~= old(s)@ + seconds_part(second, millisecond));
        }
    } else {
        push_unit(s, second, "S");
    }
}

fn push_unit(s: &mut String, n: u32, u: &str)
    ensures
        final(s)@ == old(s)@ + unit_part(n, u@),
{
    if n > 0 {
        push_usize(s, n as usize);
        push_str(s, u);
        proof {
            assert(s@ =~= old(s)@ + unit_part(n, u@));
        }
    } else {
        assert(old(s)@ + unit_part(n, u@) =~= old(s)@);
    }
}

/// A value of a FEEL script.  A map holds its entries in ascending order of
/// their keys, each key once.
#[derive(Debug)]
pub enum Value {
    NullV,
    BoolV(bool),
    NumberV(Num),
    StrV(String),
    DateTimeV(DateTime),
    DateV(Date),
    TimeV(Time),
    DurationV { duration: Duration, negative: bool },
    ArrayV(Vec<Value>),
    MapV(Vec<(String, Value)>),
    NativeFuncV { name: String, arg_names: Vec<String> },
    MacroV { name: String, arg_names: Vec<String> },
    FuncV { func_def: Box<Node> },
}

/// A value as the semantics sees it.
pub enum SValue {
    Null,
    Bool(bool),
    Number(Num),
    Str(Seq<char>),
    DateTime(DateTime),
    Date(Date),
    Time(Time),
    Duration(Duration, bool),
    Array(Seq<SValue>),
    Dict(Seq<(Seq<char>, SValue)>),
    Native(Seq<char>, Seq<Seq<char>>),
    Macro(Seq<char>, Seq<Seq<char>>),
    Func(SNode),
}

pub open spec fn value_view(v: Value) -> SValue
    decreases v,
{
    match v {
        Value::NullV => SValue::Null,
        Value::BoolV(b) => SValue::Bool(b),
        Value::NumberV(n) => SValue::Number(n),
        Value::StrV(s) => SValue::Str(s@),
        Value::DateTimeV(x) => SValue::DateTime(x),
        Value::DateV(x) => SValue::Date(x),
        Value::TimeV(x) => SValue::Time(x),
        Value::DurationV { duration, negative } => SValue::Duration(duration, negative),
        Value::ArrayV(xs) => SValue::Array(values_view(xs@)),
        Value::MapV(es) => SValue::Dict(entries_view(es@)),
        Value::NativeFuncV { name, arg_names } => SValue::Native(name@, strings_view(arg_names@)),
        Value::MacroV { name, arg_names } => SValue::Macro(name@, strings_view(arg_names@)),
        Value::FuncV { func_def } => SValue::Func(node_view(*func_def)),
    }
}

pub open spec fn values_view(xs: Seq<Value>) -> Seq<SValue>
    decreases xs,
{
    if xs.len() == 0 {
        Seq::empty()
    } else {
        values_view(xs.drop_last()).push(value_view(xs.last()))
    }
}

pub open spec fn entries_view(es: Seq<(String, Value)>) -> Seq<(Seq<char>, SValue)>
    decreases es,
{
    if es.len() == 0 {
        Seq::empty()
    } else {
        entries_view(es.drop_last()).push((es.last().0@, value_view(es.last().1)))
    }
}

impl View for Value {
    type V = SValue;

    open spec fn view(&self) -> SValue {
        value_view(*self)
    }
}

/// The keys of a map come in strictly ascending order, each once.
pub open spec fn keys_ascending(es: Seq<(Seq<char>, SValue)>) -> bool {
    forall|i: int, j: int|
        0 <= i < j < es.len() ==> crate::script::semantics::str_order(
            #[trigger] es[i].0,
            #[trigger] es[j].0,
        ) < 0
}

/// Every number held in a value fits `rust_decimal`, and the keys of every
/// map it holds are in strictly ascending order.
pub open spec fn value_wf(v: SValue) -> bool
    decreases v,
{
    match v {
        SValue::Number(n) => num_wf(n),
        SValue::Array(xs) => values_wf(xs),
        SValue::Dict(es) => entries_wf(es) && keys_ascending(es),
        _ => true,
    }
}

pub open spec fn values_wf(xs: Seq<SValue>) -> bool
    decreases xs,
{
    if xs.len() == 0 {
        true
    } else {
        values_wf(xs.drop_last()) && value_wf(xs.last())
    }
}

pub open spec fn entries_wf(es: Seq<(Seq<char>, SValue)>) -> bool
    decreases es,
{
    if es.len() == 0 {
        true
    } else {
        entries_wf(es.drop_last()) && value_wf(es.last().1)
    }
}

pub proof fn lemma_values_wf(xs: Seq<SValue>)
    ensures
        values_wf(xs) <==> forall|i: int| 0 <= i < xs.len() ==> value_wf(#[trigger] xs[i]),
    decreases xs.len(),
{
    if xs.len() > 0 {
        let w = xs.drop_last();
        lemma_values_wf(w);
        assert forall|i: int| 0 <= i < w.len() implies w[i] == xs[i] by {}
        if forall|i: int| 0 <= i < xs.len() ==> value_wf(#[trigger] xs[i]) {
            assert(value_wf(xs[xs.len() - 1]));
        }
    }
}

pub proof fn lemma_values_wf_push(xs: Seq<SValue>, x: SValue)
    ensures
        values_wf(xs.push(x)) <==> values_wf(xs) && value_wf(x),
{
    assert(xs.push(x).drop_last() =~= xs);
}

pub proof fn lemma_entries_wf(es: Seq<(Seq<char>, SValue)>)
    ensures
        entries_wf(es) <==> forall|i: int| 0 <= i < es.len() ==> value_wf(#[trigger] es[i].1),
    decreases es.len(),
{
    if es.len() > 0 {
        let w = es.drop_last();
        lemma_entries_wf(w);
        assert forall|i: int| 0 <= i < w.len() implies w[i] == es[i] by {}
        if forall|i: int| 0 <= i < es.len() ==> value_wf(#[trigger] es[i].1) {
            assert(value_wf(es[es.len() - 1].1));
        }
    }
}

pub proof fn lemma_values_view(xs: Seq<Value>)
    ensures
        values_view(xs).len() == xs.len(),
        forall|i: int| 0 <= i < xs.len() ==> values_view(xs)[i] == value_view(#[trigger] xs[i]),
    decreases xs.len(),
{
    if xs.len() > 0 {
        let w = xs.drop_last();
        lemma_values_view(w);
        assert forall|i: int| 0 <= i < xs.len() implies values_view(xs)[i] == value_view(#[trigger] xs[i]) by {
            if i < xs.len() - 1 {
                assert(w[i] == xs[i]);
            }
        }
    }
}

pub proof fn lemma_entries_view(es: Seq<(String, Value)>)
    ensures
        entries_view(es).len() == es.len(),
        forall|i: int|
            0 <= i < es.len() ==> entries_view(es)[i] == ((#[trigger] es[i]).0@, value_view(es[i].1)),
    decreases es.len(),
{
    if es.len() > 0 {
        let w = es.drop_last();
        lemma_entries_view(w);
        assert forall|i: int| 0 <= i < es.len() implies entries_view(es)[i] == ((#[trigger] es[i]).0@, value_view(es[i].1)) by {
            if i < es.len() - 1 {
                assert(w[i] == es[i]);
            }
        }
    }
}

fn clone_values(v: &Vec<Value>) -> (r: Vec<Value>)
    ensures
        values_view(r@) == values_view(v@),
    decreases v,
{
    let mut r: Vec<Value> = Vec::new();
    let mut i: usize = 0;
    while i < v.len()
        invariant
            0 <= i <= v.len(),
            r@.len() == i,
            values_view(r@) == values_view(v@.take(i as int)),
        decreases v.len() - i,
    {
        proof {
            broadcast use vstd::std_specs::vec::axiom_vec_index_decreases;

            assert(decreases_to!(v => v[i as int]));
        }
        let c = v[i].clone();
        let ghost old_r = r@;
        r.push(c);
        proof {
            assert(r@.drop_last() =~= old_r);
            assert(v@.take(i + 1).drop_last() =~= v@.take(i as int));
        }
        i = i + 1;
    }
    assert(v@.take(v@.len() as int) =~= v@);
    r
}

fn clone_entries(v: &Vec<(String, Value)>) -> (r: Vec<(String, Value)>)
    ensures
        entries_view(r@) == entries_view(v@),
    decreases v,
{
    let mut r: Vec<(String, Value)> = Vec::new();
    let mut i: usize = 0;
    while i < v.len()
        invariant
            0 <= i <= v.len(),
            r@.len() == i,
            entries_view(r@) == entries_view(v@.take(i as int)),
        decreases v.len() - i,
    {
        proof {
            broadcast use vstd::std_specs::vec::axiom_vec_index_decreases;

            assert(decreases_to!(v => v[i as int]));
            assert(decreases_to!(v[i as int] => v[i as int].1));
        }
        let c = v[i].1.clone();
        let k = v[i].0.clone();
        let ghost old_r = r@;
        r.push((k, c));
        proof {
            assert(r@.drop_last() =~= old_r);
            assert(v@.take(i + 1).drop_last() =~= v@.take(i as int));
        }
        i = i + 1;
    }
    assert(v@.take(v@.len() as int) =~= v@);
    r
}

impl Clone for Value {
    fn clone(&self) -> (r: Self)
        ensures
            r@ == self@,
        decreases self,
    {
        match self {
            Value::NullV => Value::NullV,
            Value::BoolV(b) => Value::BoolV(*b),
            Value::NumberV(n) => Value::NumberV(*n),
            Value::StrV(s) => Value::StrV(s.clone()),
            Value::DateTimeV(x) => Value::DateTimeV(*x),
            Value::DateV(x) => Value::DateV(*x),
            Value::TimeV(x) => Value::TimeV(*x),
            Value::DurationV { duration, negative } => Value::DurationV {
                duration: *duration,
                negative: *negative,
            },
            Value::ArrayV(xs) => Value::ArrayV(clone_values(xs)),
            Value::MapV(es) => Value::MapV(clone_entries(es)),
            Value::NativeFuncV { name, arg_names } => Value::NativeFuncV {
                name: name.clone(),
                arg_names: crate::script::ast::clone_strings(arg_names),
            },
            Value::MacroV { name, arg_names } => Value::MacroV {
                name: name.clone(),
                arg_names: crate::script::ast::clone_strings(arg_names),
            },
            Value::FuncV { func_def } => Value::FuncV { func_def: Box::new(func_def.deep_clone()) },
        }
    }
}

/// The name of the kind of a value.
pub open spec fn kind_name(v: SValue) -> Seq<char> {
    match v {
        SValue::Null => "null"@,
        SValue::Bool(_) => "boolean"@,
        SValue::Number(_) => "number"@,
        SValue::Str(_) => "string"@,
        SValue::DateTime(_) => "date time"@,
        SValue::Date(_) => "date"@,
        SValue::Time(_) => "time"@,
        SValue::Duration(_, _) => "duration"@,
        SValue::Array(_) => "array"@,
        SValue::Dict(_) => "map"@,
        SValue::Native(_, _) => "nativefunc"@,
        SValue::Macro(_, _) => "macro"@,
        SValue::Func(_) => "function"@,
    }
}

/// Whether a value counts as true: `false`, `null`, zero and empty strings,
/// lists and maps do not.
pub open spec fn truthy(v: SValue) -> bool {
    match v {
        SValue::Null => false,
        SValue::Bool(b) => b,
        SValue::Number(n) => n.mantissa != 0,
        SValue::Str(s) => s.len() > 0,
        SValue::Array(xs) => xs.len() > 0,
        SValue::Dict(es) => es.len() > 0,
        _ => true,
    }
}

/// The form of `iso8601` for a date and time: the date, `T`, the time.
pub open spec fn iso_datetime_print(x: DateTime) -> Seq<char> {
    date_form(x.date) + "T"@ + time_form(x.time)
}

fn iso_datetime_string(x: DateTime) -> (r: String)
    ensures
        r@ == iso_datetime_print(x),
{
    let mut r = String::new();
    push_date(&mut r, x.date);
    push_str(&mut r, "T");
    push_time(&mut r, x.time);
    proof {
        assert(r@ =~= iso_datetime_print(x));
    }
    r
}

/// The printed form of a date and time: what `chrono` prints for the
/// instant, where chrono holds it, else the form of `iso8601`.
pub open spec fn datetime_print(x: DateTime) -> Seq<char> {
    match (ymd_fields(x), offset_secs(x.time)) {
        (Some(f), Some(o)) => match chrono_text(f, o) {
            Some(t) => t,
            None => iso_datetime_print(x),
        },
        _ => iso_datetime_print(x),
    }
}

fn datetime_print_exec(x: DateTime) -> (r: String)
    ensures
        r@ == datetime_print(x),
{
    match (ymd_fields_exec(x), offset_secs_exec(x.time)) {
        (Some(f), Some(o)) => match chrono_format(f, o) {
            Some(t) => t,
            None => iso_datetime_string(x),
        },
        _ => iso_datetime_string(x),
    }
}

/// The printed form of a value.
pub open spec fn value_text(v: SValue) -> Seq<char>
    decreases v,
{
    match v {
        SValue::Null => "null"@,
        SValue::Bool(b) => if b {
            "true"@
        } else {
            "false"@
        },
        SValue::Number(n) => num_text(n),
        SValue::Str(s) => "\""@ + s + "\""@,
        SValue::DateTime(x) => datetime_print(x),
        SValue::Date(x) => date_form(x),
        SValue::Time(x) => time_form(x),
        SValue::Duration(d, negative) => (if negative {
            "-"@
        } else {
            Seq::empty()
        }) + duration_text(d),
        SValue::Array(xs) => "["@ + joined(values_text(xs), ", "@) + "]"@,
        SValue::Dict(es) => "{"@ + joined(entries_text(es), ", "@) + "}"@,
        SValue::Native(_, _) => "function"@,
        SValue::Macro(_, _) => "macro"@,
        SValue::Func(_) => "function"@,
    }
}

pub open spec fn values_text(xs: Seq<SValue>) -> Seq<Seq<char>>
    decreases xs,
{
    if xs.len() == 0 {
        Seq::empty()
    } else {
        values_text(xs.drop_last()).push(value_text(xs.last()))
    }
}

pub open spec fn entries_text(es: Seq<(Seq<char>, SValue)>) -> Seq<Seq<char>>
    decreases es,
{
    if es.len() == 0 {
        Seq::empty()
    } else {
        entries_text(es.drop_last()).push(es.last().0 + ":"@ + value_text(es.last().1))
    }
}

impl Value {
    pub fn data_type(&self) -> (r: String)
        ensures
            r@ == kind_name(self@),
    {
        match self {
            Value::NullV => "null".to_owned(),
            Value::BoolV(_) => "boolean".to_owned(),
            Value::NumberV(_) => "number".to_owned(),
            Value::StrV(_) => "string".to_owned(),
            Value::DateTimeV(_) => "date time".to_owned(),
            Value::DateV(_) => "date".to_owned(),
            Value::TimeV(_) => "time".to_owned(),
            Value::DurationV { .. } => "duration".to_owned(),
            Value::ArrayV(_) => "array".to_owned(),
            Value::MapV(_) => "map".to_owned(),
            Value::NativeFuncV { .. } => "nativefunc".to_owned(),
            Value::MacroV { .. } => "macro".to_owned(),
            Value::FuncV { .. } => "function".to_owned(),
        }
    }

    pub fn bool_value(&self) -> (r: bool)
        ensures
            r == truthy(self@),
    {
        proof {
            match self {
                Value::ArrayV(xs) => lemma_values_view(xs@),
                Value::MapV(es) => lemma_entries_view(es@),
                _ => {},
            }
        }
        match self {
            Value::NullV => false,
            Value::BoolV(v) => *v,
            Value::NumberV(v) => v.mantissa != 0,
            Value::StrV(v) => !v.as_str().is_empty(),
            Value::ArrayV(v) => v.len() > 0,
            Value::MapV(v) => v.len() > 0,
            _ => true,
        }
    }

    /// The printed form of the value.
    pub fn to_string(&self) -> (r: String)
        requires
            value_wf(self@),
        ensures
            r@ == value_text(self@),
        decreases self,
    {
        let mut r = String::new();
        match self {
            Value::NullV => push_str(&mut r, "null"),
            Value::BoolV(b) => if *b {
                push_str(&mut r, "true")
            } else {
                push_str(&mut r, "false")
            },
            Value::NumberV(n) => push_str(&mut r, num_to_string(*n).as_str()),
            Value::StrV(v) => {
                push_str(&mut r, "\"");
                push_str(&mut r, v.as_str());
                push_str(&mut r, "\"");
            },
            Value::DateTimeV(x) => push_str(&mut r, datetime_print_exec(*x).as_str()),
            Value::DateV(x) => push_date(&mut r, *x),
            Value::TimeV(x) => push_time(&mut r, *x),
            Value::DurationV { duration, negative } => {
                if *negative {
                    push_str(&mut r, "-");
                }
                push_duration(&mut r, *duration);
            },
            Value::ArrayV(xs) => {
                let parts = value_texts(xs);
                r = crate::helpers::fmt_vec(&parts, "[", "]");
            },
            Value::MapV(es) => {
                let entries = entry_texts_of(es);
                r = crate::helpers::fmt_map(&entries, "{", "}");
            },
            Value::NativeFuncV { .. } => push_str(&mut r, "function"),
            Value::MacroV { .. } => push_str(&mut r, "macro"),
            Value::FuncV { .. } => push_str(&mut r, "function"),
        }
        proof {
            assert(r@ =~= value_text(self@));
        }
        r
    }
}

fn value_texts(xs: &Vec<Value>) -> (r: Vec<String>)
    requires
        values_wf(values_view(xs@)),
    ensures
        crate::helpers::views(r@) == values_text(values_view(xs@)),
    decreases xs,
{
    let mut parts: Vec<String> = Vec::new();
    let mut i: usize = 0;
    proof {
        lemma_values_view(xs@);
        lemma_values_wf(values_view(xs@));
        assert(crate::helpers::views(parts@) =~= values_text(values_view(xs@).take(0)));
    }
    while i < xs.len()
        invariant
            0 <= i <= xs.len(),
            values_view(xs@).len() == xs@.len(),
            forall|k: int| 0 <= k < xs.len() ==> values_view(xs@)[k] == value_view(#[trigger] xs@[k]),
            forall|k: int| 0 <= k < xs.len() ==> value_wf(#[trigger] values_view(xs@)[k]),
            crate::helpers::views(parts@) == values_text(values_view(xs@).take(i as int)),
        decreases xs.len() - i,
    {
        proof {
            broadcast use vstd::std_specs::vec::axiom_vec_index_decreases;

            assert(decreases_to!(xs => xs[i as int]));
            assert(value_wf(values_view(xs@)[i as int]));
        }
        let t = xs[i].to_string();
        let ghost old_parts = parts@;
        parts.push(t);
        proof {
            let vv = values_view(xs@);
            assert(vv.take(i + 1).drop_last() =~= vv.take(i as int));
            assert(crate::helpers::views(parts@) =~= crate::helpers::views(old_parts).push(t@));
        }
        i = i + 1;
    }
    proof {
        assert(values_view(xs@).take(xs@.len() as int) =~= values_view(xs@));
    }
    parts
}

fn entry_texts_of(es: &Vec<(String, Value)>) -> (r: Vec<(String, String)>)
    requires
        entries_wf(entries_view(es@)),
    ensures
        crate::helpers::entry_texts(r@) == entries_text(entries_view(es@)),
    decreases es,
{
    let mut entries: Vec<(String, String)> = Vec::new();
    let mut i: usize = 0;
    proof {
        lemma_entries_view(es@);
        lemma_entries_wf(entries_view(es@));
        assert(crate::helpers::entry_texts(entries@) =~= entries_text(entries_view(es@).take(0)));
    }
    while i < es.len()
        invariant
            0 <= i <= es.len(),
            entries_view(es@).len() == es@.len(),
            forall|k: int| 0 <= k < es.len() ==> entries_view(es@)[k] == ((#[trigger] es@[k]).0@, value_view(es@[k].1)),
            forall|k: int| 0 <= k < es.len() ==> value_wf(#[trigger] entries_view(es@)[k].1),
            crate::helpers::entry_texts(entries@) == entries_text(entries_view(es@).take(i as int)),
        decreases es.len() - i,
    {
        proof {
            broadcast use vstd::std_specs::vec::axiom_vec_index_decreases;

            assert(decreases_to!(es => es[i as int]));
            assert(decreases_to!(es[i as int] => es[i as int].1));
            assert(value_wf(entries_view(es@)[i as int].1));
        }
        let t = es[i].1.to_string();
        let ghost old_entries = entries@;
        entries.push((es[i].0.clone(), t));
        proof {
            let ev = entries_view(es@);
            assert(ev.take(i + 1).drop_last() =~= ev.take(i as int));
            assert(crate::helpers::entry_texts(entries@) =~= crate::helpers::entry_texts(old_entries).push(es@[i as int].0@ + ":"@ + t@));
        }
        i = i + 1;
    }
    proof {
        assert(entries_view(es@).take(es@.len() as int) =~= entries_view(es@));
    }
    entries
}

} // verus!
