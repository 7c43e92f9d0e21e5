//! From dBASE records to GeoJSON properties.
use vstd::prelude::*;
use vstd::string::*;

use crate::geometry::{finite, is_finite, law_finite_is_about_the_exponent};
use crate::interactive::{all_digits, number_of};
use crate::text::{
    law_decimal_stands_for_the_number, law_padded_stands_for_the_number, padded, padded_text,
};

verus! {

/// A calendar date of a record.
#[derive(Debug, Clone, Copy, PartialEq, Eq, Structural)]
pub struct Date {
    pub year: u32,
    pub month: u32,
    pub day: u32,
}

/// A date with a time of day.
#[derive(Debug, Clone, Copy, PartialEq, Eq, Structural)]
pub struct DateTime {
    pub date: Date,
    pub hours: u32,
    pub minutes: u32,
    pub seconds: u32,
}

/// The value of a field. A floating point number is held as the bit pattern of its
/// double.
#[derive(Debug, PartialEq, Eq)]
pub enum FieldValue {
    Character(Option<String>),
    Numeric(Option<u64>),
    Logical(Option<bool>),
    Date(Option<Date>),
    Float(Option<u64>),
    Integer(i32),
    Currency(u64),
    DateTime(DateTime),
    Double(u64),
    Memo(String),
}

/// A JSON value of a property.
#[derive(Debug, PartialEq, Eq)]
pub enum JsonValue<T = String> {
    Null,
    Bool(bool),
    Integer(i32),
    /// A finite number, as the bit pattern of its double.
    Double(u64),
    Text(T),
}

impl View for JsonValue {
    type V = JsonValue<Seq<char>>;

    open spec fn view(&self) -> JsonValue<Seq<char>> {
        match self {
            JsonValue::Null => JsonValue::Null,
            JsonValue::Bool(b) => JsonValue::Bool(*b),
            JsonValue::Integer(i) => JsonValue::Integer(*i),
            JsonValue::Double(bits) => JsonValue::Double(*bits),
            JsonValue::Text(s) => JsonValue::Text(s@),
        }
    }
}

/// A number of JSON, or null for what JSON has no number for (NaN, infinity).
pub open spec fn json_double(bits: u64) -> JsonValue<Seq<char>> {
    if is_finite(bits) {
        JsonValue::Double(bits)
    } else {
        JsonValue::Null
    }
}

/// `YYYY-MM-DD`.
pub open spec fn date_text(d: Date) -> Seq<char> {
    padded(d.year as nat, 4) + "-"@ + padded(d.month as nat, 2) + "-"@ + padded(d.day as nat, 2)
}

/// `YYYY-MM-DDTHH:MM:SSZ`.
pub open spec fn date_time_text(dt: DateTime) -> Seq<char> {
    date_text(dt.date) + "T"@ + padded(dt.hours as nat, 2) + ":"@ + padded(dt.minutes as nat, 2)
        + ":"@ + padded(dt.seconds as nat, 2) + "Z"@
}

/// The JSON value for a field.
pub open spec fn json_of(fv: &FieldValue) -> JsonValue<Seq<char>> {
    match fv {
        FieldValue::Character(Some(s)) => JsonValue::Text(s@),
        FieldValue::Character(None) => JsonValue::Null,
        FieldValue::Numeric(Some(bits)) => json_double(*bits),
        FieldValue::Numeric(None) => JsonValue::Null,
        FieldValue::Float(Some(bits)) => json_double(*bits),
        FieldValue::Float(None) => JsonValue::Null,
        FieldValue::Double(bits) => json_double(*bits),
        FieldValue::Integer(i) => JsonValue::Integer(*i),
        FieldValue::Logical(Some(b)) => JsonValue::Bool(*b),
        FieldValue::Logical(None) => JsonValue::Null,
        FieldValue::Date(Some(d)) => JsonValue::Text(date_text(*d)),
        FieldValue::Date(None) => JsonValue::Null,
        FieldValue::DateTime(dt) => JsonValue::Text(date_time_text(*dt)),
        FieldValue::Memo(s) => JsonValue::Text(s@),
        FieldValue::Currency(bits) => json_double(*bits),
    }
}

/// A number of JSON, or null for what JSON has no number for (NaN, infinity).
pub fn json_number_f64(bits: u64) -> (r: JsonValue)
    ensures
        r@ == json_double(bits),
{
    if finite(bits) {
        JsonValue::Double(bits)
    } else {
        JsonValue::Null
    }
}

fn format_date(d: &Date) -> (r: String)
    ensures
        r@ == date_text(*d),
{
    let mut s = padded_text(d.year as u128, 4);
    s.append("-");
    let month = padded_text(d.month as u128, 2);
    s.append(month.as_str());
    s.append("-");
    let day = padded_text(d.day as u128, 2);
    s.append(day.as_str());
    s
}

fn format_date_time(dt: &DateTime) -> (r: String)
    ensures
        r@ == date_time_text(*dt),
{
    let mut s = format_date(&dt.date);
    s.append("T");
    let hours = padded_text(dt.hours as u128, 2);
    s.append(hours.as_str());
    s.append(":");
    let minutes = padded_text(dt.minutes as u128, 2);
    s.append(minutes.as_str());
    s.append(":");
    let seconds = padded_text(dt.seconds as u128, 2);
    s.append(seconds.as_str());
    s.append("Z");
    s
}

/// Maps the value of a field to a JSON value.
pub fn field_value_to_json(fv: &FieldValue) -> (r: JsonValue)
    ensures
        r@ == json_of(fv),
{
    match fv {
        FieldValue::Character(Some(s)) => JsonValue::Text(s.clone()),
        FieldValue::Character(None) => JsonValue::Null,
        FieldValue::Numeric(Some(bits)) => json_number_f64(*bits),
        FieldValue::Numeric(None) => JsonValue::Null,
        FieldValue::Float(Some(bits)) => json_number_f64(*bits),
        FieldValue::Float(None) => JsonValue::Null,
        FieldValue::Double(bits) => json_number_f64(*bits),
        FieldValue::Integer(i) => JsonValue::Integer(*i),
        FieldValue::Logical(Some(b)) => JsonValue::Bool(*b),
        FieldValue::Logical(None) => JsonValue::Null,
        FieldValue::Date(Some(d)) => JsonValue::Text(format_date(d)),
        FieldValue::Date(None) => JsonValue::Null,
        FieldValue::DateTime(dt) => JsonValue::Text(format_date_time(dt)),
        FieldValue::Memo(s) => JsonValue::Text(s.clone()),
        FieldValue::Currency(bits) => json_number_f64(*bits),
    }
}

/// A record: the fields and their values, no name twice.
pub open spec fn record_fields(record: Seq<(String, FieldValue)>) -> Seq<
    (Seq<char>, JsonValue<Seq<char>>),
> {
    record.map_values(|field: (String, FieldValue)| (field.0@, json_of(&field.1)))
}

pub open spec fn properties_view(properties: Seq<(String, JsonValue)>) -> Seq<
    (Seq<char>, JsonValue<Seq<char>>),
> {
    properties.map_values(|p: (String, JsonValue)| (p.0@, p.1@))
}

/// Converts a record into GeoJSON properties: one for each field, under its name.
pub fn record_to_properties(record: &Vec<(String, FieldValue)>) -> (r: Vec<(String, JsonValue)>)
    ensures
        properties_view(r@) == record_fields(record@),
{
    let ghost all = record_fields(record@);
    let mut out: Vec<(String, JsonValue)> = Vec::new();
    let mut i: usize = 0;
    while i < record.len()
        invariant
            i <= record@.len(),
            all == record_fields(record@),
            properties_view(out@) =~= all.take(i as int),
        decreases record@.len() - i,
    {
        let name = record[i].0.clone();
        let value = field_value_to_json(&record[i].1);
        let ghost before = properties_view(out@);
        out.push((name, value));
        assert(properties_view(out@) =~= before.push((name@, value@)));
        i = i + 1;
    }
    assert(all.take(i as int) =~= all);
    out
}

/// No property holds a number that JSON cannot express.
pub proof fn law_numbers_are_finite(fv: &FieldValue)
    ensures
        json_of(fv) matches JsonValue::Double(bits) ==> is_finite(bits),
{
}

/// A number in a field becomes that very number, and null where JSON has no number for
/// it: where it is not finite. An empty field becomes null. A text stays the same text,
/// and a truth value the same truth value.
pub proof fn law_fields_keep_their_values(fv: &FieldValue)
    ensures
        match fv {
            FieldValue::Numeric(Some(bits)) => keeps_number(json_of(fv), *bits),
            FieldValue::Float(Some(bits)) => keeps_number(json_of(fv), *bits),
            FieldValue::Double(bits) => keeps_number(json_of(fv), *bits),
            FieldValue::Currency(bits) => keeps_number(json_of(fv), *bits),
            FieldValue::Integer(i) => json_of(fv) matches JsonValue::Integer(j) && j == *i,
            FieldValue::Logical(Some(b)) => json_of(fv) matches JsonValue::Bool(c) && c == *b,
            FieldValue::Character(Some(s)) => json_of(fv) matches JsonValue::Text(text) && text
                == s@,
            FieldValue::Memo(s) => json_of(fv) matches JsonValue::Text(text) && text == s@,
            FieldValue::Date(Some(d)) => json_of(fv) matches JsonValue::Text(text) && reads_as_date(
                text,
                *d,
            ),
            FieldValue::DateTime(dt) => json_of(fv) matches JsonValue::Text(text)
                && reads_as_date_time(text, *dt),
            FieldValue::Numeric(None) => json_of(fv) is Null,
            FieldValue::Float(None) => json_of(fv) is Null,
            FieldValue::Logical(None) => json_of(fv) is Null,
            FieldValue::Character(None) => json_of(fv) is Null,
            FieldValue::Date(None) => json_of(fv) is Null,
        },
{
    match fv {
        FieldValue::Date(Some(d)) => lemma_reads_as_date(*d),
        FieldValue::DateTime(dt) => {
            lemma_reads_as_date(dt.date);
            law_decimal_stands_for_the_number(dt.hours as nat);
            law_decimal_stands_for_the_number(dt.minutes as nat);
            law_decimal_stands_for_the_number(dt.seconds as nat);
            law_padded_stands_for_the_number(dt.hours as nat, 2);
            law_padded_stands_for_the_number(dt.minutes as nat, 2);
            law_padded_stands_for_the_number(dt.seconds as nat, 2);
            let (h, m, s) = (
                padded(dt.hours as nat, 2),
                padded(dt.minutes as nat, 2),
                padded(dt.seconds as nat, 2),
            );
            assert(reads_as(h, dt.hours, 2));
            assert(reads_as(m, dt.minutes, 2));
            assert(reads_as(s, dt.seconds, 2));
            let date = date_text(dt.date);
            assert(date_time_text(*dt) == date + "T"@ + h + ":"@ + m + ":"@ + s + "Z"@);
        },
        FieldValue::Numeric(Some(bits)) => law_finite_is_about_the_exponent(*bits),
        FieldValue::Float(Some(bits)) => law_finite_is_about_the_exponent(*bits),
        FieldValue::Double(bits) => law_finite_is_about_the_exponent(*bits),
        FieldValue::Currency(bits) => law_finite_is_about_the_exponent(*bits),
        _ => {},
    }
}

/// The JSON value for a number.
pub open spec fn keeps_number(v: JsonValue<Seq<char>>, bits: u64) -> bool {
    if bits & 0x7ff0_0000_0000_0000 != 0x7ff0_0000_0000_0000 {
        v matches JsonValue::Double(b) && b == bits
    } else {
        v is Null
    }
}

/// The text is a number in decimal digits, at least as many as `width`.
pub open spec fn reads_as(text: Seq<char>, n: u32, width: nat) -> bool {
    &&& all_digits(text)
    &&& number_of(text) == n
    &&& text.len() >= width
    &&& text.len() > width ==> text[0] != '0'
}

/// The text is year, month and day, in this order and with hyphens between them.
pub open spec fn reads_as_date(text: Seq<char>, d: Date) -> bool {
    exists|y: Seq<char>, m: Seq<char>, day: Seq<char>|
        #![trigger reads_as(y, d.year, 4), reads_as(m, d.month, 2), reads_as(day, d.day, 2)]
        reads_as(y, d.year, 4) && reads_as(m, d.month, 2) && reads_as(day, d.day, 2) && text == y
            + "-"@ + m + "-"@ + day
}

/// The text is a date, a `T`, hours, minutes and seconds with colons between them, and a
/// `Z`.
pub open spec fn reads_as_date_time(text: Seq<char>, dt: DateTime) -> bool {
    exists|date: Seq<char>, h: Seq<char>, m: Seq<char>, s: Seq<char>|
        #![trigger reads_as_date(date, dt.date), reads_as(h, dt.hours, 2), reads_as(m, dt.minutes, 2), reads_as(s, dt.seconds, 2)]
        reads_as_date(date, dt.date) && reads_as(h, dt.hours, 2) && reads_as(m, dt.minutes, 2)
            && reads_as(s, dt.seconds, 2) && text == date + "T"@ + h + ":"@ + m + ":"@ + s + "Z"@
}

proof fn lemma_reads_as_date(d: Date)
    ensures
        reads_as_date(date_text(d), d),
{
    law_padded_stands_for_the_number(d.year as nat, 4);
    law_padded_stands_for_the_number(d.month as nat, 2);
    law_padded_stands_for_the_number(d.day as nat, 2);
    law_decimal_stands_for_the_number(d.year as nat);
    law_decimal_stands_for_the_number(d.month as nat);
    law_decimal_stands_for_the_number(d.day as nat);
    let (y, m, day) = (
        padded(d.year as nat, 4),
        padded(d.month as nat, 2),
        padded(d.day as nat, 2),
    );
    assert(reads_as(y, d.year, 4));
    assert(reads_as(m, d.month, 2));
    assert(reads_as(day, d.day, 2));
    assert(date_text(d) == y + "-"@ + m + "-"@ + day);
}

/// A record has a property for each of its fields, in their order, under the field's own
/// name and with the field's own value.
pub proof fn law_records_keep_their_fields(record: Seq<(String, FieldValue)>)
    ensures
        record_fields(record).len() == record.len(),
        forall|i: int|
            0 <= i < record.len() ==> (#[trigger] record_fields(record)[i]).0 == record[i].0@
                && record_fields(record)[i].1 == json_of(&record[i].1),
{
}

} // verus!
