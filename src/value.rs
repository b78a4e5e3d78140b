//! Storage types and the typed values that raw attribute strings become.
use vstd::prelude::*;
use crate::text::{decimal_text, float_text, i32_of, is_float_text, lemma_decimal_text_round_trip, parse_i32};

verus! {

/// The column types of the destination store.
#[derive(PartialEq, Eq, Structural, Clone, Copy, Debug)]
pub enum StorageType {
    Integer,
    Real,
    Date,
    Timestamp,
    Text,
    Structured,
}

/// A calendar date.
#[derive(PartialEq, Eq, Structural, Clone, Copy, Debug)]
pub struct CalendarDate {
    pub year: i32,
    pub month: u8,
    pub day: u8,
}

/// A date and time of day with an offset from UTC.
#[derive(PartialEq, Eq, Structural, Clone, Copy, Debug)]
pub struct Timestamp {
    pub date: CalendarDate,
    pub hour: u8,
    pub minute: u8,
    pub second: u8,
    pub offset_hours: i8,
    pub offset_minutes: i8,
}

/// A field of an embedded object: a number, kept as its literal, or text.
pub enum Scalar {
    Number(String),
    Text(String),
}

/// The embedded documents that a row can hold.
pub enum Structured {
    /// A list of objects, one per discrete event.
    Events(Vec<Vec<(String, Scalar)>>),
    /// An object that maps each statistic's kind to its fields.
    Statistics(Vec<(String, Vec<(String, Scalar)>)>),
    /// A line string of (longitude, latitude) literals; `None` is the empty
    /// object.
    Route(Option<Vec<(String, String)>>),
}

/// A typed value bound into a row; a real number keeps its literal.
pub enum Value {
    Integer(i32),
    Real(String),
    Date(CalendarDate),
    Timestamp(Timestamp),
    Text(String),
    Structured(Structured),
}

pub enum ScalarView {
    Number(Seq<char>),
    Text(Seq<char>),
}

pub type FieldsView = Seq<(Seq<char>, ScalarView)>;

pub type CoordinatesView = Seq<(Seq<char>, Seq<char>)>;

pub enum StructuredView {
    Events(Seq<FieldsView>),
    Statistics(Seq<(Seq<char>, FieldsView)>),
    Route(Option<CoordinatesView>),
}

pub enum ValueView {
    Integer(i32),
    Real(Seq<char>),
    Date(CalendarDate),
    Timestamp(Timestamp),
    Text(Seq<char>),
    Structured(StructuredView),
}

pub open spec fn scalar_view(s: Scalar) -> ScalarView {
    match s {
        Scalar::Number(t) => ScalarView::Number(t@),
        Scalar::Text(t) => ScalarView::Text(t@),
    }
}

pub open spec fn fields_view(f: Seq<(String, Scalar)>) -> FieldsView {
    f.map_values(|p: (String, Scalar)| (p.0@, scalar_view(p.1)))
}

pub open spec fn coordinates_view(c: Seq<(String, String)>) -> CoordinatesView {
    c.map_values(|p: (String, String)| (p.0@, p.1@))
}

pub open spec fn structured_view(s: Structured) -> StructuredView {
    match s {
        Structured::Events(v) => StructuredView::Events(v@.map_values(|f: Vec<(String, Scalar)>| fields_view(f@))),
        Structured::Statistics(v) => StructuredView::Statistics(
            v@.map_values(|p: (String, Vec<(String, Scalar)>)| (p.0@, fields_view(p.1@))),
        ),
        Structured::Route(r) => StructuredView::Route(
            match r {
                Some(c) => Some(coordinates_view(c@)),
                None => None,
            },
        ),
    }
}

pub open spec fn value_view(v: Value) -> ValueView {
    match v {
        Value::Integer(i) => ValueView::Integer(i),
        Value::Real(t) => ValueView::Real(t@),
        Value::Date(d) => ValueView::Date(d),
        Value::Timestamp(t) => ValueView::Timestamp(t),
        Value::Text(t) => ValueView::Text(t@),
        Value::Structured(s) => ValueView::Structured(structured_view(s)),
    }
}

/// Key of a route's discriminator in its embedded document.
pub const ROUTE_KIND_KEY: &'static str = "type";
/// The discriminator of a route with coordinates.
pub const ROUTE_KIND: &'static str = "LineString";
/// Key of a route's (longitude, latitude) pairs in its embedded document.
pub const ROUTE_COORDINATES_KEY: &'static str = "coordinates";

/// Layout of a date and time with an explicit offset.
pub const TIMESTAMP_FORMAT: &'static str =
    "[year]-[month]-[day] [hour]:[minute]:[second] [offset_hour sign:mandatory][offset_minute]";

/// Layout of a plain calendar date.
pub const DATE_FORMAT: &'static str = "[year]-[month]-[day]";

/// What the date library reads from `text` laid out as `format`: year,
/// month and day.
pub uninterp spec fn parsed_date(text: Seq<char>, format: Seq<char>) -> Option<(i32, u8, u8)>;

/// What the date library reads from `text` laid out as `format`: year,
/// month, day, hour, minute, second, and the offset's hours and minutes.
pub uninterp spec fn parsed_timestamp(text: Seq<char>, format: Seq<char>) -> Option<(i32, u8, u8, u8, u8, u8, i8, i8)>;

/// Relies on `time::format_description::parse_borrowed` to read the layout
/// and `time::Date::parse` to read the date; the result depends on the two
/// strings alone.
#[verifier::external_body]
fn read_date(text: &str, format: &str) -> (r: Option<ParsedDate>)
    ensures
        r == parsed_date(text@, format@),
{
    let items = time::format_description::parse_borrowed::<1>(format).ok()?;
    let d = time::Date::parse(text, &items).ok()?;
    Some((d.year(), u8::from(d.month()), d.day()))
}

/// Relies on `time::format_description::parse_borrowed` to read the layout
/// and `time::OffsetDateTime::parse` to read the timestamp; the result
/// depends on the two strings alone.
#[verifier::external_body]
fn read_timestamp(text: &str, format: &str) -> (r: Option<ParsedTimestamp>)
    ensures
        r == parsed_timestamp(text@, format@),
{
    let items = time::format_description::parse_borrowed::<1>(format).ok()?;
    let t = time::OffsetDateTime::parse(text, &items).ok()?;
    let (oh, om, _) = t.offset().as_hms();
    Some((t.year(), u8::from(t.month()), t.day(), t.hour(), t.minute(), t.second(), oh, om))
}

pub type ParsedTimestamp = (i32, u8, u8, u8, u8, u8, i8, i8);

pub type ParsedDate = (i32, u8, u8);

/// The storage type of a raw string, given what the date library read from
/// it as a timestamp and as a date: integer, then real, then timestamp,
/// then date, else text.
pub open spec fn classify_given(s: Seq<char>, ts: Option<ParsedTimestamp>, d: Option<ParsedDate>) -> StorageType {
    if i32_of(s).is_some() {
        StorageType::Integer
    } else if float_text(s) {
        StorageType::Real
    } else if ts.is_some() {
        StorageType::Timestamp
    } else if d.is_some() {
        StorageType::Date
    } else {
        StorageType::Text
    }
}

/// The storage type of a raw string.
pub open spec fn classify(s: Seq<char>) -> StorageType {
    classify_given(s, parsed_timestamp(s, TIMESTAMP_FORMAT@), parsed_date(s, DATE_FORMAT@))
}

pub open spec fn value_type(v: ValueView) -> StorageType {
    match v {
        ValueView::Integer(_) => StorageType::Integer,
        ValueView::Real(_) => StorageType::Real,
        ValueView::Date(_) => StorageType::Date,
        ValueView::Timestamp(_) => StorageType::Timestamp,
        ValueView::Text(_) => StorageType::Text,
        ValueView::Structured(_) => StorageType::Structured,
    }
}

pub open spec fn timestamp_of(t: ParsedTimestamp) -> Timestamp {
    Timestamp {
        date: CalendarDate { year: t.0, month: t.1, day: t.2 },
        hour: t.3,
        minute: t.4,
        second: t.5,
        offset_hours: t.6,
        offset_minutes: t.7,
    }
}

/// The typed value of a raw string, given what the date library read from
/// it, by the same order as `classify_given`.
pub open spec fn coerce_given(s: Seq<char>, ts: Option<ParsedTimestamp>, d: Option<ParsedDate>) -> ValueView {
    if i32_of(s).is_some() {
        ValueView::Integer(i32_of(s).unwrap())
    } else if float_text(s) {
        ValueView::Real(s)
    } else if ts.is_some() {
        ValueView::Timestamp(timestamp_of(ts.unwrap()))
    } else if d.is_some() {
        ValueView::Date(CalendarDate { year: d.unwrap().0, month: d.unwrap().1, day: d.unwrap().2 })
    } else {
        ValueView::Text(s)
    }
}

/// The typed value of the raw string `s`.
pub open spec fn coerce(s: Seq<char>) -> ValueView {
    coerce_given(s, parsed_timestamp(s, TIMESTAMP_FORMAT@), parsed_date(s, DATE_FORMAT@))
}

/// The storage type of a raw string, given what the date library read from
/// it as a timestamp and as a date.
pub fn classify_parsed(s: &str, ts: Option<ParsedTimestamp>, d: Option<ParsedDate>) -> (r: StorageType)
    ensures
        r == classify_given(s@, ts, d),
{
    if parse_i32(s).is_some() {
        StorageType::Integer
    } else if is_float_text(s) {
        StorageType::Real
    } else if ts.is_some() {
        StorageType::Timestamp
    } else if d.is_some() {
        StorageType::Date
    } else {
        StorageType::Text
    }
}

/// The typed value of a raw string, given what the date library read from
/// it as a timestamp and as a date.
pub fn coerce_parsed(s: &str, ts: Option<ParsedTimestamp>, d: Option<ParsedDate>) -> (r: Value)
    ensures
        value_view(r) == coerce_given(s@, ts, d),
        value_type(coerce_given(s@, ts, d)) == classify_given(s@, ts, d),
{
    if let Some(i) = parse_i32(s) {
        Value::Integer(i)
    } else if is_float_text(s) {
        Value::Real(s.to_owned())
    } else if let Some(t) = ts {
        Value::Timestamp(Timestamp {
            date: CalendarDate { year: t.0, month: t.1, day: t.2 },
            hour: t.3,
            minute: t.4,
            second: t.5,
            offset_hours: t.6,
            offset_minutes: t.7,
        })
    } else if let Some(d) = d {
        Value::Date(CalendarDate { year: d.0, month: d.1, day: d.2 })
    } else {
        Value::Text(s.to_owned())
    }
}

/// The storage type of a raw attribute string.
pub fn classify_text(s: &str) -> (r: StorageType)
    ensures
        r == classify(s@),
{
    let ts = read_timestamp(s, TIMESTAMP_FORMAT);
    let d = read_date(s, DATE_FORMAT);
    classify_parsed(s, ts, d)
}

/// The typed value of a raw attribute string, by the same rule as
/// `classify_text`.
pub fn coerce_text(s: &str) -> (r: Value)
    ensures
        value_view(r) == coerce(s@),
        value_type(coerce(s@)) == classify(s@),
{
    let ts = read_timestamp(s, TIMESTAMP_FORMAT);
    let d = read_date(s, DATE_FORMAT);
    coerce_parsed(s, ts, d)
}

/// The column type name used in table definitions.
pub open spec fn column_type_name(t: StorageType) -> Seq<char> {
    match t {
        StorageType::Integer => "INTEGER"@,
        StorageType::Real => "REAL"@,
        StorageType::Date => "DATE"@,
        StorageType::Timestamp => "DATE"@,
        StorageType::Text => "TEXT"@,
        StorageType::Structured => "JSON"@,
    }
}

pub fn sql_type_name(t: StorageType) -> (r: &'static str)
    ensures
        r@ == column_type_name(t),
{
    match t {
        StorageType::Integer => "INTEGER",
        StorageType::Real => "REAL",
        StorageType::Date => "DATE",
        StorageType::Timestamp => "DATE",
        StorageType::Text => "TEXT",
        StorageType::Structured => "JSON",
    }
}

/// Whether a value of type `v` may be bound into a column declared `c`:
/// only where the two are the same type.
pub open spec fn binds_to(v: StorageType, c: StorageType) -> bool {
    v == c
}

pub fn value_binds_to(v: &Value, c: StorageType) -> (r: bool)
    ensures
        r == binds_to(value_type(value_view(*v)), c),
{
    let t = match v {
        Value::Integer(_) => StorageType::Integer,
        Value::Real(_) => StorageType::Real,
        Value::Date(_) => StorageType::Date,
        Value::Timestamp(_) => StorageType::Timestamp,
        Value::Text(_) => StorageType::Text,
        Value::Structured(_) => StorageType::Structured,
    };
    t == c
}

/// A string read as an integer, written back in decimal, reads again as
/// an integer, to the same value.
pub proof fn lemma_integer_round_trip(s: Seq<char>)
    requires
        classify(s) == StorageType::Integer,
    ensures
        coerce(s) == ValueView::Integer(i32_of(s).unwrap()),
        classify(decimal_text(i32_of(s).unwrap() as int)) == StorageType::Integer,
        coerce(decimal_text(i32_of(s).unwrap() as int)) == coerce(s),
{
    lemma_decimal_text_round_trip(i32_of(s).unwrap());
}

/// A string read as a real keeps its literal, which reads again as a real.
pub proof fn lemma_real_round_trip(s: Seq<char>)
    requires
        classify(s) == StorageType::Real,
    ensures
        coerce(s) == ValueView::Real(s),
        classify(s) == StorageType::Real,
{
}

} // verus!
