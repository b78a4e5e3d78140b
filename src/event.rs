//! The structural events that a document reader hands to the passes, and
//! the element and attribute names the passes recognise.
use vstd::prelude::*;
use crate::text::same_text;

verus! {

pub const HEALTH_DATA: &'static str = "HealthData";
pub const WORKOUT: &'static str = "Workout";
pub const RECORD: &'static str = "Record";
pub const ACTIVITY_SUMMARY: &'static str = "ActivitySummary";
pub const METADATA_ENTRY: &'static str = "MetadataEntry";
pub const WORKOUT_EVENT: &'static str = "WorkoutEvent";
pub const WORKOUT_STATISTICS: &'static str = "WorkoutStatistics";
pub const WORKOUT_ROUTE: &'static str = "WorkoutRoute";
pub const FILE_REFERENCE: &'static str = "FileReference";
pub const TRACK_POINT: &'static str = "trkpt";
pub const KIND_ATTRIBUTE: &'static str = "type";
pub const KEY_ATTRIBUTE: &'static str = "key";
pub const VALUE_ATTRIBUTE: &'static str = "value";
pub const PATH_ATTRIBUTE: &'static str = "path";
pub const LATITUDE_ATTRIBUTE: &'static str = "lat";
pub const LONGITUDE_ATTRIBUTE: &'static str = "lon";
pub const WORKOUT_EVENTS_COLUMN: &'static str = "workoutEvents";
pub const WORKOUT_STATISTICS_COLUMN: &'static str = "workoutStatistics";
pub const GEOMETRY_COLUMN: &'static str = "geometry";
pub const METADATA_PREFIX: &'static str = "metadata_";
/// Where the main document lies inside the export archive.
pub const EXPORT_DOCUMENT_PATH: &'static str = "apple_health_export/export.xml";
/// What a route reference's path is appended to, to name its archive entry.
pub const ROUTE_ENTRY_PREFIX: &'static str = "apple_health_export";

/// Why a pass over a document stopped.
#[derive(PartialEq, Eq, Structural, Clone, Copy, Debug)]
pub enum LoadError {
    /// A record element has no `type` attribute to name its table.
    MissingKind,
    /// A track point's latitude or longitude is not a number.
    BadCoordinate,
    /// A row names a table that the schema does not hold.
    UnknownTable,
    /// A row names a column that its table does not declare.
    UnknownColumn,
    /// A row's value cannot be bound into its column's declared type.
    TypeMismatch,
    /// The document ends inside an open workout, route or record element.
    Truncated,
}

/// An element's name and its attributes, values already unescaped.
pub struct Element {
    pub name: String,
    pub attributes: Vec<(String, String)>,
}

/// One structural event of a document. Declarations, comments, text and
/// the like are all `Other`.
pub enum XmlEvent {
    Start(Element),
    Empty(Element),
    End(String),
    Eof,
    Other,
}

/// Attributes as pairs of character sequences.
pub open spec fn attrs_view(a: Seq<(String, String)>) -> Seq<(Seq<char>, Seq<char>)> {
    a.map_values(|p: (String, String)| (p.0@, p.1@))
}

/// The value of the first attribute named `key`.
pub open spec fn attr_value(a: Seq<(Seq<char>, Seq<char>)>, key: Seq<char>) -> Option<Seq<char>>
    decreases a.len(),
{
    if a.len() == 0 {
        None
    } else if a[0].0 == key {
        Some(a[0].1)
    } else {
        attr_value(a.drop_first(), key)
    }
}

/// The value of the first attribute named `key`, or the empty string.
pub open spec fn attr_or_empty(a: Seq<(Seq<char>, Seq<char>)>, key: Seq<char>) -> Seq<char> {
    match attr_value(a, key) {
        Some(v) => v,
        None => Seq::empty(),
    }
}

/// The record kind an element names through its `type` attribute, when
/// that attribute is present and not empty.
pub open spec fn element_kind(e: Element) -> Option<Seq<char>> {
    match attr_value(attrs_view(e.attributes@), KIND_ATTRIBUTE@) {
        Some(v) => if v.len() > 0 {
            Some(v)
        } else {
            None
        },
        None => None,
    }
}

/// The value of the first attribute of `e` named `key`.
pub fn attribute_value<'a>(e: &'a Element, key: &str) -> (r: Option<&'a String>)
    ensures
        r matches Some(v) ==> attr_value(attrs_view(e.attributes@), key@) == Some(v@),
        r is None ==> attr_value(attrs_view(e.attributes@), key@) is None,
{
    let ghost a = attrs_view(e.attributes@);
    let n = e.attributes.len();
    let mut i: usize = 0;
    assert(a.subrange(0, n as int) =~= a);
    while i < n
        invariant
            n == e.attributes@.len(),
            a == attrs_view(e.attributes@),
            i <= n,
            attr_value(a, key@) == attr_value(a.subrange(i as int, n as int), key@),
        decreases n - i,
    {
        let ghost rest = a.subrange(i as int, n as int);
        assert(rest[0] == a[i as int]);
        if same_text(e.attributes[i].0.as_str(), key) {
            return Some(&e.attributes[i].1);
        }
        assert(rest.drop_first() =~= a.subrange(i + 1, n as int));
        i = i + 1;
    }
    None
}

/// The value of the first attribute of `e` named `key`, or the empty string.
pub fn attribute_or_empty(e: &Element, key: &str) -> (r: String)
    ensures
        r@ == attr_or_empty(attrs_view(e.attributes@), key@),
{
    match attribute_value(e, key) {
        Some(v) => v.clone(),
        None => String::new(),
    }
}

/// The record kind of `e`: its non-empty `type` attribute.
pub fn record_kind(e: &Element) -> (r: Option<String>)
    ensures
        r matches Some(k) ==> element_kind(*e) == Some(k@),
        r is None ==> element_kind(*e) is None,
{
    match attribute_value(e, KIND_ATTRIBUTE) {
        Some(v) => {
            if v.as_str().unicode_len() > 0 {
                Some(v.clone())
            } else {
                None
            }
        },
        None => None,
    }
}

/// The column name under which a metadata entry with key `key` is stored.
pub open spec fn metadata_column(key: Seq<char>) -> Seq<char> {
    METADATA_PREFIX@ + key
}

pub fn metadata_column_name(key: &str) -> (r: String)
    ensures
        r@ == metadata_column(key@),
{
    let mut r = String::new();
    r.append(METADATA_PREFIX);
    r.append(key);
    r
}

/// The name of a metadata entry's column: its `key` attribute, prefixed.
pub open spec fn metadata_entry_column(e: Element) -> Seq<char> {
    metadata_column(attr_or_empty(attrs_view(e.attributes@), KEY_ATTRIBUTE@))
}

/// The raw value of a metadata entry: its `value` attribute.
pub open spec fn metadata_entry_value(e: Element) -> Seq<char> {
    attr_or_empty(attrs_view(e.attributes@), VALUE_ATTRIBUTE@)
}


} // verus!
