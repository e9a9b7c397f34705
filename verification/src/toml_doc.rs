//! TOML documents: what the `toml` crate reads from a text and writes back.

use vstd::prelude::*;

use crate::config;

verus! {

/// The contents of a TOML value.
pub enum Toml {
    Text(Seq<char>),
    Integer(i64),
    /// A float, by its bits.
    Float(u64),
    Boolean(bool),
    /// A date or time, as it is written.
    Datetime(Seq<char>),
    Array(Seq<Toml>),
    Table(Map<Seq<char>, Toml>),
}

/// `toml::Value`, one value of a document.
#[verifier::external_type_specification]
#[verifier::external_body]
pub struct ExValue(toml::Value);

/// `toml::de::Error`, the reason why a text is not a document.
#[verifier::external_type_specification]
#[verifier::external_body]
pub struct ExReadError(toml::de::Error);

/// `toml::ser::Error`, the reason why a value cannot be written as a document.
#[verifier::external_type_specification]
#[verifier::external_body]
pub struct ExWriteError(toml::ser::Error);

/// What a `toml::Value` holds.
pub uninterp spec fn contents(value: toml::Value) -> Toml;

/// The document that `toml::from_str` reads from a text, if the text is one.
pub uninterp spec fn parsed(text: Seq<char>) -> Option<Toml>;

/// The text that `toml::to_string_pretty` writes for a value, if it writes one.
pub uninterp spec fn rendered(value: Toml) -> Option<Seq<char>>;

/// The bits of a float that is a number, infinity among them.
pub open spec fn numeric(bits: u64) -> bool {
    (bits / 0x10_0000_0000_0000) % 0x800 == 0x7ff ==> bits % 0x10_0000_0000_0000 == 0
}

/// A text that `toml::from_str` takes for a date or time, and the one that is
/// written for it.
pub open spec fn dated(text: Seq<char>) -> bool {
    parsed("d = "@ + text) == Some(Toml::Table(map!["d"@ => Toml::Datetime(text)]))
}

/// Texts, numbers, booleans, dates and times, in arrays and tables nested at most
/// `depth` deep, without the key that the `toml` crate keeps for dates.
pub open spec fn plain_data(t: Toml, depth: nat) -> bool
    decreases depth,
{
    match t {
        Toml::Text(_) | Toml::Integer(_) | Toml::Boolean(_) => true,
        Toml::Float(bits) => numeric(bits),
        Toml::Datetime(text) => dated(text),
        Toml::Array(items) => depth > 0 && forall|i: int|
            0 <= i < items.len() ==> plain_data(#[trigger] items[i], (depth - 1) as nat),
        Toml::Table(m) => depth > 0 && forall|k: Seq<char>| #[trigger]
            m.contains_key(k) ==> k != "$__toml_private_datetime"@ && plain_data(
                m[k],
                (depth - 1) as nat,
            ),
    }
}

/// A document of plain data, at most 16 levels deep.
pub open spec fn plain_document(t: Toml) -> bool {
    t is Table && plain_data(t, 16)
}

/// Calls `toml::from_str`. What it reads depends on the text alone. Of a text in
/// the layout of the quick form it reads the entries of that form.
#[verifier::external_body]
pub(crate) fn read_document(text: &str) -> (document: Result<toml::Value, toml::de::Error>)
    ensures
        match document {
            Ok(value) => parsed(text@) == Some(contents(value)),
            Err(_) => parsed(text@) is None,
        },
        match document {
            Ok(value) => forall|q: config::QuickConfigView|
                text@ == #[trigger] config::quick_text(q) && config::readable(q) ==> contents(value)
                    == config::quick_contents(q),
            Err(_) => forall|q: config::QuickConfigView|
                text@ == #[trigger] config::quick_text(q) ==> !config::readable(q),
        },
{
    toml::from_str::<toml::Value>(text)
}

/// Calls `toml::to_string_pretty`. What it writes depends on the contents of the
/// value alone. A document of plain data is written, and `toml::from_str` reads
/// it back from the text: a float from the shortest digits that give its bits, a
/// date or time as it is read where it stands alone. Nothing is said of floats
/// that are no numbers, which lose their sign, nor of dates with parts missing or
/// out of range, which only a program can make.
#[verifier::external_body]
pub(crate) fn write_document(value: &toml::Value) -> (text: Result<String, toml::ser::Error>)
    ensures
        match text {
            Ok(t) => rendered(contents(*value)) == Some(t@),
            Err(_) => rendered(contents(*value)) is None,
        },
        match text {
            Ok(t) => plain_document(contents(*value)) ==> parsed(t@) == Some(contents(*value)),
            Err(_) => !plain_document(contents(*value)),
        },
{
    toml::to_string_pretty(value)
}

/// Calls `toml::Value::get` with a key.
#[verifier::external_body]
pub(crate) fn entry<'a>(value: &'a toml::Value, key: &str) -> (found: Option<&'a toml::Value>)
    ensures
        match found {
            Some(v) => contents(*value) matches Toml::Table(t) && t.contains_key(key@)
                && t[key@] == contents(*v),
            None => !(contents(*value) matches Toml::Table(t) && t.contains_key(key@)),
        },
{
    value.get(key)
}

/// `toml::Value::as_str` gives the text of a string.
pub assume_specification[ toml::Value::as_str ](value: &toml::Value) -> (found: Option<&str>)
    ensures
        match found {
            Some(t) => contents(*value) == Toml::Text(t@),
            None => !(contents(*value) is Text),
        },
;

/// `toml::Value::as_integer` gives the number of an integer.
pub assume_specification[ toml::Value::as_integer ](value: &toml::Value) -> (found: Option<i64>)
    ensures
        match found {
            Some(n) => contents(*value) == Toml::Integer(n),
            None => !(contents(*value) is Integer),
        },
;

/// The contents of a list of values.
pub open spec fn all_contents(items: Seq<toml::Value>) -> Seq<Toml> {
    items.map_values(|v: toml::Value| contents(v))
}

/// `toml::Value::as_array` gives the items of an array.
pub assume_specification[ toml::Value::as_array ](value: &toml::Value) -> (items: Option<
    &Vec<toml::Value>,
>)
    ensures
        match items {
            Some(v) => contents(*value) == Toml::Array(all_contents(v@)),
            None => !(contents(*value) is Array),
        },
;

/// Cloning a `toml::Value` keeps its contents.
pub assume_specification[ <toml::Value as Clone>::clone ](value: &toml::Value) -> (copy: toml::Value)
    ensures
        contents(copy) == contents(*value),
;

/// Builds the variant `toml::Value::Array`.
#[verifier::external_body]
pub(crate) fn array_of(items: Vec<toml::Value>) -> (value: toml::Value)
    ensures
        contents(value) == Toml::Array(all_contents(items@)),
{
    toml::Value::Array(items)
}

/// Calls `toml::map::Map::insert` on the table that `toml::Value::as_table_mut` gives;
/// where the value is no table it is left as it is.
#[verifier::external_body]
pub(crate) fn set_entry(value: &mut toml::Value, key: String, item: toml::Value) -> (is_table: bool)
    ensures
        match contents(*old(value)) {
            Toml::Table(t) => is_table && contents(*final(value)) == Toml::Table(
                t.insert(key@, contents(item)),
            ),
            _ => !is_table && contents(*final(value)) == contents(*old(value)),
        },
{
    match value.as_table_mut() {
        Some(table) => {
            table.insert(key, item);
            true
        },
        None => false,
    }
}

} // verus!
