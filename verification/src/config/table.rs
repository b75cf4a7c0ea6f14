//! Access to a parsed configuration file: the TOML tables and values of the `toml`
//! crate, and the styles that `ratatui` reads from them.

use ratatui::style::Style;
use toml::{Table, Value};
use vstd::prelude::*;

verus! {

/// The map type behind a TOML table. Nothing inside it is visible to the verifier.
#[verifier::external_type_specification]
#[verifier::external_body]
#[verifier::reject_recursive_types(K)]
#[verifier::reject_recursive_types(V)]
pub struct ExTable<K, V>(toml::map::Map<K, V>);

/// A TOML value. Nothing inside it is visible to the verifier.
#[verifier::external_type_specification]
#[verifier::external_body]
pub struct ExValue(Value);

/// A style of the terminal layer. Nothing inside it is visible to the verifier.
#[verifier::external_type_specification]
#[verifier::external_body]
pub struct ExStyle(Style);

/// One value of a table, told apart as far as the configuration reads it.
pub enum ConfigItem {
    Text(String),
    Table(Table),
    Other(Value),
}

/// A TOML value as plain values: a string by its text, a table by its entries,
/// and any other value by the way it is written in TOML.
pub enum ValueView {
    Text(Seq<char>),
    Table(Seq<(Seq<char>, ValueView)>),
    Other(Seq<char>),
}

/// The entries of a table, key and value, in the order in which the table hands
/// them out.
pub uninterp spec fn table_items(table: Table) -> Seq<(Seq<char>, ValueView)>;

/// What a TOML value holds.
pub uninterp spec fn value_view(value: Value) -> ValueView;

/// The entries of the table that the TOML parser reads from a document, or `None`
/// where the document is not valid TOML.
pub uninterp spec fn parsed_items(contents: Seq<char>) -> Option<Seq<(Seq<char>, ValueView)>>;

/// The style that a table with these entries deserializes to, or `None` where it
/// describes no style.
pub uninterp spec fn style_of(items: Seq<(Seq<char>, ValueView)>) -> Option<Style>;

/// The entries of a table after an entry with the key `name` and the string `text`
/// as its value was inserted, in place of an entry with that key if there was one.
pub uninterp spec fn items_with_text(
    items: Seq<(Seq<char>, ValueView)>,
    name: Seq<char>,
    text: Seq<char>,
) -> Seq<(Seq<char>, ValueView)>;

impl ConfigItem {
    /// The item as plain values.
    pub open spec fn view(&self) -> ValueView {
        match *self {
            ConfigItem::Text(text) => ValueView::Text(text@),
            ConfigItem::Table(table) => ValueView::Table(table_items(table)),
            ConfigItem::Other(value) => value_view(value),
        }
    }
}

/// Whether some entry has the key `name`.
pub open spec fn has_key(items: Seq<(Seq<char>, ValueView)>, name: Seq<char>) -> bool {
    exists|i: int| 0 <= i < items.len() && (#[trigger] items[i]).0 == name
}

/// Calls `str::parse::<toml::Table>`, that is `toml::from_str`.
///
/// Trusted: the result is the parser's answer for this document, whose entries
/// depend on the document alone; `None` stands for the parser's error.
#[verifier::external_body]
pub(crate) fn parse_table(contents: &str) -> (table: Option<Table>)
    ensures
        match table {
            Some(parsed) => parsed_items(contents@) == Some(table_items(parsed)),
            None => parsed_items(contents@) is None,
        },
{
    contents.parse::<Table>().ok()
}

/// Calls `into_iter` of `toml::map::Map` and collects the entries.
///
/// Trusted: the entries come out as the table holds them, in its own order.
#[verifier::external_body]
pub(crate) fn table_entries(table: Table) -> (entries: Vec<(String, Value)>)
    ensures
        entries@.len() == table_items(table).len(),
        forall|i: int|
            0 <= i < entries@.len() ==> (#[trigger] entries@[i]).0@ == table_items(table)[i].0
                && value_view(entries@[i].1) == table_items(table)[i].1,
{
    table.into_iter().collect()
}

/// Tells the variants of `toml::Value` apart: a string, a table, anything else.
///
/// Trusted: the item is what the value is. A string comes out with its text, a
/// table as it is, and the item is `Other` for every other value.
#[verifier::external_body]
pub(crate) fn value_parts(value: &Value) -> (item: ConfigItem)
    ensures
        item@ == value_view(*value),
        item is Other ==> value_view(*value) is Other,
{
    match value {
        Value::String(text) => ConfigItem::Text(text.clone()),
        Value::Table(table) => ConfigItem::Table(table.clone()),
        other => ConfigItem::Other(other.clone()),
    }
}

/// Calls `clone` of `toml::map::Map`.
///
/// Trusted: the copy holds the entries that the table holds.
#[verifier::external_body]
pub(crate) fn copy_table(table: &Table) -> (copy: Table)
    ensures
        table_items(copy) == table_items(*table),
{
    table.clone()
}

/// Calls `contains_key` of `toml::map::Map`.
///
/// Trusted: the answer is whether the table has an entry with that key.
#[verifier::external_body]
pub(crate) fn table_has_key(table: &Table, name: &str) -> (found: bool)
    ensures
        found == has_key(table_items(*table), name@),
{
    table.contains_key(name)
}

/// Calls `insert` of `toml::map::Map` with a string value.
///
/// Trusted: the entries of the result are those of the table after the insertion,
/// which depend on the entries, the key and the text alone. Afterwards the key
/// `name` has the string `text` as its value, and every entry with another key is
/// kept as it was.
#[verifier::external_body]
pub(crate) fn table_insert_text(table: Table, name: &str, text: &str) -> (filled: Table)
    ensures
        table_items(filled) == items_with_text(table_items(table), name@, text@),
        table_items(filled).contains((name@, ValueView::Text(text@))),
        forall|entry: (Seq<char>, ValueView)|
            #[trigger] table_items(filled).contains(entry) && entry.0 == name@ ==> entry.1
                == ValueView::Text(text@),
        forall|entry: (Seq<char>, ValueView)|
            entry.0 != name@ ==> (#[trigger] table_items(filled).contains(entry) <==> table_items(
                table,
            ).contains(entry)),
{
    let mut filled = table;
    filled.insert(name.into(), Value::String(text.into()));
    filled
}

/// Calls `try_into::<Style>` of `toml::Table`, which deserializes the table.
///
/// Trusted: the result is what the table deserializes to, which depends on its
/// entries alone; `None` stands for the deserializer's error.
#[verifier::external_body]
pub(crate) fn table_into_style(table: Table) -> (style: Option<Style>)
    ensures
        style == style_of(table_items(table)),
{
    table.try_into::<Style>().ok()
}

/// Calls `Style::default`: the style that changes nothing. Nothing is claimed of
/// it.
#[verifier::external_body]
pub(crate) fn plain_style() -> Style {
    Style::default()
}

} // verus!
