//! Trees of plain data, read from JSON and TOML texts.

use crate::text::{contents, same};
use vstd::prelude::*;

verus! {

/// A tree of plain data: what the navigator reads of a JSON or TOML value.
#[derive(Debug)]
pub enum Data {
    Null,
    Bool(bool),
    /// A number, with its value where it is a natural number that fits.
    Number(Option<u64>),
    Text(String),
    List(Vec<Data>),
    /// Named members. Of members with one name the first counts.
    Table(Vec<(String, Data)>),
    /// Any other value, such as a date.
    Other,
}

/// What a tree of plain data holds.
pub enum DataView {
    Null,
    Bool(bool),
    Number(Option<u64>),
    Text(Seq<char>),
    List(Seq<DataView>),
    Table(Seq<(Seq<char>, DataView)>),
    Other,
}

impl Data {
    /// What the tree holds.
    pub open spec fn tree(self) -> DataView
        decreases self,
    {
        match self {
            Data::Null => DataView::Null,
            Data::Bool(b) => DataView::Bool(b),
            Data::Number(n) => DataView::Number(n),
            Data::Text(s) => DataView::Text(s@),
            Data::List(items) => DataView::List(
                Seq::new(
                    items@.len(),
                    |i: int|
                        if 0 <= i < items@.len() {
                            items@[i].tree()
                        } else {
                            DataView::Null
                        },
                ),
            ),
            Data::Table(members) => DataView::Table(
                Seq::new(
                    members@.len(),
                    |i: int|
                        if 0 <= i < members@.len() {
                            (members@[i].0@, members@[i].1.tree())
                        } else {
                            (Seq::empty(), DataView::Null)
                        },
                ),
            ),
            Data::Other => DataView::Other,
        }
    }
}

impl View for Data {
    type V = DataView;

    open spec fn view(&self) -> DataView {
        self.tree()
    }
}

/// The first member with a name.
pub open spec fn lookup(members: Seq<(Seq<char>, DataView)>, name: Seq<char>) -> Option<DataView>
    decreases members.len(),
{
    if members.len() == 0 {
        None
    } else if members[0].0 == name {
        Some(members[0].1)
    } else {
        lookup(members.drop_first(), name)
    }
}

impl DataView {
    /// The member of a table with a name.
    pub open spec fn member(self, name: Seq<char>) -> Option<DataView> {
        match self {
            DataView::Table(members) => lookup(members, name),
            _ => None,
        }
    }

    /// The text of the member with a name, where it is a text.
    pub open spec fn member_text(self, name: Seq<char>) -> Option<Seq<char>> {
        match self.member(name) {
            Some(DataView::Text(text)) => Some(text),
            _ => None,
        }
    }

    /// The text of the member with a name, or another text where it is none.
    pub open spec fn member_text_or(self, name: Seq<char>, other: Seq<char>) -> Seq<char> {
        match self.member_text(name) {
            Some(text) => text,
            None => other,
        }
    }

    /// Whether the member with a name is `true`.
    pub open spec fn member_true(self, name: Seq<char>) -> bool {
        self.member(name) == Some(DataView::Bool(true))
    }

    /// The natural number that the member with a name is, or zero where it is none.
    pub open spec fn member_number(self, name: Seq<char>) -> u64 {
        match self.member(name) {
            Some(DataView::Number(Some(n))) => n,
            _ => 0,
        }
    }

    /// The list of that name in a reply's `result`.
    pub open spec fn result_list(self, name: Seq<char>) -> Option<Seq<DataView>> {
        match self.member("result"@) {
            Some(result) => match result.member(name) {
                Some(DataView::List(items)) => Some(items),
                _ => None,
            },
            None => None,
        }
    }
}

/// What each tree holds.
pub open spec fn trees(items: Seq<Data>) -> Seq<DataView> {
    Seq::new(items.len(), |i: int| items[i]@)
}

impl Data {
    /// The member of a table with a name.
    pub fn member(&self, name: &str) -> (found: Option<&Data>)
        ensures
            self@.member(name@) == (match found {
                Some(data) => Some(data@),
                None => None,
            }),
    {
        match self {
            Data::Table(members) => {
                let ghost all = self@->Table_0;
                let mut i: usize = 0;
                assert(all.skip(0) == all);
                while i < members.len()
                    invariant
                        *self == Data::Table(*members),
                        all == self@->Table_0,
                        i <= members.len(),
                        lookup(all, name@) == lookup(all.skip(i as int), name@),
                    decreases members.len() - i,
                {
                    assert(all.skip(i as int)[0] == (members@[i as int].0@, members@[i as int].1@));
                    if same(members[i].0.as_str(), name) {
                        return Some(&members[i].1);
                    }
                    assert(all.skip(i as int).drop_first() =~= all.skip(i + 1));
                    i += 1;
                }
                None
            },
            _ => None,
        }
    }

    /// The text of the member with a name, where it is a text.
    pub fn member_text(&self, name: &str) -> (found: Option<&str>)
        ensures
            self@.member_text(name@) == crate::text::str_content(found),
    {
        match self.member(name) {
            Some(Data::Text(text)) => Some(text.as_str()),
            _ => None,
        }
    }

    /// The text of the member with a name, or another text where it is none.
    pub fn member_text_or<'a>(&'a self, name: &str, other: &'a str) -> (text: &'a str)
        ensures
            text@ == self@.member_text_or(name@, other@),
    {
        match self.member_text(name) {
            Some(text) => text,
            None => other,
        }
    }

    /// Whether the member with a name is `true`.
    pub fn member_true(&self, name: &str) -> (yes: bool)
        ensures
            yes == self@.member_true(name@),
    {
        match self.member(name) {
            Some(Data::Bool(b)) => *b,
            _ => false,
        }
    }

    /// The natural number that the member with a name is, or zero where it is none.
    pub fn member_number(&self, name: &str) -> (n: u64)
        ensures
            n == self@.member_number(name@),
    {
        match self.member(name) {
            Some(Data::Number(Some(n))) => *n,
            _ => 0,
        }
    }

    /// The list of that name in a reply's `result`.
    pub fn result_list(&self, name: &str) -> (found: Option<&Vec<Data>>)
        ensures
            self@.result_list(name@) == (match found {
                Some(items) => Some(trees(items@)),
                None => None,
            }),
    {
        match self.member("result") {
            Some(result) => match result.member(name) {
                Some(Data::List(items)) => {
                    assert(Data::List(*items)@->List_0 =~= trees(items@));
                    Some(items)
                },
                _ => None,
            },
            None => None,
        }
    }
}

impl Data {
    /// The tree that a JSON text spells, if it is valid JSON.
    pub fn from_json(text: &str) -> (data: Option<Data>)
        ensures
            json_tree(text@) == (match data {
                Some(tree) => Some(tree@),
                None => None,
            }),
    {
        parse_json(text)
    }
}

/// `serde_json::Value`, carried from the parser to the conversion.
#[verifier::external_type_specification]
#[verifier::external_body]
pub struct ExJsonValue(serde_json::Value);

/// `toml::Value`, carried from the parser to the conversion.
#[verifier::external_type_specification]
#[verifier::external_body]
pub struct ExTomlValue(toml::Value);

/// The tree that `serde_json::from_str` reads from a JSON text, if the text is valid JSON.
pub uninterp spec fn json_tree(text: Seq<char>) -> Option<DataView>;

/// The tree that a TOML document spells, if the text is a valid one.
pub uninterp spec fn toml_tree(text: Seq<char>) -> Option<DataView>;

/// Turns a `serde_json::Value` into a tree, variant by variant. Only `parse_json` uses it, whose
/// contract speaks for the two together.
#[verifier::external_body]
fn data_of_json(value: serde_json::Value) -> (data: Data) {
    match value {
        serde_json::Value::Null => Data::Null,
        serde_json::Value::Bool(flag) => Data::Bool(flag),
        serde_json::Value::Number(number) => Data::Number(number.as_u64()),
        serde_json::Value::String(text) => Data::Text(text),
        serde_json::Value::Array(items) => Data::List(items.into_iter().map(data_of_json).collect()),
        serde_json::Value::Object(members) => Data::Table(
            members.into_iter().map(|(name, value)| (name, data_of_json(value))).collect(),
        ),
    }
}

/// `serde_json::from_str` reads a JSON text; what it reads, and whether it can, depends on the text
/// alone.
#[verifier::external_body]
pub(crate) fn parse_json(text: &str) -> (data: Option<Data>)
    ensures
        json_tree(text@) == (match data {
            Some(tree) => Some(tree@),
            None => None,
        }),
{
    serde_json::from_str::<serde_json::Value>(text).ok().map(data_of_json)
}

/// Turns a `toml::Value` into a tree, variant by variant. Only `parse_toml` uses it, whose contract
/// speaks for the two together.
#[verifier::external_body]
fn data_of_toml(value: toml::Value) -> (data: Data) {
    match value {
        toml::Value::Boolean(flag) => Data::Bool(flag),
        toml::Value::Integer(number) => Data::Number(u64::try_from(number).ok()),
        toml::Value::Float(_) => Data::Number(None),
        toml::Value::String(text) => Data::Text(text),
        toml::Value::Datetime(_) => Data::Other,
        toml::Value::Array(items) => Data::List(items.into_iter().map(data_of_toml).collect()),
        toml::Value::Table(members) => Data::Table(
            members.into_iter().map(|(name, value)| (name, data_of_toml(value))).collect(),
        ),
    }
}

/// `toml::Value`'s `FromStr` reads a TOML document; what it reads, and whether it can, depends on
/// the text alone.
#[verifier::external_body]
pub(crate) fn parse_toml(text: &str) -> (data: Option<Data>)
    ensures
        toml_tree(text@) == (match data {
            Some(tree) => Some(tree@),
            None => None,
        }),
{
    text.parse::<toml::Value>().ok().map(data_of_toml)
}

/// What `serde_json::from_str` reads from a text as a list of strings, or its message where the
/// text is no such list.
pub uninterp spec fn decoded_strings(text: Seq<char>) -> Result<Seq<Seq<char>>, Seq<char>>;

/// The text that `serde_json::to_string_pretty` makes of a list of strings.
pub uninterp spec fn encoded_strings(list: Seq<Seq<char>>) -> Seq<char>;

/// `serde_json::from_str` reads a JSON list of strings, or says why it cannot; either depends on
/// the text alone.
#[verifier::external_body]
pub(crate) fn decode_strings(text: &str) -> (list: Result<Vec<String>, String>)
    ensures
        decoded_strings(text@) == (match list {
            Ok(strings) => Ok(contents(strings@)),
            Err(message) => Err(message@),
        }),
{
    serde_json::from_str::<Vec<String>>(text).map_err(|error| error.to_string())
}

/// `serde_json::to_string_pretty` writes a list of strings as JSON, which it can for every such
/// list, and `serde_json::from_str` reads the same list back from that text.
#[verifier::external_body]
pub(crate) fn encode_strings(list: &Vec<String>) -> (text: Result<String, String>)
    ensures
        text is Ok,
        text->Ok_0@ == encoded_strings(contents(list@)),
        decoded_strings(text->Ok_0@) is Ok,
        decoded_strings(text->Ok_0@)->Ok_0 == contents(list@),
{
    serde_json::to_string_pretty(list).map_err(|error| error.to_string())
}

} // verus!
