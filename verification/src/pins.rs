//! Storing pins: a JSON list of their keys.

use crate::data::{decode_strings, decoded_strings, encode_strings, encoded_strings};
use crate::string_set::{is_listing, StringSet};
use crate::text::{concat2, contents};
use vstd::prelude::*;

verus! {

/// The set of the pins that a text lists, from what the decoder made of the text.
pub open spec fn pins_in(decoded: Result<Seq<Seq<char>>, Seq<char>>) -> Result<
    Set<Seq<char>>,
    Seq<char>,
> {
    match decoded {
        Ok(list) => Ok(list.to_set()),
        Err(error) => Err("failed to parse pinned entries: "@ + error),
    }
}

/// The pins, from what the decoder made of the stored text.
pub fn pins_from(decoded: Result<Vec<String>, String>) -> (pins: Result<StringSet, String>)
    ensures
        pins_in(
            match decoded {
                Ok(list) => Ok(contents(list@)),
                Err(error) => Err(error@),
            },
        ) == (match pins {
            Ok(set) => Ok(set@),
            Err(message) => Err(message@),
        }),
{
    match decoded {
        Ok(list) => Ok(StringSet::from_list(list)),
        Err(error) => Err(concat2("failed to parse pinned entries: ", error.as_str())),
    }
}

/// The stored pins, from what reading their file gave.
pub fn read_pinned_entries(read: &Result<String, String>) -> (pins: Result<StringSet, String>)
    ensures
        match *read {
            Ok(text) => pins_in(decoded_strings(text@)) == (match pins {
                Ok(set) => Ok(set@),
                Err(message) => Err(message@),
            }),
            Err(error) => pins matches Err(message) && message@ == "failed to read pinned entries: "@
                + error@,
        },
{
    match read {
        Ok(text) => pins_from(decode_strings(text.as_str())),
        Err(error) => Err(concat2("failed to read pinned entries: ", error.as_str())),
    }
}

/// The text to store pins as: a JSON list of their keys in the order of code points. Reading it
/// gives the same pins.
pub fn saved_pinned_entries(pins: &StringSet) -> (text: Result<String, String>)
    ensures
        text is Ok,
        exists|list: Seq<Seq<char>>| #[trigger]
            is_listing(list, pins@) && text->Ok_0@ == encoded_strings(list),
        pins_in(decoded_strings(text->Ok_0@)) is Ok,
        pins_in(decoded_strings(text->Ok_0@))->Ok_0 == pins@,
{
    let sorted: Vec<String> = pins.sorted();
    match encode_strings(&sorted) {
        Ok(text) => Ok(text),
        Err(error) => Err(concat2("failed to encode pinned entries: ", error.as_str())),
    }
}

} // verus!
