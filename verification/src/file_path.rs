//! Paths of files: bytes, which need not be valid UTF-8.

use crate::text::{lossy_text, strict_text, utf8_lossy};
use vstd::prelude::*;
use vstd::utf8::{decode_utf8, encode_utf8, valid_utf8};

verus! {

/// A path, with the text that it is shown as.
#[derive(Debug)]
pub struct FilePath {
    bytes: Vec<u8>,
    shown: String,
}

impl View for FilePath {
    type V = Seq<u8>;

    /// The bytes of the path.
    closed spec fn view(&self) -> Seq<u8> {
        self.bytes@
    }
}

/// A copy of some bytes.
pub fn copy_bytes(bytes: &Vec<u8>) -> (copy: Vec<u8>)
    ensures
        copy@ == bytes@,
{
    let mut copy: Vec<u8> = Vec::new();
    let mut i: usize = 0;
    while i < bytes.len()
        invariant
            i <= bytes.len(),
            copy@ == bytes@.take(i as int),
        decreases bytes.len() - i,
    {
        copy.push(bytes[i]);
        i += 1;
    }
    assert(bytes@.take(i as int) =~= bytes@);
    copy
}

impl FilePath {
    /// What is invalid in the path is shown by replacement characters.
    #[verifier::type_invariant]
    spec fn shows_its_bytes(self) -> bool {
        self.shown@ == utf8_lossy(self.bytes@)
    }

    /// The path with some bytes.
    pub fn from_bytes(bytes: Vec<u8>) -> (path: FilePath)
        ensures
            path@ == bytes@,
            valid_utf8(bytes@) ==> utf8_lossy(path@) == decode_utf8(bytes@),
    {
        let shown: String = lossy_text(&bytes);
        FilePath { bytes, shown }
    }

    /// The path that a text spells.
    pub fn from_text(text: &str) -> (path: FilePath)
        ensures
            path@ == encode_utf8(text@),
            utf8_lossy(path@) == text@,
    {
        let encoded: &[u8] = text.as_bytes();
        let mut bytes: Vec<u8> = Vec::new();
        let mut i: usize = 0;
        while i < encoded.len()
            invariant
                i <= encoded.len(),
                bytes@ == encoded@.take(i as int),
            decreases encoded.len() - i,
        {
            bytes.push(encoded[i]);
            i += 1;
        }
        proof {
            assert(encoded@.take(i as int) =~= encoded@);
            vstd::utf8::encode_utf8_valid_utf8(text@);
            vstd::utf8::encode_utf8_decode_utf8(text@);
        }
        FilePath::from_bytes(bytes)
    }

    /// The bytes of the path.
    pub fn bytes(&self) -> (bytes: &Vec<u8>)
        ensures
            bytes@ == self@,
    {
        &self.bytes
    }

    /// The text that the path is shown as.
    pub fn shown(&self) -> (text: &str)
        ensures
            text@ == utf8_lossy(self@),
    {
        proof {
            use_type_invariant(self);
        }
        self.shown.as_str()
    }

    /// The text that spells the path, where one does.
    pub fn text(&self) -> (text: Option<String>)
        ensures
            text is Some <==> valid_utf8(self@),
            text matches Some(t) ==> t@ == decode_utf8(self@),
    {
        strict_text(&self.bytes)
    }

    /// A copy of the path.
    pub fn copy(&self) -> (path: FilePath)
        ensures
            path@ == self@,
    {
        FilePath::from_bytes(copy_bytes(&self.bytes))
    }
}

} // verus!
