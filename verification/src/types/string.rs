use vstd::prelude::*;
use vstd::std_specs::cmp::PartialEqSpecImpl;
use vstd::std_specs::convert::TryFromSpecImpl;
use vstd::utf8::{decode_utf8, encode_utf8};

use crate::error::{ParseError, ValidationError};
use crate::format::{encode_string, spec_string, Read};
use crate::parser::parse_string;
use crate::serializer::extend_bytes;
use crate::traits::{NbtParse, NbtSerialize};

verus! {

/// An NBT String.
///
/// Wrapper around a `String`, limiting its length to `u16:MAX` bytes.
#[derive(Debug, PartialOrd, Ord, Hash)]
pub struct NbtString {
    pub(crate) str: String,
}

impl View for NbtString {
    type V = Seq<char>;

    open(crate) spec fn view(&self) -> Seq<char> {
        self.str@
    }
}

impl NbtString {
    /// The UTF-8 bytes of a string of characters.
    pub open spec fn utf8(s: Seq<char>) -> Seq<u8> {
        encode_utf8(s)
    }

    /// Whether NBT can hold the string: its length in bytes is written as a `u16`.
    pub open spec fn fits(s: Seq<char>) -> bool {
        encode_utf8(s).len() <= u16::MAX
    }

    /// Every `NbtString` fits.
    #[verifier::type_invariant]
    pub(crate) open spec fn holds_fitting_text(self) -> bool {
        NbtString::fits(self.str@)
    }
}

impl PartialEq for NbtString {
    fn eq(&self, other: &Self) -> (r: bool) {
        self.str == other.str
    }
}

impl Eq for NbtString {

}

impl PartialEqSpecImpl for NbtString {
    open spec fn obeys_eq_spec() -> bool {
        true
    }

    open(crate) spec fn eq_spec(&self, other: &Self) -> bool {
        self.str@ == other.str@
    }
}

impl TryFrom<String> for NbtString {
    type Error = (ValidationError, String);

    /// Attempts to create a `NbtString` from an `String`.
    ///
    /// # Errors
    /// Returns an error if the `String` is longer than `u16::MAX`.
    fn try_from(str: String) -> (r: Result<Self, Self::Error>) {
        let len = str.as_str().as_bytes().len();
        if len > u16::MAX as usize {
            Err((ValidationError::StringTooLong(len), str))
        } else {
            Ok(Self { str })
        }
    }
}

impl TryFromSpecImpl<String> for NbtString {
    open spec fn obeys_try_from_spec() -> bool {
        true
    }

    open(crate) spec fn try_from_spec(str: String) -> Result<Self, (ValidationError, String)> {
        let len = encode_utf8(str@).len();
        if len > u16::MAX {
            Err((ValidationError::StringTooLong(len as usize), str))
        } else {
            Ok(NbtString { str })
        }
    }
}

impl core::ops::Deref for NbtString {
    type Target = str;

    fn deref(&self) -> (r: &str)
        ensures
            r@ == self@,
            NbtString::fits(r@),
    {
        proof {
            use_type_invariant(self);
        }
        self.str.as_str()
    }
}

impl NbtParse for NbtString {
    open spec fn spec_parse_nbt_payload(data: Seq<u8>) -> Read<Seq<char>> {
        spec_string(data)
    }

    fn try_parse_nbt_payload(data: &[u8]) -> (r: Result<(Self, &[u8]), ParseError>) {
        parse_string(data)
    }
}

impl NbtSerialize for NbtString {
    open spec fn payload_fits(&self) -> bool {
        NbtString::fits(self@)
    }

    open spec fn spec_serialize_nbt_payload(&self) -> Seq<u8> {
        encode_string(self@)
    }

    fn serialize_nbt_payload(&self, buf: &mut Vec<u8>) {
        proof {
            use_type_invariant(self);
        }
        let bytes = self.str.as_str().as_bytes();
        (bytes.len() as u16).serialize_nbt_payload(buf);
        extend_bytes(buf, bytes);
    }
}

/// Whether two strings hold the same characters, found by comparing their UTF-8 bytes.
pub(crate) fn same_text(a: &str, b: &str) -> (r: bool)
    ensures
        r == (a@ == b@),
{
    broadcast use vstd::utf8::encode_utf8_decode_utf8;

    let x = a.as_bytes();
    let y = b.as_bytes();
    if x.len() != y.len() {
        return false;
    }
    let mut i: usize = 0;
    while i < x.len()
        invariant
            i <= x@.len(),
            x@.len() == y@.len(),
            x@ == encode_utf8(a@),
            y@ == encode_utf8(b@),
            forall|j: int| 0 <= j < i ==> x@[j] == y@[j],
        decreases x@.len() - i,
    {
        if x[i] != y[i] {
            return false;
        }
        i += 1;
    }
    assert(x@ =~= y@);
    assert(decode_utf8(encode_utf8(a@)) == decode_utf8(encode_utf8(b@)));
    true
}

impl core::borrow::Borrow<str> for NbtString {
    fn borrow(&self) -> (r: &str)
        ensures
            text_of(r) == self@,
    {
        self.str.as_str()
    }
}

/// The characters of a string slice.
pub open spec fn text_of(s: &str) -> Seq<char> {
    s@
}

impl PartialEq<str> for NbtString {
    fn eq(&self, other: &str) -> (r: bool) {
        same_text(self.str.as_str(), other)
    }
}

impl PartialEqSpecImpl<str> for NbtString {
    open spec fn obeys_eq_spec() -> bool {
        true
    }

    open spec fn eq_spec(&self, other: &str) -> bool {
        self@ == other@
    }
}

impl PartialEq<NbtString> for str {
    fn eq(&self, other: &NbtString) -> (r: bool) {
        same_text(self, other.str.as_str())
    }
}

impl PartialEqSpecImpl<NbtString> for str {
    open spec fn obeys_eq_spec() -> bool {
        true
    }

    open spec fn eq_spec(&self, other: &NbtString) -> bool {
        self@ == other@
    }
}

} // verus!
