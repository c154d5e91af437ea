//! Four-byte chunk type codes whose byte case encodes semantic flags.

use vstd::prelude::*;
use vstd::string::StringSliceAdditionalSpecFns;

use crate::FormatError;
use crate::text::push_char;

verus! {

/// True for the byte values of ASCII uppercase letters.
pub open spec fn is_upper(b: u8) -> bool {
    0x41 <= b <= 0x5a
}

/// True for the byte values of ASCII lowercase letters.
pub open spec fn is_lower(b: u8) -> bool {
    0x61 <= b <= 0x7a
}

/// True for the byte values of ASCII letters.
pub open spec fn is_alpha(b: u8) -> bool {
    is_upper(b) || is_lower(b)
}

/// A well-formed type code: exactly four ASCII-alphabetic bytes.
pub open spec fn type_bytes_wf(t: Seq<u8>) -> bool {
    t.len() == 4 && is_alpha(t[0]) && is_alpha(t[1]) && is_alpha(t[2]) && is_alpha(t[3])
}

/// A four-byte ASCII-alphabetic identifier. The case of each byte
/// carries one semantic flag; see the predicate methods.
#[derive(Debug, PartialEq, Eq)]
pub struct ChunkType {
    value: [u8; 4],
}

impl View for ChunkType {
    type V = Seq<u8>;

    closed spec fn view(&self) -> Seq<u8> {
        self.value@
    }
}

/// Tests whether a byte is an ASCII letter.
pub fn is_alpha_byte(b: u8) -> (r: bool)
    ensures
        r == is_alpha(b),
{
    (0x41 <= b && b <= 0x5a) || (0x61 <= b && b <= 0x7a)
}

impl ChunkType {
    #[verifier::type_invariant]
    pub open spec fn wf(self) -> bool {
        type_bytes_wf(self@)
    }

    /// Builds a type code from four raw bytes, rejecting any byte that
    /// is not an ASCII letter.
    pub fn from_bytes(bytes: [u8; 4]) -> (r: Result<ChunkType, FormatError>)
        ensures
            r is Ok <==> type_bytes_wf(bytes@),
            r matches Ok(t) ==> t@ == bytes@,
            r matches Err(e) ==> e == FormatError::InvalidTypeCode,
    {
        if is_alpha_byte(bytes[0]) && is_alpha_byte(bytes[1]) && is_alpha_byte(bytes[2])
            && is_alpha_byte(bytes[3]) {
            Ok(ChunkType { value: bytes })
        } else {
            Err(FormatError::InvalidTypeCode)
        }
    }

    /// Builds a type code from text, rejecting anything but exactly
    /// four ASCII-alphabetic characters.
    pub fn from_text(s: &str) -> (r: Result<ChunkType, FormatError>)
        ensures
            r is Ok <==> type_bytes_wf(s.spec_bytes()),
            r matches Ok(t) ==> t@ == s.spec_bytes(),
            r matches Err(e) ==> e == FormatError::InvalidTypeCode,
    {
        let bs = s.as_bytes();
        if bs.len() != 4 {
            return Err(FormatError::InvalidTypeCode);
        }
        let bytes: [u8; 4] = [bs[0], bs[1], bs[2], bs[3]];
        assert(bytes@ =~= s.spec_bytes());
        Self::from_bytes(bytes)
    }

    /// The four raw bytes of the type code.
    pub fn bytes(&self) -> (r: [u8; 4])
        ensures
            r@ == self@,
    {
        self.value
    }

    /// The type code rendered as four ASCII characters.
    pub fn to_text(&self) -> (r: String)
        ensures
            r@.len() == 4,
            forall|i: int| 0 <= i < 4 ==> r@[i] == self@[i] as char,
    {
        let mut out = String::new();
        push_char(&mut out, self.value[0] as char);
        push_char(&mut out, self.value[1] as char);
        push_char(&mut out, self.value[2] as char);
        push_char(&mut out, self.value[3] as char);
        out
    }

    /// A type code is well formed for the format exactly when its
    /// reserved bit is valid; the other flags may take any value.
    pub fn is_valid(&self) -> (r: bool)
        ensures
            r == is_upper(self@[2]),
    {
        self.is_reserved_bit_valid()
    }

    /// Uppercase first byte: a critical (must-understand) chunk.
    pub fn is_critical(&self) -> (r: bool)
        ensures
            r == is_upper(self@[0]),
    {
        0x41 <= self.value[0] && self.value[0] <= 0x5a
    }

    /// Uppercase second byte: a public chunk type.
    pub fn is_public(&self) -> (r: bool)
        ensures
            r == is_upper(self@[1]),
    {
        0x41 <= self.value[1] && self.value[1] <= 0x5a
    }

    /// Uppercase third byte: the reserved bit is valid.
    pub fn is_reserved_bit_valid(&self) -> (r: bool)
        ensures
            r == is_upper(self@[2]),
    {
        0x41 <= self.value[2] && self.value[2] <= 0x5a
    }

    /// Lowercase fourth byte: safe to copy when unrecognized.
    pub fn is_safe_to_copy(&self) -> (r: bool)
        ensures
            r == is_lower(self@[3]),
    {
        0x61 <= self.value[3] && self.value[3] <= 0x7a
    }
}

} // verus!
