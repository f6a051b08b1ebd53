//! Conversion between Unicode text and null-terminated UTF-16 "wide
//! character" buffers.
//!
//! The encoder turns a string into its UTF-16 code units followed by a
//! single zero terminator; the decoder validates a sequence of code units,
//! rebuilds the text, and strips every trailing null character.

use vstd::prelude::*;

pub mod codec;
pub mod utf16;

pub use codec::DecodeError;
pub use codec::from_wide;
pub use codec::to_wide;

use utf16::text_of;
use utf16::valid_utf16;
use utf16::wide_of;

verus! {

/// Conversion of text into a null-terminated UTF-16 wide buffer.
pub trait ToWchar: View<V = Seq<char>> {
    /// Encode as UTF-16 code units followed by a single zero terminator.
    fn to_wchar(&self) -> (r: Vec<u16>)
        ensures
            r@ == wide_of(self@),
    ;
}

impl ToWchar for str {
    fn to_wchar(&self) -> (r: Vec<u16>) {
        codec::to_wide(self)
    }
}

/// Conversion of a UTF-16 wide buffer into text.
pub trait FromWchar: View<V = Seq<char>> + Sized {
    /// Decode a wide buffer: succeeds exactly on valid UTF-16 and strips
    /// every trailing null character; on failure the error carries the raw
    /// code units.
    fn from_wchar(wchar: &[u16]) -> (r: Result<Self, DecodeError>)
        ensures
            r is Ok <==> valid_utf16(wchar@),
            r matches Ok(t) ==> t@ == text_of(wchar@),
            r matches Err(e) ==> e@ == wchar@,
    ;
}

impl FromWchar for String {
    fn from_wchar(wchar: &[u16]) -> (r: Result<String, DecodeError>) {
        codec::from_wide(wchar)
    }
}

} // verus!
