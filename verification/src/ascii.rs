//! A byte string checked to hold ASCII only.
//!
//! An `Ascii` value owns a byte vector of which every byte is below 0x80, so
//! the same bytes are also well-formed UTF-8 and a caller may reuse them as
//! text without a second scan.

use vstd::prelude::*;

verus! {

/// True when every byte of `s` is an ASCII code point (below 0x80).
pub open spec fn is_ascii(s: Seq<u8>) -> bool {
    forall|i: int| 0 <= i < s.len() ==> s[i] < 128
}

/// A byte vector of which every byte has been checked to be ASCII.
#[derive(Debug, PartialEq, Eq)]
pub struct Ascii(Vec<u8>);

/// The rejected input, handed back unchanged so the caller keeps ownership.
#[derive(Debug, PartialEq, Eq)]
pub struct NotAsciiError(pub Vec<u8>);

impl View for Ascii {
    type V = Seq<u8>;

    closed spec fn view(&self) -> Seq<u8> {
        self.0@
    }
}

impl Ascii {
    /// Builds an `Ascii` from `bytes` when every byte is ASCII; otherwise
    /// returns the bytes unchanged inside `NotAsciiError`.
    pub fn from_bytes(bytes: Vec<u8>) -> (r: Result<Ascii, NotAsciiError>)
        ensures
            is_ascii(bytes@) ==> (r matches Ok(a) && a@ == bytes@),
            !is_ascii(bytes@) ==> (r matches Err(e) && e.0@ == bytes@),
    {
        let mut i: usize = 0;
        while i < bytes.len()
            invariant
                i <= bytes@.len(),
                forall|j: int| 0 <= j < i ==> bytes@[j] < 128,
            decreases bytes@.len() - i,
        {
            if bytes[i] >= 128 {
                return Err(NotAsciiError(bytes));
            }
            i = i + 1;
        }
        Ok(Ascii(bytes))
    }

    /// Builds an `Ascii` without scanning. The caller must already know that
    /// every byte is ASCII; the obligation is the precondition.
    pub fn from_bytes_unchecked(bytes: Vec<u8>) -> (a: Ascii)
        requires
            is_ascii(bytes@),
        ensures
            a@ == bytes@,
    {
        Ascii(bytes)
    }

    /// The checked bytes.
    pub fn as_bytes(&self) -> (r: &Vec<u8>)
        ensures
            r@ == self@,
    {
        &self.0
    }
}

} // verus!
