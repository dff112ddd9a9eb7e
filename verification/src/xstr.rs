use vstd::prelude::*;
use vstd::slice::slice_to_vec;
use vstd::string::StringSliceAdditionalSpecFns;

verus! {

/// A borrowed byte-string slice, viewed as its byte sequence.
#[derive(Clone, Copy, Debug)]
pub struct XStr<'a> {
    bytes: &'a [u8],
}

/// An owned byte string, viewed as its byte sequence.
#[derive(Debug)]
pub struct XString {
    bytes: Vec<u8>,
}

impl<'a> View for XStr<'a> {
    type V = Seq<u8>;

    closed spec fn view(&self) -> Seq<u8> {
        self.bytes@
    }
}

impl View for XString {
    type V = Seq<u8>;

    closed spec fn view(&self) -> Seq<u8> {
        self.bytes@
    }
}

impl<'a> XStr<'a> {
    /// Borrows the bytes of a string slice.
    pub fn from_str(s: &'a str) -> (r: XStr<'a>)
        ensures
            r@ == s.spec_bytes(),
    {
        XStr { bytes: s.as_bytes() }
    }

    /// Borrows a byte slice.
    pub fn from_bytes(s: &'a [u8]) -> (r: XStr<'a>)
        ensures
            r@ == s@,
    {
        XStr { bytes: s }
    }

    /// Copies the borrowed bytes into an owned byte string.
    pub fn to_owned(&self) -> (r: XString)
        ensures
            r@ == self@,
    {
        XString { bytes: slice_to_vec(self.bytes) }
    }

    /// The number of bytes.
    pub fn len(&self) -> (r: usize)
        ensures
            r == self@.len(),
    {
        self.bytes.len()
    }
}

impl XString {
    /// Borrows the owned bytes as a byte-string slice.
    pub fn borrow(&self) -> (r: XStr<'_>)
        ensures
            r@ == self@,
    {
        XStr { bytes: self.bytes.as_slice() }
    }

    /// The number of bytes.
    pub fn len(&self) -> (r: usize)
        ensures
            r == self@.len(),
    {
        self.bytes.len()
    }
}

} // verus!
