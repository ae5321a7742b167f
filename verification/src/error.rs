//! Errors of the ADS protocol layer.
use vstd::prelude::*;

use crate::text::{dec, push_dec};

verus! {

#[derive(Debug, PartialEq, Eq)]
pub enum AdsError {
    InvalidVersion(u8),
    IncompleteMessage { expected: u64, got: u64 },
    InvalidStringEncoding(String),
    InvalidTimestamp(String),
    BufferError(String),
    ParseError(String),
    IoError(String),
    ConversionError(String),
}

/// What an [`AdsError`] says, with its texts as character sequences.
pub enum AdsErrorView {
    InvalidVersion(u8),
    IncompleteMessage { expected: int, got: int },
    InvalidStringEncoding(Seq<char>),
    InvalidTimestamp(Seq<char>),
    BufferError(Seq<char>),
    ParseError(Seq<char>),
    IoError(Seq<char>),
    ConversionError(Seq<char>),
}

impl View for AdsError {
    type V = AdsErrorView;

    open spec fn view(&self) -> AdsErrorView {
        match *self {
            AdsError::InvalidVersion(v) => AdsErrorView::InvalidVersion(v),
            AdsError::IncompleteMessage { expected, got } => AdsErrorView::IncompleteMessage {
                expected: expected as int,
                got: got as int,
            },
            AdsError::InvalidStringEncoding(s) => AdsErrorView::InvalidStringEncoding(s@),
            AdsError::InvalidTimestamp(s) => AdsErrorView::InvalidTimestamp(s@),
            AdsError::BufferError(s) => AdsErrorView::BufferError(s@),
            AdsError::ParseError(s) => AdsErrorView::ParseError(s@),
            AdsError::IoError(s) => AdsErrorView::IoError(s@),
            AdsError::ConversionError(s) => AdsErrorView::ConversionError(s@),
        }
    }
}

impl AdsErrorView {
    /// The message shown for the error.
    pub open spec fn message(self) -> Seq<char> {
        match self {
            AdsErrorView::InvalidVersion(v) => "Invalid protocol version: "@ + dec(v as nat),
            AdsErrorView::IncompleteMessage { expected, got } => "Incomplete message: expected "@ + dec(
                expected as nat,
            ) + ", got "@ + dec(got as nat),
            AdsErrorView::InvalidStringEncoding(s) => "Invalid string encoding: "@ + s,
            AdsErrorView::InvalidTimestamp(s) => "Invalid timestamp: "@ + s,
            AdsErrorView::BufferError(s) => "Buffer error: "@ + s,
            AdsErrorView::ParseError(s) => "Parse error: "@ + s,
            AdsErrorView::IoError(s) => "IO error: "@ + s,
            AdsErrorView::ConversionError(s) => "Conversion error: "@ + s,
        }
    }
}

impl AdsError {
    pub fn to_string(&self) -> (r: String)
        ensures
            r@ == self@.message(),
    {
        match self {
            AdsError::InvalidVersion(v) => {
                let mut r = String::from_str("Invalid protocol version: ");
                push_dec(&mut r, *v as u64);
                r
            },
            AdsError::IncompleteMessage { expected, got } => {
                let mut r = String::from_str("Incomplete message: expected ");
                push_dec(&mut r, *expected);
                r.append(", got ");
                push_dec(&mut r, *got);
                r
            },
            AdsError::InvalidStringEncoding(s) => String::from_str("Invalid string encoding: ").concat(s),
            AdsError::InvalidTimestamp(s) => String::from_str("Invalid timestamp: ").concat(s),
            AdsError::BufferError(s) => String::from_str("Buffer error: ").concat(s),
            AdsError::ParseError(s) => String::from_str("Parse error: ").concat(s),
            AdsError::IoError(s) => String::from_str("IO error: ").concat(s),
            AdsError::ConversionError(s) => String::from_str("Conversion error: ").concat(s),
        }
    }
}

/// A result with both sides taken by their views.
pub open spec fn outcome<T: View>(r: Result<T, AdsError>) -> Result<T::V, AdsErrorView> {
    match r {
        Ok(v) => Ok(v@),
        Err(e) => Err(e@),
    }
}

} // verus!
