//! Errors of the PLC client.
use vstd::prelude::*;

verus! {

#[derive(Debug, PartialEq, Eq)]
pub enum ClientError {
    Ads(String),
    SymbolNotFound(String),
    Decode(String),
    UnknownTarget(String),
    Io(String),
}

/// What a [`ClientError`] says, with its texts as character sequences.
pub enum ClientErrorView {
    Ads(Seq<char>),
    SymbolNotFound(Seq<char>),
    Decode(Seq<char>),
    UnknownTarget(Seq<char>),
    Io(Seq<char>),
}

impl View for ClientError {
    type V = ClientErrorView;

    open spec fn view(&self) -> ClientErrorView {
        match *self {
            ClientError::Ads(s) => ClientErrorView::Ads(s@),
            ClientError::SymbolNotFound(s) => ClientErrorView::SymbolNotFound(s@),
            ClientError::Decode(s) => ClientErrorView::Decode(s@),
            ClientError::UnknownTarget(s) => ClientErrorView::UnknownTarget(s@),
            ClientError::Io(s) => ClientErrorView::Io(s@),
        }
    }
}

impl ClientErrorView {
    /// The message shown for the error.
    pub open spec fn message(self) -> Seq<char> {
        match self {
            ClientErrorView::Ads(s) => "ads protocol error: "@ + s,
            ClientErrorView::SymbolNotFound(s) => "symbol not found: "@ + s,
            ClientErrorView::Decode(s) => "decode error: "@ + s,
            ClientErrorView::UnknownTarget(s) => "target not configured: "@ + s,
            ClientErrorView::Io(s) => "io error: "@ + s,
        }
    }
}

impl ClientError {
    pub fn to_string(&self) -> (r: String)
        ensures
            r@ == self@.message(),
    {
        match self {
            ClientError::Ads(s) => String::from_str("ads protocol error: ").concat(s),
            ClientError::SymbolNotFound(s) => String::from_str("symbol not found: ").concat(s),
            ClientError::Decode(s) => String::from_str("decode error: ").concat(s),
            ClientError::UnknownTarget(s) => String::from_str("target not configured: ").concat(s),
            ClientError::Io(s) => String::from_str("io error: ").concat(s),
        }
    }
}

/// A result with its value and its error by their views.
pub open spec fn told<T: View>(r: Result<T, ClientError>) -> Result<T::V, ClientErrorView> {
    match r {
        Ok(v) => Ok(v@),
        Err(e) => Err(e@),
    }
}

} // verus!
