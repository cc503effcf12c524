//! The errors of a transcription.

use vstd::prelude::*;

verus! {

/// Why a transcription failed. Every error carries a message for the user.
#[derive(Debug)]
pub enum AsrError {
    /// The request could not be made, or its reply was lost.
    ConnectionFailed(String),
    /// The service answered with an error, or with nothing.
    ServerError(String),
    /// Audio or a reply that does not have the expected form.
    ProtocolError(String),
}

/// An [`AsrError`] with its message as a sequence of characters.
pub enum AsrErrorView {
    ConnectionFailed(Seq<char>),
    ServerError(Seq<char>),
    ProtocolError(Seq<char>),
}

impl View for AsrError {
    type V = AsrErrorView;

    open spec fn view(&self) -> AsrErrorView {
        match self {
            AsrError::ConnectionFailed(m) => AsrErrorView::ConnectionFailed(m@),
            AsrError::ServerError(m) => AsrErrorView::ServerError(m@),
            AsrError::ProtocolError(m) => AsrErrorView::ProtocolError(m@),
        }
    }
}

impl AsrErrorView {
    /// The message, whatever the kind of the error.
    pub open spec fn message(self) -> Seq<char> {
        match self {
            AsrErrorView::ConnectionFailed(m) => m,
            AsrErrorView::ServerError(m) => m,
            AsrErrorView::ProtocolError(m) => m,
        }
    }
}

impl AsrError {
    /// The message, whatever the kind of the error.
    pub fn message(&self) -> (r: &str)
        ensures
            r@ == self@.message(),
    {
        match self {
            AsrError::ConnectionFailed(m) => m.as_str(),
            AsrError::ServerError(m) => m.as_str(),
            AsrError::ProtocolError(m) => m.as_str(),
        }
    }
}

/// `r` with its bytes and its error viewed.
pub open spec fn bytes_view(r: Result<Vec<u8>, AsrError>) -> Result<Seq<u8>, AsrErrorView> {
    match r {
        Ok(v) => Ok(v@),
        Err(e) => Err(e@),
    }
}

/// `r` with its text and its error viewed.
pub open spec fn text_view(r: Result<String, AsrError>) -> Result<Seq<char>, AsrErrorView> {
    match r {
        Ok(t) => Ok(t@),
        Err(e) => Err(e@),
    }
}

/// An error is known by its kind and by its message, whole.
pub proof fn law_error_is_kind_and_message(m: String)
    ensures
        AsrError::ConnectionFailed(m)@ == AsrErrorView::ConnectionFailed(m@),
        AsrError::ServerError(m)@ == AsrErrorView::ServerError(m@),
        AsrError::ProtocolError(m)@ == AsrErrorView::ProtocolError(m@),
        AsrError::ConnectionFailed(m)@.message() == m@,
        AsrError::ServerError(m)@.message() == m@,
        AsrError::ProtocolError(m)@.message() == m@,
{
}

/// A result is known by its bytes or its text, whole, or by its error.
pub proof fn law_result_is_value_or_error(v: Vec<u8>, t: String, e: AsrError)
    ensures
        bytes_view(Ok(v)) == Ok::<Seq<u8>, AsrErrorView>(v@),
        bytes_view(Err(e)) == Err::<Seq<u8>, AsrErrorView>(e@),
        text_view(Ok(t)) == Ok::<Seq<char>, AsrErrorView>(t@),
        text_view(Err(e)) == Err::<Seq<char>, AsrErrorView>(e@),
{
}

} // verus!
