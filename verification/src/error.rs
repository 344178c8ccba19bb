//! What can be wrong with a session description.

use vstd::prelude::*;

verus! {

/// The ways in which a session description, or a part of one, is rejected.
#[derive(Debug, Clone, Copy, PartialEq, Eq, Structural)]
pub enum ParseErrorKind {
    /// A sample format that names none of the supported depths.
    InvalidBitDepth,
    /// An `rtpmap` attribute of the wrong shape.
    MalformedRtpMap,
    /// A media line of the wrong shape.
    MalformedMediaAndTransport,
    /// A media type other than audio or video.
    UnsupportedMedia,
    /// A connection line of the wrong shape.
    MalformedConnectionInfo,
    /// A `ptime` attribute of the wrong shape.
    MalformedPacketTime,
    /// A packet time that is no decimal number within range.
    InvalidPacketTime,
    /// A number that is out of range for its field.
    InvalidNumber,
    /// An address that is no dotted quad of octets.
    InvalidAddress,
    /// A line without `=`.
    NotKeyValue,
    /// A document that leaves a field of the descriptor open.
    IncompleteSdp,
}

/// A rejection, with the text that was rejected.
#[derive(Debug, PartialEq, Eq)]
pub struct ParseError {
    pub kind: ParseErrorKind,
    pub text: String,
}

/// The mathematical content of a `ParseError`.
pub struct ParseErrorView {
    pub kind: ParseErrorKind,
    pub text: Seq<char>,
}

impl View for ParseError {
    type V = ParseErrorView;

    open spec fn view(&self) -> ParseErrorView {
        ParseErrorView { kind: self.kind, text: self.text@ }
    }
}

/// The rejection of `text` for the reason `kind`.
pub open spec fn rejection(kind: ParseErrorKind, text: Seq<char>) -> ParseErrorView {
    ParseErrorView { kind, text }
}

/// A result with its error seen as its mathematical content.
pub open spec fn plain<T>(r: Result<T, ParseError>) -> Result<T, ParseErrorView> {
    match r {
        Ok(v) => Ok(v),
        Err(e) => Err(e@),
    }
}

/// A result with its value and its error both seen as their mathematical content.
pub open spec fn viewed<T: View>(r: Result<T, ParseError>) -> Result<T::V, ParseErrorView> {
    match r {
        Ok(v) => Ok(v@),
        Err(e) => Err(e@),
    }
}

impl ParseErrorKind {
    /// The words that introduce the rejected text in a message.
    pub open spec fn spec_label(self) -> Seq<char> {
        match self {
            ParseErrorKind::InvalidBitDepth => "invalid bit depth: "@,
            ParseErrorKind::MalformedRtpMap => "malformed rtpmap: "@,
            ParseErrorKind::MalformedMediaAndTransport => "malformed media/transport: "@,
            ParseErrorKind::UnsupportedMedia => "unsupported media type: "@,
            ParseErrorKind::MalformedConnectionInfo => "malformed connection info: "@,
            ParseErrorKind::MalformedPacketTime => "malformed ptime: "@,
            ParseErrorKind::InvalidPacketTime => "invalid packet time: "@,
            ParseErrorKind::InvalidNumber => "number out of range: "@,
            ParseErrorKind::InvalidAddress => "invalid IPv4 address: "@,
            ParseErrorKind::NotKeyValue => "line is not a key/value pair: "@,
            ParseErrorKind::IncompleteSdp => "malformed SDP: "@,
        }
    }

    /// The words that introduce the rejected text in a message.
    pub fn label(&self) -> (label: &'static str)
        ensures
            label@ == self.spec_label(),
    {
        match self {
            ParseErrorKind::InvalidBitDepth => "invalid bit depth: ",
            ParseErrorKind::MalformedRtpMap => "malformed rtpmap: ",
            ParseErrorKind::MalformedMediaAndTransport => "malformed media/transport: ",
            ParseErrorKind::UnsupportedMedia => "unsupported media type: ",
            ParseErrorKind::MalformedConnectionInfo => "malformed connection info: ",
            ParseErrorKind::MalformedPacketTime => "malformed ptime: ",
            ParseErrorKind::InvalidPacketTime => "invalid packet time: ",
            ParseErrorKind::InvalidNumber => "number out of range: ",
            ParseErrorKind::InvalidAddress => "invalid IPv4 address: ",
            ParseErrorKind::NotKeyValue => "line is not a key/value pair: ",
            ParseErrorKind::IncompleteSdp => "malformed SDP: ",
        }
    }
}

impl ParseError {
    /// Rejects `text` for the reason `kind`.
    pub fn new(kind: ParseErrorKind, text: &str) -> (e: ParseError)
        ensures
            e@ == rejection(kind, text@),
    {
        ParseError { kind, text: text.to_owned() }
    }

    /// The reason followed by the rejected text.
    pub fn message(&self) -> (message: String)
        ensures
            message@ == self.kind.spec_label() + self.text@,
    {
        let label = self.kind.label();
        let mut message = label.to_owned();
        message.append(self.text.as_str());
        message
    }
}

} // verus!
