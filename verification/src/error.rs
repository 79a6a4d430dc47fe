//! The errors a call can end with.

use vstd::prelude::*;

verus! {

/// Why a call, or the decoding of a frame, failed.
#[derive(Clone, Debug, PartialEq, Eq)]
pub enum Error {
    /// The transport is gone or the peer broke the protocol: fatal to every
    /// pending and future call on the connection.
    ConnectionClosed,
    /// The deadline of this one call elapsed; the connection stays usable.
    Timeout,
    /// The peer reported a failure for this call; the bytes are its detail.
    RemoteError(Vec<u8>),
    /// A frame was malformed.
    ProtocolError,
}

/// The mathematical value of an [`Error`].
pub enum ErrorModel {
    ConnectionClosed,
    Timeout,
    RemoteError(Seq<u8>),
    ProtocolError,
}

impl View for Error {
    type V = ErrorModel;

    open spec fn view(&self) -> ErrorModel {
        match self {
            Error::ConnectionClosed => ErrorModel::ConnectionClosed,
            Error::Timeout => ErrorModel::Timeout,
            Error::RemoteError(detail) => ErrorModel::RemoteError(detail@),
            Error::ProtocolError => ErrorModel::ProtocolError,
        }
    }
}

} // verus!
