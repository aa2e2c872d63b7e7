//! Error model: transport faults, protocol (codec) faults, and text-encoding
//! faults. Any of these returned out of the poll loop halts the whole server.
use vstd::prelude::*;

verus! {

/// A fault on the serial bus or in the TCP-offload chip.
#[derive(Clone, Copy, PartialEq, Eq, Structural, Debug)]
pub struct TransportError;

/// The codec's error type, declared so that it can be carried in
/// [`WebServerError::WebSocket`]. Its contents are opaque here.
#[verifier::external_type_specification]
#[verifier::external_body]
pub struct ExWsError(embedded_websocket::Error);

/// The server's error type. Every variant is fatal for the whole server when
/// it reaches the poll loop.
#[derive(Debug)]
pub enum WebServerError {
    /// The transport provider failed.
    Io(TransportError),
    /// The WebSocket or HTTP codec rejected the bytes.
    WebSocket(embedded_websocket::Error),
    /// A text payload (or close reason) was not valid UTF-8.
    Utf8Error,
}

impl From<TransportError> for WebServerError {
    fn from(err: TransportError) -> (r: WebServerError) {
        WebServerError::Io(err)
    }
}

impl vstd::std_specs::convert::FromSpecImpl<TransportError> for WebServerError {
    open spec fn obeys_from_spec() -> bool {
        true
    }

    open spec fn from_spec(err: TransportError) -> WebServerError {
        WebServerError::Io(err)
    }
}

impl From<embedded_websocket::Error> for WebServerError {
    fn from(err: embedded_websocket::Error) -> (r: WebServerError) {
        WebServerError::WebSocket(err)
    }
}

impl vstd::std_specs::convert::FromSpecImpl<embedded_websocket::Error> for WebServerError {
    open spec fn obeys_from_spec() -> bool {
        true
    }

    open spec fn from_spec(err: embedded_websocket::Error) -> WebServerError {
        WebServerError::WebSocket(err)
    }
}

} // verus!
