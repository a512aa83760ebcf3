//! Protocol-level vocabulary shared by every protocol: roles, flow signals,
//! error traits, and the traits a protocol implements for its channels,
//! streams, transports and request contexts.

use vstd::prelude::*;

verus! {

/// Conditional send marker; implemented for every type (the local,
/// single-executor flavour).
pub trait MaybeSend {}

impl<T> MaybeSend for T {}

/// Conditional sync marker; implemented for every type.
pub trait MaybeSync {}

impl<T> MaybeSync for T {}

/// Values that carry both mobility markers.
pub trait MaybeSendSync: MaybeSend + MaybeSync {}

impl<T> MaybeSendSync for T {}

/// Role of a protocol handler.
#[derive(Debug, Clone, Copy, PartialEq, Eq, Structural)]
pub enum ProtocolRole {
    /// Accepts connections and handles requests.
    Server,
    /// Initiates connections and sends requests.
    Client,
}

/// Continuation signal of one protocol exchange.
#[derive(Debug, Clone, Copy, PartialEq, Eq, Structural)]
pub enum ProtocolFlow {
    Continue,
    Close,
}

/// Cheap, cloneable handle to one protocol-defined channel.
pub trait Channel: Clone {
    /// Whether the channel is still open (neither side closed it).
    fn is_open(&self) -> bool;

    /// Closes the channel; closing twice is harmless.
    fn close(&self);
}

/// A protocol-defined logical stream.
pub trait Stream {
    /// The stream identifier.
    fn id(&self) -> u32;
}

/// Protocols without streams use the unit stream, numbered 0.
impl Stream for () {
    fn id(&self) -> u32
        returns
            0u32,
    {
        0
    }
}

/// A protocol-defined connection.
pub trait Transport {
    /// The connection identifier.
    fn id(&self) -> i128;
}

/// Protocols without connection state use the unit transport, numbered 0.
impl Transport for () {
    fn id(&self) -> i128
        returns
            0i128,
    {
        0
    }
}

/// A protocol-defined error; `can_continue` says whether the channel
/// survives it (by default it does not).
pub trait ProtocolError {
    /// Whether the connection can go on after this error.
    fn can_continue(&self) -> (r: bool)
        default_ensures
            !r,
    {
        false
    }
}

/// Errors that take the default `can_continue` (false).
pub trait DefaultProtocolError {}

/// The context that flows through request handlers, linking request,
/// response, error and channel types.
pub trait RequestContext: Default {
    type Request;

    type Response;

    type Error: ProtocolError;

    type Channel: Channel;

    /// Handles a protocol error (bad request or bad response).
    fn handle_error(&mut self);

    /// The role of this context.
    fn role(&self) -> ProtocolRole;

    /// Installs a request into a freshly built context.
    fn inject_request(&mut self, request: Self::Request);

    /// Consumes the context and returns its response.
    fn into_response(self) -> Self::Response;
}

/// An error without payload, for contexts with nothing to report.
#[derive(Debug, Clone, Copy, PartialEq, Eq, Structural)]
pub struct EmptyError;

impl EmptyError {
    /// The message of the error: `empty error`.
    pub fn message(&self) -> (r: String)
        ensures
            r@ == "empty error"@,
    {
        "empty error".to_string()
    }
}

impl Default for EmptyError {
    fn default() -> (r: EmptyError)
        ensures
            r == EmptyError,
    {
        EmptyError
    }
}

impl DefaultProtocolError for EmptyError {}

impl ProtocolError for EmptyError {}

} // verus!
