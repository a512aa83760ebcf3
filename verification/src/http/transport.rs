//! Connection-level state of one HTTP/1.1 connection: its identifier, the
//! keep-alive decision, the socket addresses and the request count.

use vstd::prelude::*;

use super::{is_keep_alive, keeps_alive};
use crate::protocol::ProtocolRole;
use crate::sql::transport::unix_nanos;

verus! {

/// Whether a parsed request is the empty request that a failed parse
/// leaves (no path and no header), which ends the serving loop of a
/// connection.
pub fn is_empty_request(path: &str, header_count: usize) -> (r: bool)
    ensures
        r == (path@.len() == 0 && header_count == 0),
{
    path.is_empty() && header_count == 0
}

/// The state of one HTTP/1.1 connection, over an address type `A`.
///
/// An address that is not known yet is `None`.
#[derive(Debug, Clone)]
pub struct HttpTransport<A> {
    /// The connection identifier.
    pub id: i128,
    /// Whether the connection stays open after the current exchange.
    pub keep_alive: bool,
    /// The local address of the connection.
    pub local_addr: Option<A>,
    /// The remote address of the connection.
    pub remote_addr: Option<A>,
    /// The number of requests handled on the connection.
    pub request_count: u64,
    /// The side of the connection this transport serves.
    pub role: ProtocolRole,
}

impl<A> HttpTransport<A> {
    /// A fresh connection between `local_addr` and `remote_addr`: kept
    /// alive, no request handled yet, identified by the current system time
    /// in nanoseconds (0 when the clock reads before the Unix epoch).
    pub fn new(role: ProtocolRole, local_addr: A, remote_addr: A) -> (r: HttpTransport<A>)
        ensures
            r.keep_alive,
            r.request_count == 0,
            r.role == role,
            r.local_addr == Some(local_addr),
            r.remote_addr == Some(remote_addr),
    {
        let id = match unix_nanos() {
            Some(n) => n,
            None => 0,
        };
        HttpTransport {
            id,
            keep_alive: true,
            local_addr: Some(local_addr),
            remote_addr: Some(remote_addr),
            request_count: 0,
            role,
        }
    }

    /// A fresh connection whose addresses are not known yet; they are set
    /// later with [`HttpTransport::set_addresses`].
    pub fn new_unbound(role: ProtocolRole) -> (r: HttpTransport<A>)
        ensures
            r.keep_alive,
            r.request_count == 0,
            r.role == role,
            r.local_addr is None,
            r.remote_addr is None,
    {
        let id = match unix_nanos() {
            Some(n) => n,
            None => 0,
        };
        HttpTransport { id, keep_alive: true, local_addr: None, remote_addr: None, request_count: 0, role }
    }

    /// The connection identifier.
    pub fn id(&self) -> (r: i128)
        ensures
            r == self.id,
    {
        self.id
    }

    /// Sets each address that is given; an address given as `None` keeps
    /// its value.
    pub fn set_addresses(&mut self, local: Option<A>, remote: Option<A>)
        ensures
            final(self).local_addr == (match local {
                Some(a) => Some(a),
                None => old(self).local_addr,
            }),
            final(self).remote_addr == (match remote {
                Some(a) => Some(a),
                None => old(self).remote_addr,
            }),
            final(self).keep_alive == old(self).keep_alive,
            final(self).request_count == old(self).request_count,
            final(self).role == old(self).role,
            final(self).id == old(self).id,
    {
        match local {
            Some(a) => {
                self.local_addr = Some(a);
            },
            None => {},
        }
        match remote {
            Some(a) => {
                self.remote_addr = Some(a);
            },
            None => {},
        }
    }

    /// Counts one more request on the connection.
    pub fn increment_requests(&mut self)
        requires
            old(self).request_count < u64::MAX,
        ensures
            final(self).request_count == old(self).request_count + 1,
            final(self).keep_alive == old(self).keep_alive,
            final(self).local_addr == old(self).local_addr,
            final(self).remote_addr == old(self).remote_addr,
            final(self).role == old(self).role,
            final(self).id == old(self).id,
    {
        self.request_count = self.request_count + 1;
    }

    /// Whether the connection stays open.
    pub fn should_keep_alive(&self) -> (r: bool)
        ensures
            r == self.keep_alive,
    {
        self.keep_alive
    }

    /// Decides keep-alive from the `Connection` header of the latest
    /// request, as [`is_keep_alive`] does.
    pub fn update_keep_alive(&mut self, connection: Option<&str>)
        ensures
            final(self).keep_alive == keeps_alive(connection),
            final(self).request_count == old(self).request_count,
            final(self).local_addr == old(self).local_addr,
            final(self).remote_addr == old(self).remote_addr,
            final(self).role == old(self).role,
            final(self).id == old(self).id,
    {
        self.keep_alive = is_keep_alive(connection);
    }
}

} // verus!
