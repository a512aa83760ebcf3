//! The SQL transport: an optional database pool handle and an identifier.

use vstd::prelude::*;

verus! {

/// Nanoseconds since the Unix epoch on the system clock
/// (`std::time::SystemTime::now().duration_since(UNIX_EPOCH)`), truncated
/// to 128 bits; `None` when the clock reads before the epoch. Nothing is
/// stated of the value: it is the time.
#[verifier::external_body]
pub(crate) fn unix_nanos() -> (r: Option<i128>) {
    match std::time::SystemTime::now().duration_since(std::time::UNIX_EPOCH) {
        Ok(d) => Some(d.as_nanos() as i128),
        Err(_) => None,
    }
}

/// A SQL connection: the pool handle it uses, if any, and its identifier.
#[derive(Debug, Clone)]
pub struct Transport<P> {
    pool: Option<P>,
    id: i128,
}

impl<P> Transport<P> {
    /// The pool handle.
    pub closed spec fn pool_view(self) -> Option<P> {
        self.pool
    }

    /// The identifier.
    pub closed spec fn id_view(self) -> i128 {
        self.id
    }

    /// A transport over `pool`, identified by the clock reading `reading`
    /// (nanoseconds since the Unix epoch), or by 0 when there is none (the
    /// clock read before the epoch).
    pub fn from_reading(pool: P, reading: Option<i128>) -> (r: Transport<P>)
        ensures
            r.pool_view() == Some(pool),
            r.id_view() == (match reading {
                Some(n) => n,
                None => 0,
            }),
    {
        let id = match reading {
            Some(n) => n,
            None => 0,
        };
        Transport { pool: Some(pool), id }
    }

    /// A transport over `pool`, identified by the current system time in
    /// nanoseconds (0 when the clock reads before the Unix epoch): the
    /// clock reading handed to [`Transport::from_reading`]. The reading
    /// itself is the time, so nothing is stated of the identifier.
    pub fn new(pool: P) -> (r: Transport<P>)
        ensures
            r.pool_view() == Some(pool),
    {
        Transport::from_reading(pool, unix_nanos())
    }

    /// A transport without pool, identified by 0.
    pub fn empty() -> (r: Transport<P>)
        ensures
            r.pool_view() is None,
            r.id_view() == 0,
    {
        Transport { pool: None, id: 0 }
    }

    /// Whether a pool handle is present.
    pub fn has_pool(&self) -> (r: bool)
        ensures
            r == (self.pool_view() is Some),
    {
        self.pool.is_some()
    }

    /// The identifier.
    pub fn id(&self) -> (r: i128)
        ensures
            r == self.id_view(),
    {
        self.id
    }
}

impl<P: Clone> Transport<P> {
    /// A copy of the pool handle.
    pub fn pool(&self) -> (r: Option<P>)
        ensures
            r is Some <==> self.pool_view() is Some,
            r matches Some(p) ==> cloned(self.pool_view()->0, p),
    {
        match &self.pool {
            Some(p) => Some(p.clone()),
            None => None,
        }
    }
}

impl<P> Default for Transport<P> {
    fn default() -> (r: Transport<P>)
        ensures
            r.pool_view() is None,
            r.id_view() == 0,
    {
        Transport::empty()
    }
}

impl<P> crate::protocol::Transport for Transport<P> {
    fn id(&self) -> (r: i128)
        ensures
            r == self.id_view(),
    {
        self.id
    }
}

} // verus!
