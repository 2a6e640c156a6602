//! The durable-store client handle.
//!
//! The durable backing store is an external collaborator: query execution,
//! pooling and transactions are a thin pass-through over an external driver
//! and live outside this crate. What the crate keeps is the handle's own
//! data: the connection string a client is bound to.

use vstd::prelude::*;

verus! {

/// A handle for the durable backing store, bound to a connection string.
pub struct SQLClient {
    connection: String,
}

impl SQLClient {
    /// The connection string the client was created with.
    pub closed spec fn connection_view(self) -> Seq<char> {
        self.connection@
    }

    /// Creates an unconnected client bound to the connection string.
    pub fn new(connection: &str) -> (r: Self)
        ensures
            r.connection_view() == connection@,
    {
        SQLClient { connection: connection.to_owned() }
    }

    /// Hands the connection string out, for the layer that opens the
    /// actual connection.
    pub fn connection_string(&self) -> (r: String)
        ensures
            r@ == self.connection_view(),
    {
        self.connection.clone()
    }
}

} // verus!
