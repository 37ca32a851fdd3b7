//! Connection configuration for the backing store, and the errors the
//! connection layer can surface. Opening sessions and provisioning the
//! schema are runtime work; the scheduler core only carries the
//! configuration and maps the layer's failures into its own terms.

use vstd::prelude::*;

verus! {

/// Failures of the connection layer.
#[derive(Clone, Copy, PartialEq, Eq, Structural, Debug)]
pub enum ScyllaError {
    /// A new session could not be opened.
    SessionInitFailed,
    /// A schema statement was rejected by the store.
    SchemaFailedError,
}

/// Configuration for connecting to the backing store.
#[derive(Clone, Debug)]
pub struct ScyllaConnection {
    pub uri: String,
    pub user: String,
    pub password: String,
}

impl ScyllaConnection {
    /// The default connection target and credentials.
    pub fn new() -> (r: ScyllaConnection)
        ensures
            r.uri@ == "scylla:9042"@,
            r.user@ == "cassandra"@,
            r.password@ == "cassandra"@,
    {
        ScyllaConnection {
            uri: "scylla:9042".to_owned(),
            user: "cassandra".to_owned(),
            password: "cassandra".to_owned(),
        }
    }
}

} // verus!
