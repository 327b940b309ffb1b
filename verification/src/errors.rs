//! Error taxonomy of the client.
//!
//! The first three variants originate in the transport and are opaque to
//! the watch engine: any one of them ends a watch stream.  The last is
//! raised at construction time, before any network activity.

use vstd::prelude::*;

verus! {

/// An error surfaced by the client or by the listing watch.
#[derive(Debug, Clone, PartialEq)]
pub enum NFTFiError {
    /// The transport could not complete the network call.
    TransportFailure,
    /// The server answered with a non-2xx status code.
    ServerStatusFailure(u16),
    /// The response body did not match the expected JSON shape; carries
    /// the path to the offending field for diagnosability.
    DecodeFailure(String),
    /// A watch was configured with a non-positive refresh rate.
    InvalidConfiguration,
}

} // verus!
