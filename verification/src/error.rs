//! The ways a lookup can fail.

use vstd::prelude::*;

verus! {

/// Why a request could not be built or a response could not be used.
#[derive(Debug, Clone, PartialEq, Eq)]
pub enum Error {
    /// A BSSID given by the caller is no MAC address. Holds the text as it was given.
    InvalidInput(String),
    /// A value is too long for the 16-bit length in front of it.
    EncodeError,
    /// The request could not be delivered, or the service answered without success.
    /// Holds the transport's account of it.
    TransportError(String),
    /// The response is cut short or is not what the service's format allows. Holds the
    /// detail.
    DecodeError(String),
    /// The service has no location for the BSSID. Holds the BSSID in canonical form.
    BssidNotFound(String),
}

} // verus!
