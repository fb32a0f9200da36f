//! Configuration entry for a rendezvous-assist server handed to the
//! transport capability.

use vstd::prelude::*;

verus! {

/// One rendezvous-assist server: its URL and optional credentials.
#[derive(Debug, Clone)]
pub struct IceServer {
    pub urls: String,
    pub credential: Option<String>,
    pub credential_type: Option<String>,
    pub username: Option<String>,
}

impl From<&str> for IceServer {
    /// Builds a credential-free entry for the given URL.
    fn from(url: &str) -> (r: IceServer)
        ensures
            r.urls@ == url@,
            r.credential is None,
            r.credential_type is None,
            r.username is None,
    {
        IceServer {
            urls: url.to_owned(),
            credential: None,
            credential_type: None,
            username: None,
        }
    }
}

// `from` allocates a fresh `String`, which no specification-level value
// can name exactly, so the conversion's contract lives on `from` itself
// and the trait-level specification function is left unused.
impl vstd::std_specs::convert::FromSpecImpl<&str> for IceServer {
    open spec fn obeys_from_spec() -> bool {
        false
    }

    open spec fn from_spec(url: &str) -> IceServer {
        arbitrary()
    }
}

} // verus!
