//! The library's error type.

use vstd::prelude::*;

verus! {

/// What can go wrong in discovery, the wire protocol and configuration.
#[derive(Debug, Clone, PartialEq, Eq)]
pub enum Error {
    /// An mDNS error.
    Mdns(String),
    /// A network error.
    Network(String),
    /// A DNS error.
    Dns(String),
    /// Registering the service failed.
    RegistrationFailed(String),
    /// Discovering services failed.
    DiscoveryFailed(String),
    /// The configuration is not valid.
    InvalidConfig(String),
    /// The operation timed out.
    Timeout,
    /// The operation was cancelled.
    Cancelled,
    /// Serialising or deserialising failed.
    Serialization(String),
    /// Any other error.
    Other(String),
}

/// The result of the library's fallible operations.
pub type Result<T> = std::result::Result<T, Error>;

/// The words that the error's description starts with.
pub open spec fn error_prefix(e: Error) -> Seq<char> {
    match e {
        Error::Mdns(_) => "mDNS error: "@,
        Error::Network(_) => "network error: "@,
        Error::Dns(_) => "DNS error: "@,
        Error::RegistrationFailed(_) => "service registration failed: "@,
        Error::DiscoveryFailed(_) => "service discovery failed: "@,
        Error::InvalidConfig(_) => "invalid configuration: "@,
        Error::Timeout => "operation timed out"@,
        Error::Cancelled => "operation cancelled"@,
        Error::Serialization(_) => "serialization error: "@,
        Error::Other(_) => "unknown error: "@,
    }
}

/// The detail that follows the prefix, empty for the errors that carry none.
pub open spec fn error_detail(e: Error) -> Seq<char> {
    match e {
        Error::Mdns(s) | Error::Network(s) | Error::Dns(s) | Error::RegistrationFailed(s)
        | Error::DiscoveryFailed(s) | Error::InvalidConfig(s) | Error::Serialization(s)
        | Error::Other(s) => s@,
        Error::Timeout | Error::Cancelled => Seq::empty(),
    }
}

impl Error {
    /// The human-readable description of the error.
    pub fn message(&self) -> (r: String)
        ensures
            r@ == error_prefix(*self) + error_detail(*self),
    {
        let (prefix, detail): (&str, &str) = match self {
            Error::Mdns(s) => ("mDNS error: ", s.as_str()),
            Error::Network(s) => ("network error: ", s.as_str()),
            Error::Dns(s) => ("DNS error: ", s.as_str()),
            Error::RegistrationFailed(s) => ("service registration failed: ", s.as_str()),
            Error::DiscoveryFailed(s) => ("service discovery failed: ", s.as_str()),
            Error::InvalidConfig(s) => ("invalid configuration: ", s.as_str()),
            Error::Timeout => ("operation timed out", ""),
            Error::Cancelled => ("operation cancelled", ""),
            Error::Serialization(s) => ("serialization error: ", s.as_str()),
            Error::Other(s) => ("unknown error: ", s.as_str()),
        };
        proof {
            reveal_strlit("");
        }
        let mut r = prefix.to_string();
        r.append(detail);
        r
    }
}

} // verus!
