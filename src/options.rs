//! Per-connection configuration.

use vstd::prelude::*;

use vstd::string::StringSliceAdditionalSpecFns;

use crate::ascii::slice_range;

verus! {

/// The duration of a whole number of seconds.
pub uninterp spec fn seconds(secs: u64) -> core::time::Duration;

/// Relies on `Duration::from_secs`, a duration of whole seconds.
pub assume_specification[ core::time::Duration::from_secs ](secs: u64) -> (r: core::time::Duration)
    ensures
        r == seconds(secs),
;

/// The configuration of one connection.
#[derive(Debug, Clone)]
pub struct ServerOptions {
    headers_timeout: Option<core::time::Duration>,
    default_host: Option<Vec<u8>>,
}

impl ServerOptions {
    pub closed spec fn spec_headers_timeout(&self) -> Option<core::time::Duration> {
        self.headers_timeout
    }

    /// The default host as bytes, where one is configured.
    pub closed spec fn spec_default_host(&self) -> Option<Seq<u8>> {
        match self.default_host {
            Some(h) => Some(h@),
            None => None,
        }
    }

    /// Options with a headers timeout of sixty seconds and no default
    /// host: an HTTP/1.1-only server.
    pub fn new() -> (r: ServerOptions)
        ensures
            r.spec_headers_timeout() == Some(seconds(60)),
            r.spec_default_host() is None,
    {
        ServerOptions { headers_timeout: Some(core::time::Duration::from_secs(60)), default_host: None }
    }

    /// Sets the time by which a request head must have been received.
    pub fn with_headers_timeout(self, headers_timeout: core::time::Duration) -> (r: ServerOptions)
        ensures
            r.spec_headers_timeout() == Some(headers_timeout),
            r.spec_default_host() == self.spec_default_host(),
    {
        ServerOptions { headers_timeout: Some(headers_timeout), default_host: self.default_host }
    }

    /// Sets the host that stands in for a missing `Host` header, which
    /// also lets HTTP/1.0 requests through.
    pub fn with_default_host(self, default_host: &str) -> (r: ServerOptions)
        ensures
            r.spec_default_host() == Some(default_host.spec_bytes()),
            r.spec_headers_timeout() == self.spec_headers_timeout(),
    {
        let b = default_host.as_bytes();
        let h = slice_range(b, 0, b.len());
        assert(b@.subrange(0, b@.len() as int) =~= b@);
        ServerOptions { headers_timeout: self.headers_timeout, default_host: Some(h) }
    }

    /// The time by which a request head must have been received, if any.
    pub fn headers_timeout(&self) -> (r: Option<core::time::Duration>)
        ensures
            r == self.spec_headers_timeout(),
    {
        self.headers_timeout
    }

    /// The configured default host, if any.
    pub fn default_host(&self) -> (r: Option<&[u8]>)
        ensures
            r is Some <==> self.spec_default_host() is Some,
            r matches Some(h) ==> self.spec_default_host() == Some(h@),
    {
        match &self.default_host {
            Some(h) => Some(h.as_slice()),
            None => None,
        }
    }
}

impl Default for ServerOptions {
    fn default() -> (r: ServerOptions)
        ensures
            r.spec_headers_timeout() == Some(seconds(60)),
            r.spec_default_host() is None,
    {
        ServerOptions::new()
    }
}

} // verus!
