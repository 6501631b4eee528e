//! Resolving a found service instance into a full device record. Resolution
//! is not available yet: every request is answered with an error.

use vstd::prelude::*;
use crate::common::error::Error;
use crate::discovery::types::DeviceInfo;

verus! {

/// Resolves service instances into device records.
pub struct ServiceResolver {}

/// A service instance to resolve.
#[derive(Debug, Clone)]
pub struct ResolveTarget {
    pub instance_name: String,
    pub service_type: String,
    pub domain: String,
}

/// How to resolve.
#[derive(Debug, Clone, Copy)]
pub struct ResolveOptions {
    /// Whether IPv6 addresses are looked up too.
    pub include_ipv6: bool,
    /// How long to wait for answers, in milliseconds.
    pub timeout_ms: u64,
}

impl Default for ResolveOptions {
    fn default() -> (r: ResolveOptions)
        ensures
            r.include_ipv6,
            r.timeout_ms == 3000,
    {
        ResolveOptions { include_ipv6: true, timeout_ms: 3000 }
    }
}

/// The answer to every resolution request.
pub open spec fn not_resolved(r: Result<DeviceInfo, Error>) -> bool {
    r matches Err(Error::Other(m)) && m@ == "Resolver not implemented yet"@
}

impl ServiceResolver {
    pub fn new() -> (r: ServiceResolver) {
        ServiceResolver {}
    }

    /// Resolves one instance: resolution is not available, so the answer is
    /// always an error.
    pub fn resolve(&self, instance_name: &str, service_type: &str, domain: &str) -> (r: Result<DeviceInfo, Error>)
        ensures
            not_resolved(r),
    {
        Err(Error::Other("Resolver not implemented yet".to_string()))
    }

    /// Resolves each target in turn, one answer per target.
    pub fn resolve_batch(&self, instances: Vec<ResolveTarget>) -> (r: Vec<Result<DeviceInfo, Error>>)
        ensures
            r@.len() == instances@.len(),
            forall|k: int| 0 <= k < r@.len() ==> not_resolved(#[trigger] r@[k]),
    {
        let mut results: Vec<Result<DeviceInfo, Error>> = Vec::new();
        let mut i: usize = 0;
        while i < instances.len()
            invariant
                i <= instances@.len(),
                results@.len() == i,
                forall|k: int| 0 <= k < results@.len() ==> not_resolved(#[trigger] results@[k]),
            decreases instances.len() - i,
        {
            let t = &instances[i];
            let r = self.resolve(t.instance_name.as_str(), t.service_type.as_str(), t.domain.as_str());
            results.push(r);
            i = i + 1;
        }
        results
    }
}

} // verus!
