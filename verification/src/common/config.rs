//! Discovery and service-registration settings.

use vstd::prelude::*;
use crate::common::txt::{TxtRecord, txt_insert};

verus! {

/// How to browse for services.
#[derive(Debug, Clone)]
pub struct DiscoveryConfig {
    pub service_type: String,
    pub domain: String,
    /// Send queries, rather than only listen.
    pub active_browse: bool,
    pub timeout_secs: Option<u64>,
    pub enable_ipv6: bool,
}

impl Default for DiscoveryConfig {
    fn default() -> (r: DiscoveryConfig)
        ensures
            r.service_type@ == crate::DEFAULT_SERVICE_TYPE@,
            r.domain@ == "local"@,
            r.active_browse,
            r.timeout_secs is None,
            r.enable_ipv6,
    {
        DiscoveryConfig {
            service_type: crate::DEFAULT_SERVICE_TYPE.to_owned(),
            domain: "local".to_owned(),
            active_browse: true,
            timeout_secs: None,
            enable_ipv6: true,
        }
    }
}

/// How to announce a service.
#[derive(Debug, Clone)]
pub struct ServiceConfig {
    pub service_name: String,
    pub service_type: String,
    pub port: u16,
    pub txt_records: TxtRecord,
    pub domain: String,
    pub hostname: Option<String>,
    /// The lifetime of the announced records, in seconds.
    pub ttl: u32,
}

impl Default for ServiceConfig {
    fn default() -> (r: ServiceConfig)
        ensures
            r.service_name@ == "SharSelf Device"@,
            r.service_type@ == crate::DEFAULT_SERVICE_TYPE@,
            r.port == 8080,
            r.txt_records@.len() == 0,
            r.domain@ == "local"@,
            r.hostname is None,
            r.ttl == 120,
    {
        ServiceConfig {
            service_name: "SharSelf Device".to_owned(),
            service_type: crate::DEFAULT_SERVICE_TYPE.to_owned(),
            port: 8080,
            txt_records: TxtRecord::new(),
            domain: "local".to_owned(),
            hostname: None,
            ttl: 120,
        }
    }
}

impl ServiceConfig {
    /// The default settings with this name and port.
    pub fn new(service_name: String, port: u16) -> (r: ServiceConfig)
        ensures
            r.service_name@ == service_name@,
            r.port == port,
            r.service_type@ == crate::DEFAULT_SERVICE_TYPE@,
            r.txt_records@.len() == 0,
            r.domain@ == "local"@,
            r.hostname is None,
            r.ttl == 120,
    {
        let d = ServiceConfig::default();
        ServiceConfig { service_name, port, ..d }
    }

    /// These settings with `value` stored under `key` in the TXT records.
    pub fn with_txt_record(self, key: String, value: String) -> (r: ServiceConfig)
        ensures
            r.txt_records@ == txt_insert(self.txt_records@, key@, value@),
            r.service_name@ == self.service_name@,
            r.service_type@ == self.service_type@,
            r.port == self.port,
            r.domain@ == self.domain@,
            r.hostname == self.hostname,
            r.ttl == self.ttl,
    {
        let mut c = self;
        c.txt_records.insert(key, value);
        c
    }

    /// These settings with this host name.
    pub fn with_hostname(self, hostname: String) -> (r: ServiceConfig)
        ensures
            r.hostname == Some(hostname),
            r.txt_records@ == self.txt_records@,
            r.service_name@ == self.service_name@,
            r.service_type@ == self.service_type@,
            r.port == self.port,
            r.domain@ == self.domain@,
            r.ttl == self.ttl,
    {
        let mut c = self;
        c.hostname = Some(hostname);
        c
    }

    /// These settings with this record lifetime.
    pub fn with_ttl(self, ttl: u32) -> (r: ServiceConfig)
        ensures
            r.ttl == ttl,
            r.hostname == self.hostname,
            r.txt_records@ == self.txt_records@,
            r.service_name@ == self.service_name@,
            r.service_type@ == self.service_type@,
            r.port == self.port,
            r.domain@ == self.domain@,
    {
        let mut c = self;
        c.ttl = ttl;
        c
    }
}

} // verus!
