//! Finding devices on the local network: their records, address ranges to
//! scan, broadcast announcements and the table of devices seen.

pub mod broadcast;
pub mod browser;
pub mod manager;
pub mod registrar;
pub mod resolver;
pub mod scan;
pub mod service;
pub mod types;
