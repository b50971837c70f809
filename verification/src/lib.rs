//! Verified core of a local network scanner.

pub mod address;
pub mod arp;
pub mod capture;
pub mod device;
pub mod discover;
pub mod event;
pub mod export;
pub mod link;
pub mod mac;
pub mod network;
pub mod ordered;
pub mod panel;
pub mod ports;
pub mod scan;
pub mod session;
pub mod shell;
pub mod table;
pub mod text;
pub mod vendor;
