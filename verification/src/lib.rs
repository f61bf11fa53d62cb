//! Domain model, parsers and decision logic of a homelab device inventory: LAN discovery
//! results, SSH detection, service identification, login suggestions and terminal launching.
pub mod text;
pub mod arp;
pub mod cli;
pub mod crypto;
pub mod discovery;
pub mod error;
pub mod identify;
pub mod inventory;
pub mod model;
pub mod mdns;
pub mod net;
pub mod oui;
pub mod paths;
pub mod portscan;
pub mod ssh;
pub mod store;
pub mod terminals;
