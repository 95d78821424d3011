//! Verified core of the router appliance: configuration sync, the vty wire
//! protocol, and the console dashboard.

pub mod text;
pub mod redact;
pub mod outside;
pub mod vty;
pub mod double;
pub mod process;
pub mod net;
pub mod system;
pub mod systemd;
pub mod frr;
pub mod snapshot;
pub mod order;
pub mod logger;
pub mod source;
pub mod validation;
pub mod frr_sync;
pub mod network_sync;
pub mod plain;
pub mod state;
pub mod scene;
pub mod panels;
pub mod ui;
pub mod daemon;
