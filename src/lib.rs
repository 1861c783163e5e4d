//! Log-driven intrusion prevention: pattern-based address extraction, sliding-window
//! match counting, ban and unban decisions, packet-filter command planning and the
//! periodic expiry of stale records.

pub mod text;
pub mod duration;
pub mod addr;
pub mod pattern;
pub mod config;
pub mod config_set;
pub mod ledger;
pub mod engine;
pub mod firewall;
pub mod events;
pub mod store;
pub mod cleaner;
pub mod supervisor;
