//! Migration runner core: filename parsing, discovery, ledger bookkeeping and
//! the run state machine, with machine-checked contracts.

pub mod config;
pub mod filename;
pub mod ledger;
pub mod lock;
pub mod machine;
pub mod machine_laws;
pub mod memory;
pub mod migrations;
pub mod reserved;
pub mod runner;
pub mod text;
pub mod yaml;
