//! Verified core of a desktop switcher for coding agents: account snapshots,
//! provider settings, configuration backups and usage accounting.
//!
//! Everything here is a function of plain values. Reading files, running SQL
//! and serialising typed records is the business of the application around it.

pub mod accounts;
pub mod backup;
pub mod capture;
pub mod cindy;
pub mod cindy_assign;
pub mod cindy_laws;
pub mod cindy_ledger;
pub mod cindy_plan;
pub mod cindy_read;
pub mod cindy_settle;
pub mod cindy_sums;
pub mod cindy_sync;
pub mod cindy_totals;
pub mod clock;
pub mod dsh;
pub mod dsh_backup;
pub mod dsh_laws;
pub mod error;
pub mod harness;
pub mod hash;
pub mod insert;
pub mod insights;
pub mod json;
pub mod numbers;
pub mod paths;
pub mod registry;
pub mod restart;
pub mod restore;
pub mod restore_laws;
pub mod section_laws;
pub mod sections;
pub mod spool;
pub mod state_db;
pub mod summary;
pub mod switch;
pub mod switch_laws;
pub mod sync;
pub mod sync_laws;
pub mod text;
pub mod usage;
pub mod yaml;
