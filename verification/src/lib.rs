//! Decision logic of a metrics relay: messages arrive on a local pipe, wait in
//! an ordered on-disk queue, and leave in batches over HTTP.
//!
//! The tasks are state machines that ask their caller for one action at a time.
//! [`intake`] shows what ingestion promises of a store, [`relay`], [`delivery`],
//! [`ordering`] and [`drain`] what the tasks promise together.

pub mod audit;
pub mod bytes;
pub mod clock;
pub mod config;
pub mod delivery;
pub mod disk_guard;
pub mod drain;
pub mod egress;
pub mod ingest;
pub mod intake;
pub mod ordering;
pub mod record;
pub mod relay;
pub mod startup;
pub mod text;
