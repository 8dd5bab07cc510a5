//! Correlates the start times of nanopore reads with the pore states that
//! periodic mux scans record, and filters read ids by channel parity.
//!
//! The matching engine keeps, per `(channel, pore)`, a timeline of
//! state-change events and walks it with a cursor against the reads in time
//! order: `get_last_read` keeps the latest read before each event of the
//! wanted state, `get_first_read` the earliest read after it.

pub mod filter;
pub mod matcher;
pub mod parse;
pub mod reads;
pub mod run;
pub mod scan;
pub mod store;
pub mod timeline;
pub mod types;

pub use filter::{filter_reads, FilterError};
pub use matcher::{get_first_read, get_last_read};
pub use reads::{gen_read_timestamps, RawRead, RecordError};
pub use run::{select_reads, RunError};
pub use scan::{gen_pore_mux_map, ScanError};
pub use store::PoreMuxMap;
pub use timeline::{MuxStat, PoreMuxStats};
pub use types::{FilterMode, PoreState, ReadMode, ReadTimestamp};
