//! This crate provides an extended version of [Cuckoo filter], supporting TTL, LRU and custom
//! counters associated with stored data.
//!
//! All the limitations of original Cuckoo filter still hold, meaning that all additional data is
//! associated with the fingerprint, which may represent a completely different item. For that
//! reason, it is recommended to only use associated data to manage the lifetime of the items,
//! unless false positives are not problematic in your use-case.
//!
//! This implementation can be used as a regular Cuckoo filter, without the added features too.
//!
//! What every function does is stated in its contract. What the functions do together is stated in
//! [`laws`], [`key_laws`] and [`export_laws`]. What they do to the numbers in the slots of a filter is
//! stated in [`number_laws`], [`effect_laws`], [`kick_laws`] and [`key_effect_laws`], and what these
//! numbers are in bytes in [`format_laws`].
//!
//! [Cuckoo filter]: https://www.cs.cmu.edu/~binfan/papers/conext14_cuckoofilter.pdf
pub mod numbers;

pub mod associated_data;
pub mod bits;
pub mod bucket;
pub mod bytes;
pub mod config;
pub mod data_block;
pub mod effect_laws;
pub mod error;
pub mod export_laws;
pub mod exporter;
pub mod filter;
pub mod format_laws;
pub mod fuzz;
pub mod hashing;
pub mod key_effect_laws;
pub mod key_laws;
pub mod kick_laws;
pub mod laws;
pub mod number_laws;
pub mod placement;
mod random;
pub mod slot;

pub use associated_data::AssociatedData;
pub use bucket::{InsertValues, LookupValues};
pub use data_block::Fingerprint;
pub use exporter::{
    CuckooFilterExporter, ExportError, ExportableBuildHasher, ExportableRandomState, ImportError,
};
pub use filter::CuckooFilter;
