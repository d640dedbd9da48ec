//! A typed access layer over a persistent, sorted, embedded key-value engine.
//!
//! Callers store heterogeneous, self-describing records under string keys
//! inside named buckets, retrieve single records, atomically apply multi-key
//! writes, and enumerate records filtered by glob patterns over the key and
//! the record's name.

pub mod codec;
pub mod config;
pub mod engine;
pub mod errors;
pub mod model;
pub mod ops;
pub mod record;

pub use config::StorageConfig;
pub use config::init;
pub use config::reset;
pub use engine::Bucket;
pub use engine::iter;
pub use errors::KvError;
pub use ops::filter_entries;
pub use ops::get;
pub use ops::get_all;
pub use ops::open_bucket;
pub use ops::open_store;
pub use ops::remove;
pub use ops::transaction;
pub use record::Filter;
pub use record::FilterView;
pub use record::KVRecord;
pub use record::KVRecordView;
pub use record::Record;
pub use record::RecordView;
pub use record::TypeView;
pub use record::Types;
