//! Read path of an LSM storage engine: one immutable SSTable file, made
//! available as a validated, ordered sequence of entries.
//!
//! The library holds the file format, the iteration state and every decision
//! of the pull protocol. Reading the file and expanding its compressed body
//! are left to the caller, who hands the bytes in.

pub mod checksum;
pub mod codec;

pub mod header;
pub mod integrity;
pub mod iter;
pub mod laws;




pub use codec::{DataStore, KvStore};
pub use header::{DbError, Header, HEADER_SIZE, SSTABLE_MAGIC_NUMBER};
pub use integrity::{check_compressed, check_file, check_raw, IntegrityError};
pub use iter::{Pull, SSTableIter, ScanEnd, SSTABLE_ITER_BUF_SIZE};
