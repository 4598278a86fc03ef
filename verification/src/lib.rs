//! A key-value host over an embedded, persistent [redb] database.
//!
//! All rows live in one redb table. A bucket is a namespace inside that table:
//! the row of `key` in `bucket` is filed under `{bucket}\0{key}`.
//!
//! [redb]: https://www.redb.org

pub mod context;
pub mod counter;
pub mod error;
pub mod handles;
pub mod host;
pub mod keys;
pub mod laws;
pub mod storage;

pub use context::{WasiKeyValueRedbCtx, WasiKeyValueRedbCtxBuilder};
pub use error::{BuilderError, Error};
pub use handles::Bucket;
pub use host::{KeyResponse, WasiKeyValueRedb};
