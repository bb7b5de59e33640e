//! Transfer client core for S3-compatible object storage.
//!
//! The crate holds the decisions of a chunked, concurrent upload and leaves
//! the file reads and the remote calls to its caller:
//!
//! - `plan` chooses between one put and a multi-part session and gives the
//!   boundaries of the parts;
//! - `reader` cuts a file, read front to back, into those parts;
//! - `scheduler` hands the parts out to a bounded number of uploads and
//!   collects their receipts, counting the bytes in `progress`;
//! - `assembler` puts the receipts in order and builds the request that
//!   finalizes the session; `upload` decides how an upload ends;
//! - `url` builds the public URL of an object, `config` the configuration.

pub mod assembler;
pub mod config;
pub mod error;
pub mod plan;
pub mod progress;
pub mod reader;
pub mod scheduler;
pub mod session;
pub mod text;
pub mod upload;
pub mod url;

pub use crate::assembler::{assemble, FinalizeRequest};
pub use crate::config::OssConfig;
pub use crate::error::{ConfigField, TransferError};
pub use crate::plan::{plan, PlanMode, BATCH_SIZE, MAX_WORKERS};
pub use crate::progress::Progress;
pub use crate::reader::{PartReader, ReadRequest};
pub use crate::scheduler::UploadScheduler;
pub use crate::session::{CompletedPart, PartTask, UploadSession};
pub use crate::upload::{
    conclude, finish_upload, resolve_key, Conclusion, UploadFailure, UploadPolicy,
};
pub use crate::url::generate_url;
