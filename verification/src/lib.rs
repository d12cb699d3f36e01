//! Embedded per-node runtime for a DAG-structured data processing pipeline.
//!
//! Each pipeline stage runs one instance of this runtime. The library holds
//! the verified core: the record claim protocol over the shared repository,
//! the node state controller and its data command loop, the state sync
//! decision logic, the streaming fan-out registry with bounded backpressure,
//! and the process-wide shutdown signal.

pub mod client;
pub mod controller;
pub mod errors;
pub mod fanout;
pub mod models;
pub mod record;
pub mod repo;
pub mod strutil;
pub mod supervisor;
pub mod sync;

pub use errors::ControlError;
pub use errors::RepoError;
pub use errors::SyncError;
pub use client::DeleteObjectError;
pub use client::GetFilesError;
pub use client::GetObjectError;
pub use client::HeadObjectError;
pub use client::JobCallOutcome;
pub use client::UploadObjectError;
pub use client::classify_job_get;
pub use client::classify_job_mutation;
pub use client::object_files_request_path;
pub use client::object_request_path;
pub use client::response_is_success;
pub use client::urlencode;
pub use models::ChangePair;
pub use models::MergeRequest;
pub use models::MergeRequestFullState;
pub use models::MergeRequestList;
pub use models::Pagination;
pub use models::UpdateWip;
pub use models::UserRegisterInfo;
pub use supervisor::ShutdownSignal;
pub use controller::ControlCommand;
pub use controller::Controller;
pub use controller::NodeType;
pub use controller::ProgramState;
pub use controller::StartRequest;
pub use controller::WorkItem;
pub use controller::node_type_from_code;
pub use fanout::DataBatch;
pub use fanout::FanOut;
pub use fanout::RecvOutcome;
pub use fanout::Subscriber;
pub use record::Direction;
pub use record::DataState;
pub use repo::DataRecord;
pub use repo::Graph;
pub use repo::MemRepo;
pub use repo::MongoConfig;
pub use repo::Node;
pub use strutil::str_eq;
pub use strutil::str_vec_contains;
pub use sync::needs_reapply;
pub use sync::sync_once;
pub use strutil::str_vecs_eq;
