//! Network host monitoring core: an append-only event and session store,
//! a monitor that classifies probe results and reconciles crashed runs,
//! and a timeline builder that summarises host availability into buckets.

pub mod client;
pub mod decimal;
pub mod history;
pub mod monitor;
pub mod parse;
pub mod render;
pub mod store;
pub mod timeline;
pub mod types;

pub use store::Database;

pub use types::EventType;
pub use types::HostConfig;
pub use types::HostEvent;
pub use types::HostStatus;
pub use types::HostTimeline;
pub use types::PingRecord;
pub use types::PingResult;
pub use types::ServerSession;
pub use types::ShutdownType;
pub use types::Status;
pub use types::TimelineBucketState;
