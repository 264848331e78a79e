//! Per-core connection tracking for a user-space TCP engine: compact
//! connection records with a bounded state history, bounded wraparound
//! slot stores, a handle capability layer, and a socket-to-slot index.

pub mod comm;
pub mod conrecord;
pub mod handle;
pub mod recstore;
pub mod sort;
pub mod system;
pub mod tcp_common;
pub mod utils;

pub use comm::PipelineId;
pub use conrecord::ConRecord;
pub use conrecord::HasConData;
pub use conrecord::HasTcpState;
pub use conrecord::TIME_STAMP_REDUCTION_FACTOR;
pub use handle::ConnectionHandle;
pub use recstore::RecordStore;
pub use recstore::SimpleStore;
pub use recstore::Storable;
pub use recstore::Store64;
pub use system::FlowSteeringMode;
pub use system::SystemData;
pub use tcp_common::ReleaseCause;
pub use tcp_common::TcpRole;
pub use tcp_common::TcpState;
pub use utils::Sock2Index;
pub use utils::SockIndexError;
pub use utils::TimeAdder;
pub use utils::shuffle_ports;
