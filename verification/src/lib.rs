//! Control plane of a multi-process reverse proxy: the supervisor's
//! authoritative configuration state, the command protocol it speaks with
//! its workers, and the pure decision logic for worker supervision,
//! response aggregation, restart backoff and live upgrade.

pub mod affinity;
pub mod codec;
pub mod diff;
pub mod net;
pub mod pool;
pub mod response;
pub mod server;
pub mod state;
pub mod table;
pub mod types;
pub mod upgrade;
