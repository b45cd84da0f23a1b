pub mod connection;
pub mod dispatch;
pub mod methods;
pub mod pending;
pub mod router;
pub mod session;

pub use pending::{PendingForward, PendingRequests};
pub use router::{JsonRpcError, JsonRpcMessage, JsonRpcRequest, JsonRpcResponse, MethodContext};
pub use session::{HeartbeatState, Session, SessionId, SessionManager, SessionState, TransportMetadata};
