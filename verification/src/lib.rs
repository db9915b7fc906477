//! A Raft consensus node framework: a correctness-oriented node
//! orchestration and membership layer around a deterministic consensus
//! core, with durable log/snapshot storage, peer membership management,
//! a tick/step driver, and a typed response-routing layer.

pub mod error;
pub mod peers;
pub mod storage;
pub mod config;
pub mod state_machine;
pub mod message;
pub mod node;
pub mod cluster;
pub mod response_message;

pub use config::build_config;
pub use response_message::ConfChangeResponseResult;
pub use response_message::LocalResponseMsg;
pub use response_message::ResponseMessage;
pub use response_message::ResponseResult;
pub use response_message::ServerResponseMsg;
