//! Client side of a binary monitor protocol: framing of commands and
//! responses, the session state that responses update, and the engine that
//! ties them to a pair of byte queues.

pub mod command;
pub mod dispatch;
pub mod engine;
pub mod error;
pub mod protocol;
pub mod register;
pub mod response;
pub mod response_header;
pub mod session;
pub mod transport;

pub use command::Command;
pub use engine::FakeViceBin;
pub use error::EngineError;
pub use register::Register;
pub use response::Response;
pub use response_header::ResponseHeader;
pub use session::Session;
