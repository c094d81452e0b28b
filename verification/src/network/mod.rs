//! Messages between nodes and the rules by which nodes handle them.

pub mod framing;
pub mod message;
pub mod node;

pub use message::Message;
