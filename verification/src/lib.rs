//! Replays recorded on-chain pool state through the pricing models of the
//! pools' swap programs, and keeps the recordings that feed such a replay.
pub mod bytes;
pub mod codec;
pub mod engine;
pub mod num;
pub mod order;
pub mod protocols;
pub mod reader;
pub mod recorder;
pub mod route;
pub mod session;
pub mod text;
pub mod wide;
pub mod writer;
