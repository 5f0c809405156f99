//! The ZeroFi pool: tiered fees around oracle prices, computed in the pool
//! program's own software floating point.
pub mod float;
pub mod laws;
pub mod replay;
pub mod state;
pub mod tiers;

pub use self::replay::ZeroFiReplay;
