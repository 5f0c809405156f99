//! The SolFi V2 pool: a masked oracle price with fees that widen with the
//! trade's size, the oracle's age and the pool's imbalance.
pub mod float;
pub mod quote;
pub mod replay;
pub mod state;
pub mod tables;

pub use self::replay::SolFiV2Replay;
