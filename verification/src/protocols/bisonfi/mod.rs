//! The BisonFi pool: tiered prices around a fixed-point rate, with fees that
//! grow with staleness.
pub mod fees;
pub mod replay;
pub mod state;
pub mod tiers;
pub mod tiers_v3;

pub use self::replay::BisonFiReplay;
