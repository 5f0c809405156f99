//! The GoonFi pool: oracle prices with a spread that grows along a position,
//! corrected by the vault's distance from its reference.
pub mod curve;
pub mod quote;
pub mod replay;
pub mod state;

pub use self::replay::GoonFiReplay;
