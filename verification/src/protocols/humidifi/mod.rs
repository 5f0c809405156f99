//! The Humidifi pool: an oracle price, widened by the pool's imbalance and the
//! size of the trade.
pub mod imbalance;
pub mod params;
pub mod quote;
pub mod replay;

pub use self::replay::HumidifiReplay;
