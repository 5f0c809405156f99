//! Concentrated-liquidity arithmetic shared by the Orca and Raydium models.
pub mod fees;
pub mod price;
pub mod swap;
pub mod tick_law;
pub mod tick_price;
pub mod ticks;
pub mod u256;

pub use self::u256::U256;
