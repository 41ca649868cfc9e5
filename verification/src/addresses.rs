pub mod bsc;
pub mod eth;
