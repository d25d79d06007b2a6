//! Option chain snapshots, strike selection and an account PnL kill switch.

pub mod band_laws;
pub mod binary64;
pub mod calendar;
pub mod chain;
pub mod chain_laws;
pub mod decimal;
pub mod fixed;
pub mod greeks;
pub mod identifiers;
pub mod strategy_id;
pub mod strike_laws;
pub mod strike_range;
pub mod text;
pub mod text_laws;
pub mod user_pnl;
