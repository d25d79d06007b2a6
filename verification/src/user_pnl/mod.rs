//! The account PnL sidecar.
//!
//! It watches the PnL of a venue or account on a timer. On `max_loss` or `max_profit` it asks for
//! the trading state to be reducing, asks every other strategy to exit, waits until there are no
//! positions and no live orders, and then may have trading halted and those strategies stopped for
//! the rest of the UTC day.

pub mod checks;
pub mod config;
pub mod config_laws;
pub mod inputs;
pub mod kernel;
pub mod laws;
pub mod machine;
pub mod model;
pub mod number_laws;
pub mod promises;
pub mod soundness;
pub mod whole_checks;
