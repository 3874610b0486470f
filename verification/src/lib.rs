//! Verified core of a gravitational n-body simulator: the bounded trail
//! buffer, the bookkeeping around the simulated bodies, and the decisions
//! taken on user actions.

pub mod ringarray;
pub mod universe;
pub mod sim_state;
pub mod widget;
pub mod actions;
pub mod input;
