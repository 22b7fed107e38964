//! Plain data that the payment methods pass around.

pub mod offer;
