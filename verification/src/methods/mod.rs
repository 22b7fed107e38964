//! What a host needs around the routing engine: graphs to fill, requests
//! to read, and the checks on an invoice.

pub mod bolt12;
pub mod graph;
pub mod pay;
pub mod route_info;
pub mod tt;
