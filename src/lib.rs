//! Resolution of hostname lists against a device inventory, bulk tag
//! changes on the matched devices, and presence reports.
pub mod hostnames;
pub mod filter;
pub mod reconcile;
pub mod flow;
