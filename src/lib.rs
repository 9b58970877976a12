//! Keeps DNS records at a provider in step with the addresses of local
//! network interfaces: the reconciliation of local against remote records,
//! the selection of interface addresses, and the lifecycle of the periodic
//! sync tasks.
pub mod address;
pub mod cli;
pub mod convergence;
pub mod dns_name;
pub mod interfaces;
pub mod reconcile;
pub mod records;
pub mod shutdown;
pub mod supervisor;
pub mod tasks;
