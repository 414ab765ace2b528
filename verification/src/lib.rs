//! Authorization and role-lifecycle core of a multi-tenant dashboard.
//!
//! The crate decides what an authenticated principal may do, keeps role
//! definitions and the bindings of users to roles, and drives the exchange
//! of an invitation credential for a session bound to one merchant.
//! Every function carries a contract, and every contract is proved.

pub mod catalog;
pub mod engine;
pub mod error;
pub mod laws;
pub mod model;
pub mod names;
pub mod routes;
pub mod rules;
pub mod scope;
