//! The role-resolution and permission engine of a collaborative workspace:
//! permission sets and their merge, the walk over a role's inheritance graph
//! with cycle detection, label-gated capability checks, the live fan-out
//! registry, and the session operations that tie them together.

pub mod account;
pub mod activity;
pub mod activity_table;
pub mod auth;
pub mod errors;
pub mod live;
pub mod lookup;
pub mod permissions;
pub mod resolver;
pub mod roles;
pub mod session;
pub mod store;
pub mod validator;
