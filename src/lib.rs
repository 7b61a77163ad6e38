//! An in-memory index of who holds which RBAC grants, kept up to date from
//! watch events and queried without going back to the cluster.

pub mod rules;
pub mod rbac_grant;
pub mod set_map;
pub mod grant_controller;
pub mod permission_controller;
pub mod reconciler;
pub mod structs;
pub mod output_types;
pub mod permissions;
pub mod laws;
