//! Core of a collaborative code-development backend: an operational-
//! transformation (OT) kernel for concurrent text editing, an in-memory
//! session manager with broadcast fan-out, and a hierarchical role-based
//! permission resolver over team/project hierarchies.

pub mod agents;
pub mod analysis;
pub mod convergence;
pub mod crypto;
pub mod error;
pub mod gate;
pub mod hierarchy;
pub mod models;
pub mod ops;
pub mod ot;
pub mod rbac;
pub mod resolver;
pub mod session;
pub mod slug;
pub mod strorder;
pub mod validation;
mod system;
