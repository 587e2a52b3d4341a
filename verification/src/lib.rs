//! Server side of DBSC (Device Bound Session Credentials).
//!
//! The core of the protocol, independent of any web framework: structured-field
//! headers, session instructions, proof-JWT verification (ES256 / RS256 / none),
//! session storage, and a high-level [`Manager`] for the registration, refresh,
//! and close flows. Mapping a [`ManagerResponse`] onto an HTTP response is left to
//! the caller.

pub mod calls;
pub mod error;
pub mod header;
pub mod instruction;
pub mod json;
pub mod jwt;
pub mod manager;
pub mod protocol;
pub mod render;
pub mod session;
pub mod store;
pub mod text;

pub use error::{Error, Result};
pub use instruction::{ScopeRule, SessionCredential, SessionInstruction, SessionScope};
pub use jwt::ProofJwt;
pub use manager::{generate_challenge, Manager, ManagerConfig, ManagerResponse};
pub use session::{Session, SessionState};
pub use store::{MemoryStore, SessionStore};
