//! Account authentication core: field validation with aggregated reporting,
//! signed session tokens, and the decisions of the login, registration and
//! identity flows.

pub mod account;
pub mod error;
pub mod hex;
pub mod report;
pub mod rules;
pub mod text;
pub mod token;
pub mod user;
