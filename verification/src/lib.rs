//! Typed lazy secret bindings.
//!
//! A [`schema::Schema`] names a secret and the fields it must hold. A
//! [`resolver::Binding`] resolves that schema at most once against a secret
//! store and keeps the outcome for the rest of its life.

pub mod bundle;
pub mod payload;
pub mod resolver;
pub mod schema;
