//! Conversion of generic document values into the tagged wire values of a
//! key-value store's item protocol, and the decisions of a service that
//! stores one person record and greets its caller.

pub mod value;
pub mod person;
pub mod service;
