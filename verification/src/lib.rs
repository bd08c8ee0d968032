//! The computational core of a small greatest-common-divisor web service.
//!
//! The crate holds everything the service decides: how the values of the
//! form field `n` are read as numbers, how their greatest common divisor is
//! found, and which status and body each request is answered with. Reading
//! requests and writing responses is left to the program around it, which
//! hands in plain values and sends what comes back.

pub mod decimal;
pub mod euclid;
pub mod form;
pub mod numbers;
pub mod service;
pub mod validation;
