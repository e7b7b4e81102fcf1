//! The schema of the requests that clients make, in the form in which two
//! versions of it are compared.

pub mod api;
pub mod method;
pub mod model;
pub mod parse;
pub mod value;
