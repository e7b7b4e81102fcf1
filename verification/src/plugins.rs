//! Requests to the services that plugins use.

pub mod service_routing;
