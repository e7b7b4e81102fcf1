//! How a session is authenticated.

pub mod bedrock_api_key;
pub mod external_provided;
