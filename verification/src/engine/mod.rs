//! Engine foundations.

pub mod error;
pub mod json;
pub mod json_access_laws;
pub mod json_laws;
pub mod json_read_laws;
pub mod json_token_laws;
pub mod number;
pub mod pod;
pub mod pod_laws;
pub mod single;
