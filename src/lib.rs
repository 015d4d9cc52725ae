//! Client-side decoding of a streamed text-generation response, and the
//! request payload that starts it.
pub mod decoder;
pub mod json;
pub mod laws;
pub mod request;
