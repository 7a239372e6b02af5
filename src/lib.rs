//! A small client library for a local text-generation server: it builds the
//! HTTP requests, reads the configuration text, and reduces a raw HTTP
//! response into the text a user should see.

pub mod config;
pub mod json;
pub mod models;
pub mod text;
pub mod reducer;
pub mod request;
