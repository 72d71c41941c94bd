//! Compiles the self-description ("help") that a running client process
//! gives of its types and endpoints into an OpenAPI 3.0 document: a path
//! language to correct the raw data, the schema model, type and endpoint
//! resolution, and the tag pass.

pub mod catalog;
pub mod codec;
pub mod console;
pub mod document;
pub mod endpoint;
pub mod error;
pub mod help;
pub mod json;
pub mod mutate;
pub mod openapi;
pub mod order;
pub mod patch;
pub mod read;
pub mod resolve;
pub mod schema_json;
pub mod table;
pub mod tags;
pub mod text;
