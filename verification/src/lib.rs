//! A verified core for a WSDL 1.1 / SOAP 1.1 client generator.
//!
//! The library parses WSDL and XML Schema documents (handed in as byte
//! buffers) into a typed intermediate model, resolves services, ports,
//! bindings and port types, plans the declarations of a generated client,
//! and frames SOAP envelopes for the runtime that the generated client
//! composes against.

pub mod codegen;
pub mod error;
pub mod event;
pub mod num;
pub mod parser;
pub mod resolve;
pub mod soap;
pub mod types;
pub mod xmlio;
