//! The protocol layer of a minimal HTTP/1.1 server, verified end to
//! end: parsing raw request bytes into a structured request, routing by
//! method and path to a handling decision, and serializing a structured
//! response into its exact wire bytes.
//!
//! The byte store behind the file routes and the TCP transport are
//! external collaborators: the router answers with a finished response
//! or asks for one read or write, and a thin unverified shell performs
//! it and hands the outcome back.
pub mod bytes;
pub mod headers;
pub mod request;
pub mod response;
pub mod router;
pub mod tokens;
