//! Issue raw HTTP/1.1 GET requests and profile their latency.
//!
//! The verified library holds the logic: the request target and the request
//! text, the choice of an address among resolved candidates, the response
//! parser, and the statistics of a profiling run. Sockets, name lookup and
//! argument handling live with the program that drives it.

pub mod response;
pub mod record;
pub mod stats;
pub mod target;
pub mod resolve;
pub mod plan;
