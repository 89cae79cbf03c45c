//! Decides which TCP ports of a host to probe next while a scan is running,
//! and collects the ports that answered.
//!
//! The crate holds no sockets. A caller owns the connection attempts: it asks
//! a [`scan::Scan`] what to do, starts or awaits a probe accordingly, and
//! reports each outcome back. The scan never lets more probes run at once than
//! its concurrency limit allows, probes every candidate, and names no open
//! port twice.

pub mod ports;
pub mod model;
pub mod scan;
pub mod laws;
