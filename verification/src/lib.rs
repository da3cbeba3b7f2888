//! Multicast DNS service discovery.
//!
//! The library decides what a discovery does and what it makes of the outcome; it makes no
//! system call itself. [`discover`] holds the discovery requests and the filter of responses
//! from a multicast socket, [`macos`] and [`browse`] the discovery through the DNS-SD API.
pub mod browse;
pub mod discover;
pub mod dnssd;
pub mod macos;
pub mod net;
pub mod poll;
pub mod response;
pub mod text;
