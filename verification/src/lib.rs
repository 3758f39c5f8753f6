//! Verified core of a low-latency remote desktop: configuration, certificate
//! fingerprints, frame and input conversion, and the session state machines.
pub mod capture;
pub mod cert;
pub mod config;
pub mod decode;
pub mod encode;
pub mod input;
pub mod pem_encoding;
pub mod session;
pub mod text;
