//! Development web server core for serving a generated WebAssembly bundle:
//! route dispatch and content negotiation, snippet resolution, the log
//! bridge protocol, the certificate cache state machine, and free-port
//! selection.

pub mod bundle;
pub mod certificate;
pub mod logbridge;
pub mod portpick;
pub mod server;
pub mod snippets;
pub mod strutil;
