//! Parsing, computation and formatting for the Herdr activity monitor: the
//! memory figures from `sysctl` and `vm_stat` output, the battery state from
//! the power sources, the popup's detailed metrics, the footprint ranking of
//! processes, and the JSON-RPC requests that set the window title.

pub mod text;
pub mod parsers;
pub mod memory;
pub mod battery;
pub mod herdr;
pub mod processes;
pub mod metrics;
pub mod watch;
