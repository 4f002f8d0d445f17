//! A storage engine for qcow2 disk images: header and table-entry codecs, refcount lookup,
//! cluster allocation with copy-on-write of shared tables, guest-to-host address translation,
//! and the splitting of requests into per-cluster reads and writes. Alongside it, register
//! models of a PL011 UART and a PCF8574 I/O expander, and a builder for memory-region access
//! settings.

pub mod bytes;
pub mod entry;
pub mod error;
pub mod host;
pub mod interface;
pub mod memory;
pub mod pcf8574;
pub mod pl011;
pub mod qcow2;
