//! Drivers and tools for the Native Instruments Audio Kontrol 1 on Windows: the
//! USB protocol, the streaming engine of the kernel driver, the ASIO driver on
//! top of it, and the logic of the control panel, the setup and the probes.

use vstd::prelude::*;

pub mod abi;
pub mod audio;
pub mod bytes;
pub mod circuit;
pub mod com;
pub mod driver;
pub mod duplex;
pub mod host;
pub mod mode2;
pub mod panel;
pub mod probe;
pub mod proto;
pub mod ring;
pub mod rt;
pub mod server;
pub mod settings;
pub mod setup;
pub mod signal;
pub mod status;
pub mod stream;
pub mod template;
pub mod text;
pub mod usb;

verus! {

} // verus!
