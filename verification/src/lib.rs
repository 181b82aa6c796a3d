//! A bridge between a microcontroller's interactive shell, reached over a
//! serial link, and a host file system view of the device's storage.
//!
//! The crate holds the decisions only: it never reads, writes or waits
//! itself, but says what the caller is to do next and takes what came of it.
//!
//! * [`repl`]: the raw-execution protocol of one device, as a state machine.
//! * [`dev_listener`]: the registry of attached devices and the rules of a
//!   discovery pass.
//! * [`replfs`]: the inode table built from the device's textual answers, and
//!   the file system operations answered from it.

pub mod dev_listener;
pub mod repl;
pub mod replfs;
