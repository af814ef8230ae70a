//! Verified core of a binding to librbd, the Ceph block-device library.
//!
//! The calls into librbd themselves live with the caller; this crate holds
//! everything those calls are built from and read back into: the checks on
//! string arguments, the option lists handed to image creation, the retry
//! decisions of the buffer-sizing protocols, and the decoding of the byte
//! buffers that librbd fills.
pub mod error;
pub mod errno;
pub mod cstr;
pub mod fields;
pub mod options;
pub mod rbd;
pub mod image;
pub mod laws;
