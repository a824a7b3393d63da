//! Builds the boot initrd (a `newc` cpio archive) and the build metadata
//! that accompany an enclave image.

pub mod newc;
pub mod path;
pub mod initrd;
pub mod arch;
pub mod identity;
pub mod manifest;
