//! Target architectures and the image header flags that mark them.
use vstd::prelude::*;

verus! {

/// Header flag bit that marks an aarch64 image; an x86_64 image has none.
pub const EIF_HDR_ARCH_ARM64: u16 = 0x1;

#[derive(Clone, Copy, Debug, PartialEq, Eq, Structural)]
pub enum Arch {
    X86_64,
    Aarch64,
}

/// The image header flags for `arch`.
pub fn arch_flags(arch: Arch) -> (r: u16)
    ensures
        r == match arch {
            Arch::X86_64 => 0u16,
            Arch::Aarch64 => EIF_HDR_ARCH_ARM64,
        },
{
    match arch {
        Arch::X86_64 => 0,
        Arch::Aarch64 => EIF_HDR_ARCH_ARM64,
    }
}

} // verus!
