//! Kernel images: how they are built, packed and cached.

use vstd::prelude::*;
use crate::bytes;
use crate::compiler::elf::Load;

pub mod cache;
pub mod elf;
pub mod firmware;
pub mod format;
pub mod headers;
pub mod keys;
pub mod roles;
pub mod store;
pub mod told;
pub mod toolchain;
pub mod xip;

pub use crate::compiler::elf::{pack_xip_elf, PTLoad};
pub use crate::compiler::toolchain::Compiler;

verus! {

/// A kernel image ready to be placed in a core's memory.
#[derive(Clone, Debug, PartialEq, Eq)]
pub struct CompiledKernel {
    pub xip: Vec<u8>,
    pub xip_text_bytes: usize,
    pub elf_bytes: Option<Vec<u8>>,
}

/// What a contract says of a kernel image.
pub struct Image {
    pub xip: Seq<u8>,
    pub text_bytes: int,
    pub elf: Option<Seq<u8>>,
}

impl View for CompiledKernel {
    type V = Image;

    open spec fn view(&self) -> Image {
        Image {
            xip: self.xip@,
            text_bytes: self.xip_text_bytes as int,
            elf: match self.elf_bytes {
                Some(b) => Some(b@),
                None => None,
            },
        }
    }
}

impl CompiledKernel {
    pub fn copy(&self) -> (r: CompiledKernel)
        ensures
            r@ == self@,
    {
        let elf_bytes = match &self.elf_bytes {
            Some(b) => {
                let all = bytes::copy_range(b.as_slice(), 0, b.len());
                assert(all@ =~= b@);
                Some(all)
            },
            None => None,
        };
        let xip = bytes::copy_range(self.xip.as_slice(), 0, self.xip.len());
        assert(xip@ =~= self.xip@);
        CompiledKernel { xip, xip_text_bytes: self.xip_text_bytes, elf_bytes }
    }
}

/// The firmware of one processor.
#[derive(Clone, Debug, PartialEq, Eq)]
pub struct CompiledFirmware {
    pub elf_bytes: Vec<u8>,
    pub segments: Vec<PTLoad>,
    pub scratch_base: u32,
}

/// What a contract says of firmware.
pub struct Firmware {
    pub elf: Seq<u8>,
    pub segments: Seq<Load>,
    pub scratch_base: u32,
}

impl View for CompiledFirmware {
    type V = Firmware;

    open spec fn view(&self) -> Firmware {
        Firmware {
            elf: self.elf_bytes@,
            segments: elf::loads_view(self.segments@),
            scratch_base: self.scratch_base,
        }
    }
}

impl CompiledFirmware {
    /// Where the code starts: at the first segment.
    pub fn text_base(&self) -> (r: Option<u32>)
        ensures
            match r {
                Some(a) => self@.segments.len() > 0 && a == self@.segments[0].paddr,
                None => self@.segments.len() == 0,
            },
    {
        if self.segments.len() == 0 {
            None
        } else {
            Some(self.segments[0].paddr)
        }
    }
}

} // verus!
