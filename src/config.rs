use vstd::prelude::*;

verus! {

/// Description of the machine the generated C code is meant for.
#[derive(Debug, Clone)]
pub struct ArchConfig {
    pub pointer_bits: usize,
    pub pointer_align: usize,
    pub int_bits: usize,
    pub long_bits: usize,
    pub target: String,
}

/// The power-of-two alignment step for a value that is `bits` wide.
pub open spec fn align_step(bits: int) -> int {
    if 1 <= bits <= 8 {
        1
    } else if 9 <= bits <= 16 {
        2
    } else if 17 <= bits <= 32 {
        4
    } else if 33 <= bits <= 64 {
        8
    } else {
        16
    }
}

/// Width of the discriminator of a sum type with `count` variants.
pub open spec fn tag_width(count: int) -> int {
    if count <= 256 {
        8
    } else if count <= 65536 {
        16
    } else {
        32
    }
}

impl ArchConfig {
    /// The well-formed descriptors: pointers are small enough that the size
    /// arithmetic of the type model never leaves `usize`.
    pub open spec fn wf(&self) -> bool {
        &&& 1 <= self.pointer_bits <= 64
        &&& 1 <= self.pointer_align <= 16
    }

    pub fn x86_64() -> (r: Self)
        ensures
            r.pointer_bits == 64,
            r.pointer_align == 8,
            r.int_bits == 32,
            r.long_bits == 64,
            r.target@ == "x86_64"@,
            r.wf(),
    {
        ArchConfig {
            pointer_bits: 64,
            pointer_align: 8,
            int_bits: 32,
            long_bits: 64,
            target: String::from_str("x86_64"),
        }
    }

    pub fn x86() -> (r: Self)
        ensures
            r.pointer_bits == 32,
            r.pointer_align == 4,
            r.int_bits == 32,
            r.long_bits == 32,
            r.target@ == "x86"@,
            r.wf(),
    {
        ArchConfig {
            pointer_bits: 32,
            pointer_align: 4,
            int_bits: 32,
            long_bits: 32,
            target: String::from_str("x86"),
        }
    }

    pub fn arm64() -> (r: Self)
        ensures
            r.pointer_bits == 64,
            r.pointer_align == 8,
            r.int_bits == 32,
            r.long_bits == 64,
            r.target@ == "aarch64"@,
            r.wf(),
    {
        ArchConfig {
            pointer_bits: 64,
            pointer_align: 8,
            int_bits: 32,
            long_bits: 64,
            target: String::from_str("aarch64"),
        }
    }

    pub fn alignment_for_bits(&self, bits: usize) -> (r: usize)
        ensures
            r == align_step(bits as int),
    {
        if 1 <= bits && bits <= 8 {
            1
        } else if 9 <= bits && bits <= 16 {
            2
        } else if 17 <= bits && bits <= 32 {
            4
        } else if 33 <= bits && bits <= 64 {
            8
        } else {
            16
        }
    }

    pub fn tag_bits_for_variants(&self, count: usize) -> (r: usize)
        ensures
            r == tag_width(count as int),
    {
        if count <= 256 {
            8
        } else if count <= 65536 {
            16
        } else {
            32
        }
    }
}

} // verus!
