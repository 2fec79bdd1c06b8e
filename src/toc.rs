use vstd::prelude::*;

verus! {

/// The table-of-contents flags a segment lead-in can carry.
#[derive(Debug, Clone, Copy, PartialEq, Eq, Structural)]
pub enum TocFlag {
    MetaData,
    NewObjList,
    RawData,
    InterleavedData,
    BigEndian,
    DaqMxRawData,
}

/// The bit a flag occupies in the mask.
pub open spec fn spec_flag_bit(flag: TocFlag) -> u32 {
    match flag {
        TocFlag::MetaData => 0x2,
        TocFlag::NewObjList => 0x4,
        TocFlag::RawData => 0x8,
        TocFlag::InterleavedData => 0x20,
        TocFlag::BigEndian => 0x40,
        TocFlag::DaqMxRawData => 0x80,
    }
}

impl TocFlag {
    pub fn bit(&self) -> (r: u32)
        ensures
            r == spec_flag_bit(*self),
    {
        match self {
            TocFlag::MetaData => 0x2,
            TocFlag::NewObjList => 0x4,
            TocFlag::RawData => 0x8,
            TocFlag::InterleavedData => 0x20,
            TocFlag::BigEndian => 0x40,
            TocFlag::DaqMxRawData => 0x80,
        }
    }
}

/// The 32-bit table-of-contents mask of a segment.
#[derive(Debug, Clone, Copy, PartialEq, Eq, Structural)]
pub struct TocMask {
    pub flags: u32,
}

impl TocMask {
    pub fn from_flags(flags: u32) -> (r: TocMask)
        ensures
            r.flags == flags,
    {
        TocMask { flags }
    }

    pub open spec fn spec_has_flag(&self, flag: TocFlag) -> bool {
        self.flags & spec_flag_bit(flag) != 0
    }

    /// Whether the mask sets `flag`.
    pub fn has_flag(&self, flag: TocFlag) -> (r: bool)
        ensures
            r == self.spec_has_flag(flag),
    {
        self.flags & flag.bit() != 0
    }
}

} // verus!
