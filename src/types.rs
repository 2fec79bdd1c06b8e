use vstd::prelude::*;

verus! {

/// The value encodings a data type code can name.
#[derive(Debug, Clone, Copy, PartialEq, Eq, Structural)]
pub enum TdsType {
    I8,
    I16,
    I32,
    I64,
    U8,
    U16,
    U32,
    U64,
    SingleFloat,
    DoubleFloat,
    String,
    Boolean,
    TimeStamp,
    /// Scaler-based DAQmx raw data; recognised but not decodable.
    DaqMxRawData,
}

/// The type a wire code names, if any.
pub open spec fn spec_type_of_code(code: u32) -> Option<TdsType> {
    if code == 1 {
        Some(TdsType::I8)
    } else if code == 2 {
        Some(TdsType::I16)
    } else if code == 3 {
        Some(TdsType::I32)
    } else if code == 4 {
        Some(TdsType::I64)
    } else if code == 5 {
        Some(TdsType::U8)
    } else if code == 6 {
        Some(TdsType::U16)
    } else if code == 7 {
        Some(TdsType::U32)
    } else if code == 8 {
        Some(TdsType::U64)
    } else if code == 9 {
        Some(TdsType::SingleFloat)
    } else if code == 10 {
        Some(TdsType::DoubleFloat)
    } else if code == 0x20 {
        Some(TdsType::String)
    } else if code == 0x21 {
        Some(TdsType::Boolean)
    } else if code == 0x44 {
        Some(TdsType::TimeStamp)
    } else if code == 0xFFFF_FFFF {
        Some(TdsType::DaqMxRawData)
    } else {
        None
    }
}

/// Byte width of one value of a fixed-width type; `None` for variable or unsupported widths.
pub open spec fn spec_type_width(t: TdsType) -> Option<u64> {
    match t {
        TdsType::I8 | TdsType::U8 | TdsType::Boolean => Some(1),
        TdsType::I16 | TdsType::U16 => Some(2),
        TdsType::I32 | TdsType::U32 | TdsType::SingleFloat => Some(4),
        TdsType::I64 | TdsType::U64 | TdsType::DoubleFloat => Some(8),
        TdsType::TimeStamp => Some(16),
        TdsType::String | TdsType::DaqMxRawData => None,
    }
}

impl TdsType {
    /// The type named by a wire code.
    pub fn from_u32(code: u32) -> (r: Option<TdsType>)
        ensures
            r == spec_type_of_code(code),
    {
        match code {
            1 => Some(TdsType::I8),
            2 => Some(TdsType::I16),
            3 => Some(TdsType::I32),
            4 => Some(TdsType::I64),
            5 => Some(TdsType::U8),
            6 => Some(TdsType::U16),
            7 => Some(TdsType::U32),
            8 => Some(TdsType::U64),
            9 => Some(TdsType::SingleFloat),
            10 => Some(TdsType::DoubleFloat),
            0x20 => Some(TdsType::String),
            0x21 => Some(TdsType::Boolean),
            0x44 => Some(TdsType::TimeStamp),
            0xFFFF_FFFF => Some(TdsType::DaqMxRawData),
            _ => None,
        }
    }

    /// Byte width of one value, or `None` where the width is not fixed.
    pub fn size(&self) -> (r: Option<u64>)
        ensures
            r == spec_type_width(*self),
    {
        match self {
            TdsType::I8 | TdsType::U8 | TdsType::Boolean => Some(1),
            TdsType::I16 | TdsType::U16 => Some(2),
            TdsType::I32 | TdsType::U32 | TdsType::SingleFloat => Some(4),
            TdsType::I64 | TdsType::U64 | TdsType::DoubleFloat => Some(8),
            TdsType::TimeStamp => Some(16),
            TdsType::String | TdsType::DaqMxRawData => None,
        }
    }
}

} // verus!
