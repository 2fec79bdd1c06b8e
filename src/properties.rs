use vstd::prelude::*;
use crate::error::TdmsError;
use crate::reader::{
    read_string, read_u16, read_u32, read_u64, read_u8, spec_fits, spec_read_string, spec_u16_le,
    spec_u32_le, spec_u64_le,
};
use crate::types::{spec_type_of_code, TdsType};

verus! {

/// A decoded property value. Floating-point values are kept as their IEEE-754 bits.
#[derive(Debug, Clone, PartialEq, Eq)]
pub enum TdmsValue {
    I8(i8),
    I16(i16),
    I32(i32),
    I64(i64),
    U8(u8),
    U16(u16),
    U32(u32),
    U64(u64),
    SingleFloatBits(u32),
    DoubleFloatBits(u64),
    String(String),
    Boolean(bool),
    TimeStamp { seconds: i64, fractions: u64 },
}

/// One named, typed property of an object.
#[derive(Debug, Clone)]
pub struct TdmsProperty {
    pub name: String,
    pub value: TdmsValue,
}

/// Whether `r`, with the reader left at `q`, is the outcome of decoding a value
/// of type `t` at `p`.
pub open spec fn spec_value_read(
    s: Seq<u8>,
    p: int,
    t: TdsType,
    r: Result<TdmsValue, TdmsError>,
    q: int,
) -> bool {
    let trunc = TdmsError::TruncatedInput { position: p as u64 };
    match t {
        TdsType::String => match (r, spec_read_string(s, p)) {
            (Ok(TdmsValue::String(v)), Ok((w, e))) => v@ == w && q == e,
            (Err(e), Err(f)) => e == f,
            _ => false,
        },
        TdsType::DaqMxRawData => r == Err::<TdmsValue, TdmsError>(
            TdmsError::NotImplemented { position: p as u64 },
        ),
        TdsType::I8 | TdsType::U8 | TdsType::Boolean => if spec_fits(s, p, 1) {
            q == p + 1 && r == Ok::<TdmsValue, TdmsError>(
                match t {
                    TdsType::I8 => TdmsValue::I8(s[p] as i8),
                    TdsType::U8 => TdmsValue::U8(s[p]),
                    _ => TdmsValue::Boolean(s[p] != 0),
                },
            )
        } else {
            r == Err::<TdmsValue, TdmsError>(trunc)
        },
        TdsType::I16 | TdsType::U16 => if spec_fits(s, p, 2) {
            q == p + 2 && r == Ok::<TdmsValue, TdmsError>(
                if t == TdsType::I16 {
                    TdmsValue::I16(spec_u16_le(s, p) as u16 as i16)
                } else {
                    TdmsValue::U16(spec_u16_le(s, p) as u16)
                },
            )
        } else {
            r == Err::<TdmsValue, TdmsError>(trunc)
        },
        TdsType::I32 | TdsType::U32 | TdsType::SingleFloat => if spec_fits(s, p, 4) {
            q == p + 4 && r == Ok::<TdmsValue, TdmsError>(
                match t {
                    TdsType::I32 => TdmsValue::I32(spec_u32_le(s, p) as u32 as i32),
                    TdsType::U32 => TdmsValue::U32(spec_u32_le(s, p) as u32),
                    _ => TdmsValue::SingleFloatBits(spec_u32_le(s, p) as u32),
                },
            )
        } else {
            r == Err::<TdmsValue, TdmsError>(trunc)
        },
        TdsType::I64 | TdsType::U64 | TdsType::DoubleFloat => if spec_fits(s, p, 8) {
            q == p + 8 && r == Ok::<TdmsValue, TdmsError>(
                match t {
                    TdsType::I64 => TdmsValue::I64(spec_u64_le(s, p) as u64 as i64),
                    TdsType::U64 => TdmsValue::U64(spec_u64_le(s, p) as u64),
                    _ => TdmsValue::DoubleFloatBits(spec_u64_le(s, p) as u64),
                },
            )
        } else {
            r == Err::<TdmsValue, TdmsError>(trunc)
        },
        TdsType::TimeStamp => if !spec_fits(s, p, 8) {
            r == Err::<TdmsValue, TdmsError>(trunc)
        } else if !spec_fits(s, p + 8, 8) {
            r == Err::<TdmsValue, TdmsError>(
                TdmsError::TruncatedInput { position: (p + 8) as u64 },
            )
        } else {
            q == p + 16 && r == Ok::<TdmsValue, TdmsError>(
                TdmsValue::TimeStamp {
                    seconds: spec_u64_le(s, p + 8) as u64 as i64,
                    fractions: spec_u64_le(s, p) as u64,
                },
            )
        },
    }
}

/// Where a value of type `t` at `p` ends, or why it cannot be decoded.
pub open spec fn spec_value_end(s: Seq<u8>, p: int, t: TdsType) -> Result<int, TdmsError> {
    let w = match t {
        TdsType::I8 | TdsType::U8 | TdsType::Boolean => 1int,
        TdsType::I16 | TdsType::U16 => 2,
        TdsType::I32 | TdsType::U32 | TdsType::SingleFloat => 4,
        _ => 8,
    };
    match t {
        TdsType::String => match spec_read_string(s, p) {
            Ok((_, e)) => Ok(e),
            Err(e) => Err(e),
        },
        TdsType::DaqMxRawData => Err(TdmsError::NotImplemented { position: p as u64 }),
        TdsType::TimeStamp => if !spec_fits(s, p, 8) {
            Err(TdmsError::TruncatedInput { position: p as u64 })
        } else if !spec_fits(s, p + 8, 8) {
            Err(TdmsError::TruncatedInput { position: (p + 8) as u64 })
        } else {
            Ok(p + 16)
        },
        _ => if spec_fits(s, p, w) {
            Ok(p + w)
        } else {
            Err(TdmsError::TruncatedInput { position: p as u64 })
        },
    }
}

/// Where the property at `p` ends, or why it cannot be decoded.
pub open spec fn spec_property_end(s: Seq<u8>, p: int) -> Result<int, TdmsError> {
    match spec_read_string(s, p) {
        Err(e) => Err(e),
        Ok((_, at)) => if !spec_fits(s, at, 4) {
            Err(TdmsError::TruncatedInput { position: at as u64 })
        } else {
            match spec_type_of_code(spec_u32_le(s, at) as u32) {
                None => Err(
                    TdmsError::UnknownType { position: at as u64, code: spec_u32_le(s, at) as u32 },
                ),
                Some(t) => spec_value_end(s, at + 4, t),
            }
        },
    }
}

/// `prop` is the property decoded at `p`: its name and its value.
pub open spec fn spec_property_at(s: Seq<u8>, p: int, prop: TdmsProperty) -> bool {
    match spec_read_string(s, p) {
        Err(_) => false,
        Ok((name, at)) => {
            &&& prop.name@ == name
            &&& spec_fits(s, at, 4)
            &&& match spec_type_of_code(spec_u32_le(s, at) as u32) {
                None => false,
                Some(t) => match spec_value_end(s, at + 4, t) {
                    Err(_) => false,
                    Ok(e) => spec_value_read(
                        s,
                        at + 4,
                        t,
                        Ok::<TdmsValue, TdmsError>(prop.value),
                        e,
                    ),
                },
            }
        },
    }
}

/// Decodes one value of type `t`.
pub fn read_value(data: &[u8], pos: &mut usize, t: TdsType) -> (r: Result<TdmsValue, TdmsError>)
    ensures
        spec_value_read(data@, *old(pos) as int, t, r, *final(pos) as int),
        match spec_value_end(data@, *old(pos) as int, t) {
            Ok(e) => r is Ok && *final(pos) as int == e,
            Err(e) => r == Err::<TdmsValue, TdmsError>(e),
        },
{
    match t {
        TdsType::I8 => Ok(TdmsValue::I8(read_u8(data, pos)? as i8)),
        TdsType::U8 => Ok(TdmsValue::U8(read_u8(data, pos)?)),
        TdsType::Boolean => Ok(TdmsValue::Boolean(read_u8(data, pos)? != 0)),
        TdsType::I16 => Ok(TdmsValue::I16(read_u16(data, pos)? as i16)),
        TdsType::U16 => Ok(TdmsValue::U16(read_u16(data, pos)?)),
        TdsType::I32 => Ok(TdmsValue::I32(read_u32(data, pos)? as i32)),
        TdsType::U32 => Ok(TdmsValue::U32(read_u32(data, pos)?)),
        TdsType::SingleFloat => Ok(TdmsValue::SingleFloatBits(read_u32(data, pos)?)),
        TdsType::I64 => Ok(TdmsValue::I64(read_u64(data, pos)? as i64)),
        TdsType::U64 => Ok(TdmsValue::U64(read_u64(data, pos)?)),
        TdsType::DoubleFloat => Ok(TdmsValue::DoubleFloatBits(read_u64(data, pos)?)),
        TdsType::TimeStamp => {
            let fractions = read_u64(data, pos)?;
            let seconds = read_u64(data, pos)?;
            Ok(TdmsValue::TimeStamp { seconds: seconds as i64, fractions })
        },
        TdsType::String => Ok(TdmsValue::String(read_string(data, pos)?)),
        TdsType::DaqMxRawData => Err(TdmsError::NotImplemented { position: *pos as u64 }),
    }
}

impl TdmsProperty {
    /// Decodes a property: its name, its type code, then a value of that type.
    pub fn read(data: &[u8], pos: &mut usize) -> (r: Result<TdmsProperty, TdmsError>)
        ensures
            match spec_property_end(data@, *old(pos) as int) {
                Ok(e) => r matches Ok(prop) && *final(pos) as int == e && spec_property_at(
                    data@,
                    *old(pos) as int,
                    prop,
                ),
                Err(e) => r == Err::<TdmsProperty, TdmsError>(e),
            },
            match spec_read_string(data@, *old(pos) as int) {
                Err(e) => r == Err::<TdmsProperty, TdmsError>(e),
                Ok((name, name_end)) => if !spec_fits(data@, name_end, 4) {
                    r == Err::<TdmsProperty, TdmsError>(
                        TdmsError::TruncatedInput { position: name_end as u64 },
                    )
                } else {
                    match spec_type_of_code(spec_u32_le(data@, name_end) as u32) {
                        None => r == Err::<TdmsProperty, TdmsError>(
                            TdmsError::UnknownType {
                                position: name_end as u64,
                                code: spec_u32_le(data@, name_end) as u32,
                            },
                        ),
                        Some(t) => spec_value_read(
                            data@,
                            name_end + 4,
                            t,
                            match r {
                                Ok(prop) => Ok(prop.value),
                                Err(e) => Err(e),
                            },
                            *final(pos) as int,
                        ) && (r matches Ok(prop) ==> prop.name@ == name),
                    }
                },
            },
    {
        let name = read_string(data, pos)?;
        let name_end = *pos;
        let code = read_u32(data, pos)?;
        let t = match TdsType::from_u32(code) {
            Some(t) => t,
            None => {
                return Err(TdmsError::UnknownType { position: name_end as u64, code });
            },
        };
        let value = read_value(data, pos, t);
        match value {
            Ok(value) => Ok(TdmsProperty { name, value }),
            Err(e) => Err(e),
        }
    }
}

} // verus!
