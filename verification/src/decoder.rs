//! Field decoder: turns a message's raw body bytes plus its schema into a
//! fully typed record.
//!
//! Fields are positional, not self-describing: bytes are consumed strictly
//! in schema attribute order.  Fixed-width scalars are big-endian; the
//! compact variable-width integers use a continuation-bit scheme where each
//! byte contributes seven value bits, least significant group first, and
//! its top bit says whether another byte follows.  Strings carry a two-byte
//! big-endian length prefix, byte arrays a variable-width one.  Running out
//! of bytes mid-field is an error, and so is a tag with no decoding rule:
//! skipping it would desynchronize every following field.
//!
//! The IEEE float and double tags are decoded at their fixed width but kept
//! as raw bit patterns, so the decoded record stays free of floating-point
//! arithmetic; a consumer reinterprets the bits.

use vstd::arithmetic::power2::lemma2_to64;
use vstd::arithmetic::power2::lemma2_to64_rest;
use vstd::arithmetic::power2::lemma_pow2_adds;
use vstd::arithmetic::power2::lemma_pow2_strictly_increases;
use vstd::arithmetic::power2::pow2;
use vstd::prelude::*;

use crate::bytes::be_bytes_val;
use crate::bytes::be_value_u64_at;
use crate::bytes::copy_range;
use crate::bytes::lemma_be_bytes_val_pow2_bound;
use crate::schema::EventId;
use crate::schema::FieldName;
use crate::schema::ProtocolVarType;

verus! {

/// Why decoding one message failed.  Any failure drops the whole message;
/// there are no partial successes.
#[derive(Clone, Copy, Debug, PartialEq, Eq, Structural)]
pub enum DecodeError {
    /// The body ran out of bytes in the middle of a field.
    OutOfBytes,
    /// An attribute's tag has no defined decoding rule.
    UnknownType,
    /// A variable-width integer carried more bits than its scalar holds.
    VarintOverflow,
    /// The catalog has no schema record for the framed event id.
    MissingSchema,
}

/// One decoded field value.  Signed scalars are two's-complement readings
/// of the same bytes as their unsigned siblings; `FloatBits` and
/// `DoubleBits` carry raw IEEE bit patterns.
#[derive(Debug, PartialEq, Eq)]
pub enum TypedValue {
    Byte(i8),
    UnsignedByte(u8),
    Short(i16),
    UnsignedShort(u16),
    Int(i32),
    UnsignedInt(u32),
    Long(i64),
    UnsignedLong(u64),
    FloatBits(u32),
    DoubleBits(u64),
    Boolean(bool),
    Utf(Vec<u8>),
    Bytes(Vec<u8>),
    Nothing,
}

/// Mathematical image of a `TypedValue`: byte containers become sequences.
pub enum ValueModel {
    Byte(i8),
    UnsignedByte(u8),
    Short(i16),
    UnsignedShort(u16),
    Int(i32),
    UnsignedInt(u32),
    Long(i64),
    UnsignedLong(u64),
    FloatBits(u32),
    DoubleBits(u64),
    Boolean(bool),
    Utf(Seq<u8>),
    Bytes(Seq<u8>),
    Nothing,
}

impl View for TypedValue {
    type V = ValueModel;

    open spec fn view(&self) -> ValueModel {
        match self {
            TypedValue::Byte(v) => ValueModel::Byte(*v),
            TypedValue::UnsignedByte(v) => ValueModel::UnsignedByte(*v),
            TypedValue::Short(v) => ValueModel::Short(*v),
            TypedValue::UnsignedShort(v) => ValueModel::UnsignedShort(*v),
            TypedValue::Int(v) => ValueModel::Int(*v),
            TypedValue::UnsignedInt(v) => ValueModel::UnsignedInt(*v),
            TypedValue::Long(v) => ValueModel::Long(*v),
            TypedValue::UnsignedLong(v) => ValueModel::UnsignedLong(*v),
            TypedValue::FloatBits(v) => ValueModel::FloatBits(*v),
            TypedValue::DoubleBits(v) => ValueModel::DoubleBits(*v),
            TypedValue::Boolean(v) => ValueModel::Boolean(*v),
            TypedValue::Utf(v) => ValueModel::Utf(v@),
            TypedValue::Bytes(v) => ValueModel::Bytes(v@),
            TypedValue::Nothing => ValueModel::Nothing,
        }
    }
}

/// A decoded message: its event id and the ordered field-name to value
/// record, in schema attribute order.
#[derive(Debug, PartialEq, Eq)]
pub struct Packet {
    pub id: EventId,
    pub fields: Vec<(FieldName, TypedValue)>,
}

/// Mathematical image of a decoded field list.
pub open spec fn fields_view(s: Seq<(FieldName, TypedValue)>) -> Seq<(Seq<char>, ValueModel)> {
    s.map_values(|p: (FieldName, TypedValue)| (p.0@, p.1@))
}

/// Mathematical image of a `Packet`.
pub struct PacketModel {
    pub id: EventId,
    pub fields: Seq<(Seq<char>, ValueModel)>,
}

impl View for Packet {
    type V = PacketModel;

    open spec fn view(&self) -> PacketModel {
        PacketModel { id: self.id, fields: fields_view(self.fields@) }
    }
}

/// Two's-complement reading of an 8-bit value.
pub open spec fn as_signed8(v: int) -> int {
    if v < 0x80 {
        v
    } else {
        v - 0x100
    }
}

/// Two's-complement reading of a 16-bit value.
pub open spec fn as_signed16(v: int) -> int {
    if v < 0x8000 {
        v
    } else {
        v - 0x1_0000
    }
}

/// Two's-complement reading of a 32-bit value.
pub open spec fn as_signed32(v: int) -> int {
    if v < 0x8000_0000 {
        v
    } else {
        v - 0x1_0000_0000
    }
}

/// Two's-complement reading of a 64-bit value.
pub open spec fn as_signed64(v: int) -> int {
    if v < 0x8000_0000_0000_0000 {
        v
    } else {
        v - 0x1_0000_0000_0000_0000
    }
}

/// Value and end position of a variable-width unsigned integer read at
/// `pos`, holding at most `bits` value bits.  Each byte contributes its low
/// seven bits, least significant group first; its top bit says whether
/// another byte follows.  A continuation or a final group that would carry
/// the value past `bits` bits is an overflow error.
pub open spec fn spec_var_uint(body: Seq<u8>, pos: int, bits: nat) -> Result<
    (int, int),
    DecodeError,
>
    decreases bits,
{
    if !(0 <= pos < body.len()) {
        Err(DecodeError::OutOfBytes)
    } else {
        let low = (body[pos] & 0x7f) as int;
        if body[pos] < 0x80 {
            if bits >= 7 || low < pow2(bits) {
                Ok((low, pos + 1))
            } else {
                Err(DecodeError::VarintOverflow)
            }
        } else {
            if bits <= 7 {
                Err(DecodeError::VarintOverflow)
            } else {
                match spec_var_uint(body, pos + 1, (bits - 7) as nat) {
                    Ok((hi, end)) => Ok((low + hi * 128, end)),
                    Err(e) => Err(e),
                }
            }
        }
    }
}

/// A successfully read variable-width integer stays under `2^bits` and
/// consumes at least one byte, all inside the body.
pub proof fn lemma_var_uint_bound(body: Seq<u8>, pos: int, bits: nat)
    ensures
        spec_var_uint(body, pos, bits) matches Ok(r) ==> 0 <= r.0 < pow2(bits) && pos < r.1
            <= body.len(),
    decreases bits,
{
    if 0 <= pos < body.len() {
        let b = body[pos];
        let low = (b & 0x7f) as int;
        assert((b & 0x7f) < 128) by (bit_vector);
        lemma2_to64();
        if body[pos] < 0x80 {
            if bits > 7 {
                lemma_pow2_strictly_increases(7, bits);
            }
        } else if bits > 7 {
            lemma_var_uint_bound(body, pos + 1, (bits - 7) as nat);
            match spec_var_uint(body, pos + 1, (bits - 7) as nat) {
                Ok((hi, end)) => {
                    lemma_pow2_adds(7, (bits - 7) as nat);
                    assert(low + hi * 128 < pow2(bits)) by (nonlinear_arith)
                        requires
                            0 <= low < 128,
                            0 <= hi < pow2((bits - 7) as nat),
                            pow2(bits) == pow2(7) * pow2((bits - 7) as nat),
                            pow2(7) == 128,
                    ;
                },
                Err(_) => {},
            }
        }
    }
}

/// Reads a variable-width unsigned integer of at most `bits` value bits.
fn read_var_uint(body: &Vec<u8>, pos: usize, bits: u32) -> (r: Result<(u64, usize), DecodeError>)
    requires
        1 <= bits <= 64,
    ensures
        match spec_var_uint(body@, pos as int, bits as nat) {
            Ok(sp) => r matches Ok(e) && e.0 == sp.0 && e.1 == sp.1,
            Err(se) => r matches Err(e) && e == se,
        },
    decreases bits,
{
    let body_len = body.len();
    if pos >= body_len {
        return Err(DecodeError::OutOfBytes);
    }
    let b = body[pos];
    let low = (b & 0x7f) as u64;
    proof {
        assert((b & 0x7f) < 0x80) by (bit_vector);
        lemma2_to64();
    }
    if b < 0x80 {
        if bits >= 7 {
            if bits > 7 {
                proof {
                    lemma_pow2_strictly_increases(7, bits as nat);
                }
            }
            Ok((low, pos + 1))
        } else {
            let limit: u64 = if bits == 1 {
                2
            } else if bits == 2 {
                4
            } else if bits == 3 {
                8
            } else if bits == 4 {
                16
            } else if bits == 5 {
                32
            } else {
                64
            };
            proof {
                assert(limit == pow2(bits as nat));
            }
            if low < limit {
                Ok((low, pos + 1))
            } else {
                Err(DecodeError::VarintOverflow)
            }
        }
    } else {
        if bits <= 7 {
            Err(DecodeError::VarintOverflow)
        } else {
            match read_var_uint(body, pos + 1, bits - 7) {
                Ok((hi, end)) => {
                    proof {
                        lemma_var_uint_bound(body@, pos as int + 1, (bits - 7) as nat);
                        lemma_pow2_adds(7, (bits - 7) as nat);
                        lemma2_to64();
                        lemma2_to64_rest();
                        if (bits - 7) < 57 {
                            lemma_pow2_strictly_increases((bits - 7) as nat, 57);
                        }
                        assert(low + hi * 128 < pow2(64)) by (nonlinear_arith)
                            requires
                                0 <= low < 128,
                                0 <= hi < pow2(57),
                                pow2(64) == pow2(7) * pow2(57),
                                pow2(7) == 128,
                        ;
                    }
                    Ok((low + hi * 128, end))
                },
                Err(e) => Err(e),
            }
        }
    }
}

/// Value and end position of the field a type tag decodes at `pos`, or the
/// error that stops the whole message.
pub open spec fn spec_decode_value(t: ProtocolVarType, body: Seq<u8>, pos: int) -> Result<
    (ValueModel, int),
    DecodeError,
> {
    match t {
        ProtocolVarType::Byte => if pos + 1 <= body.len() {
            Ok((ValueModel::Byte(as_signed8(body[pos] as int) as i8), pos + 1))
        } else {
            Err(DecodeError::OutOfBytes)
        },
        ProtocolVarType::UnsignedByte => if pos + 1 <= body.len() {
            Ok((ValueModel::UnsignedByte(body[pos]), pos + 1))
        } else {
            Err(DecodeError::OutOfBytes)
        },
        ProtocolVarType::Boolean => if pos + 1 <= body.len() {
            Ok((ValueModel::Boolean(body[pos] != 0), pos + 1))
        } else {
            Err(DecodeError::OutOfBytes)
        },
        ProtocolVarType::Short => if pos + 2 <= body.len() {
            Ok(
                (
                    ValueModel::Short(
                        as_signed16(be_bytes_val(body.subrange(pos, pos + 2))) as i16,
                    ),
                    pos + 2,
                ),
            )
        } else {
            Err(DecodeError::OutOfBytes)
        },
        ProtocolVarType::UnsignedShort => if pos + 2 <= body.len() {
            Ok(
                (
                    ValueModel::UnsignedShort(be_bytes_val(body.subrange(pos, pos + 2)) as u16),
                    pos + 2,
                ),
            )
        } else {
            Err(DecodeError::OutOfBytes)
        },
        ProtocolVarType::Int => if pos + 4 <= body.len() {
            Ok(
                (
                    ValueModel::Int(as_signed32(be_bytes_val(body.subrange(pos, pos + 4))) as i32),
                    pos + 4,
                ),
            )
        } else {
            Err(DecodeError::OutOfBytes)
        },
        ProtocolVarType::UnsignedInt => if pos + 4 <= body.len() {
            Ok(
                (
                    ValueModel::UnsignedInt(be_bytes_val(body.subrange(pos, pos + 4)) as u32),
                    pos + 4,
                ),
            )
        } else {
            Err(DecodeError::OutOfBytes)
        },
        ProtocolVarType::Float => if pos + 4 <= body.len() {
            Ok((ValueModel::FloatBits(be_bytes_val(body.subrange(pos, pos + 4)) as u32), pos + 4))
        } else {
            Err(DecodeError::OutOfBytes)
        },
        ProtocolVarType::Double => if pos + 8 <= body.len() {
            Ok((ValueModel::DoubleBits(be_bytes_val(body.subrange(pos, pos + 8)) as u64), pos + 8))
        } else {
            Err(DecodeError::OutOfBytes)
        },
        ProtocolVarType::VarShort => match spec_var_uint(body, pos, 16) {
            Ok((v, end)) => Ok((ValueModel::Short(as_signed16(v) as i16), end)),
            Err(e) => Err(e),
        },
        ProtocolVarType::VarUhShort => match spec_var_uint(body, pos, 16) {
            Ok((v, end)) => Ok((ValueModel::UnsignedShort(v as u16), end)),
            Err(e) => Err(e),
        },
        ProtocolVarType::VarInt => match spec_var_uint(body, pos, 32) {
            Ok((v, end)) => Ok((ValueModel::Int(as_signed32(v) as i32), end)),
            Err(e) => Err(e),
        },
        ProtocolVarType::VarUhInt => match spec_var_uint(body, pos, 32) {
            Ok((v, end)) => Ok((ValueModel::UnsignedInt(v as u32), end)),
            Err(e) => Err(e),
        },
        ProtocolVarType::VarLong => match spec_var_uint(body, pos, 64) {
            Ok((v, end)) => Ok((ValueModel::Long(as_signed64(v) as i64), end)),
            Err(e) => Err(e),
        },
        ProtocolVarType::VarUhLong => match spec_var_uint(body, pos, 64) {
            Ok((v, end)) => Ok((ValueModel::UnsignedLong(v as u64), end)),
            Err(e) => Err(e),
        },
        ProtocolVarType::UTF => if pos + 2 <= body.len() {
            let n = be_bytes_val(body.subrange(pos, pos + 2));
            if pos + 2 + n <= body.len() {
                Ok((ValueModel::Utf(body.subrange(pos + 2, pos + 2 + n)), pos + 2 + n))
            } else {
                Err(DecodeError::OutOfBytes)
            }
        } else {
            Err(DecodeError::OutOfBytes)
        },
        ProtocolVarType::ByteArray => match spec_var_uint(body, pos, 32) {
            Ok((n, p)) => if p + n <= body.len() {
                Ok((ValueModel::Bytes(body.subrange(p, p + n)), p + n))
            } else {
                Err(DecodeError::OutOfBytes)
            },
            Err(e) => Err(e),
        },
        ProtocolVarType::False => Ok((ValueModel::Nothing, pos)),
        ProtocolVarType::Unknown => Err(DecodeError::UnknownType),
    }
}

/// Two's-complement reading of 16 bits, in executable form.
fn to_i16(v: u16) -> (r: i16)
    ensures
        r as int == as_signed16(v as int),
{
    if v >= 0x8000 {
        (v as i32 - 0x1_0000) as i16
    } else {
        v as i16
    }
}

/// Two's-complement reading of 32 bits, in executable form.
fn to_i32(v: u32) -> (r: i32)
    ensures
        r as int == as_signed32(v as int),
{
    if v >= 0x8000_0000 {
        (v as i64 - 0x1_0000_0000) as i32
    } else {
        v as i32
    }
}

/// Two's-complement reading of 64 bits, in executable form.
fn to_i64(v: u64) -> (r: i64)
    ensures
        r as int == as_signed64(v as int),
{
    if v >= 0x8000_0000_0000_0000 {
        (v as i128 - 0x1_0000_0000_0000_0000) as i64
    } else {
        v as i64
    }
}

/// Decodes the field a type tag describes at `pos` of the body.
pub fn decode_value(t: ProtocolVarType, body: &Vec<u8>, pos: usize) -> (r: Result<
    (TypedValue, usize),
    DecodeError,
>)
    ensures
        match spec_decode_value(t, body@, pos as int) {
            Ok(sp) => r matches Ok(e) && e.0@ == sp.0 && e.1 == sp.1,
            Err(se) => r matches Err(e) && e == se,
        },
{
    let body_len = body.len();
    match t {
        ProtocolVarType::Byte => {
            if pos < body_len {
                let v = body[pos];
                let s: i8 = if v >= 0x80 {
                    (v as i16 - 0x100) as i8
                } else {
                    v as i8
                };
                Ok((TypedValue::Byte(s), pos + 1))
            } else {
                Err(DecodeError::OutOfBytes)
            }
        },
        ProtocolVarType::UnsignedByte => {
            if pos < body_len {
                Ok((TypedValue::UnsignedByte(body[pos]), pos + 1))
            } else {
                Err(DecodeError::OutOfBytes)
            }
        },
        ProtocolVarType::Boolean => {
            if pos < body_len {
                Ok((TypedValue::Boolean(body[pos] != 0), pos + 1))
            } else {
                Err(DecodeError::OutOfBytes)
            }
        },
        ProtocolVarType::Short => {
            if body_len >= 2 && pos <= body_len - 2 {
                let v = be_value_u64_at(body, pos, 2);
                proof {
                    lemma_be_bytes_val_pow2_bound(body@.subrange(pos as int, pos as int + 2));
                    lemma2_to64();
                }
                Ok((TypedValue::Short(to_i16(v as u16)), pos + 2))
            } else {
                Err(DecodeError::OutOfBytes)
            }
        },
        ProtocolVarType::UnsignedShort => {
            if body_len >= 2 && pos <= body_len - 2 {
                let v = be_value_u64_at(body, pos, 2);
                proof {
                    lemma_be_bytes_val_pow2_bound(body@.subrange(pos as int, pos as int + 2));
                    lemma2_to64();
                }
                Ok((TypedValue::UnsignedShort(v as u16), pos + 2))
            } else {
                Err(DecodeError::OutOfBytes)
            }
        },
        ProtocolVarType::Int => {
            if body_len >= 4 && pos <= body_len - 4 {
                let v = be_value_u64_at(body, pos, 4);
                proof {
                    lemma_be_bytes_val_pow2_bound(body@.subrange(pos as int, pos as int + 4));
                    lemma2_to64();
                }
                Ok((TypedValue::Int(to_i32(v as u32)), pos + 4))
            } else {
                Err(DecodeError::OutOfBytes)
            }
        },
        ProtocolVarType::UnsignedInt => {
            if body_len >= 4 && pos <= body_len - 4 {
                let v = be_value_u64_at(body, pos, 4);
                proof {
                    lemma_be_bytes_val_pow2_bound(body@.subrange(pos as int, pos as int + 4));
                    lemma2_to64();
                }
                Ok((TypedValue::UnsignedInt(v as u32), pos + 4))
            } else {
                Err(DecodeError::OutOfBytes)
            }
        },
        ProtocolVarType::Float => {
            if body_len >= 4 && pos <= body_len - 4 {
                let v = be_value_u64_at(body, pos, 4);
                proof {
                    lemma_be_bytes_val_pow2_bound(body@.subrange(pos as int, pos as int + 4));
                    lemma2_to64();
                }
                Ok((TypedValue::FloatBits(v as u32), pos + 4))
            } else {
                Err(DecodeError::OutOfBytes)
            }
        },
        ProtocolVarType::Double => {
            if body_len >= 8 && pos <= body_len - 8 {
                let v = be_value_u64_at(body, pos, 8);
                Ok((TypedValue::DoubleBits(v), pos + 8))
            } else {
                Err(DecodeError::OutOfBytes)
            }
        },
        ProtocolVarType::VarShort => {
            match read_var_uint(body, pos, 16) {
                Ok((v, end)) => {
                    proof {
                        lemma_var_uint_bound(body@, pos as int, 16);
                        lemma2_to64();
                    }
                    Ok((TypedValue::Short(to_i16(v as u16)), end))
                },
                Err(e) => Err(e),
            }
        },
        ProtocolVarType::VarUhShort => {
            match read_var_uint(body, pos, 16) {
                Ok((v, end)) => {
                    proof {
                        lemma_var_uint_bound(body@, pos as int, 16);
                        lemma2_to64();
                    }
                    Ok((TypedValue::UnsignedShort(v as u16), end))
                },
                Err(e) => Err(e),
            }
        },
        ProtocolVarType::VarInt => {
            match read_var_uint(body, pos, 32) {
                Ok((v, end)) => {
                    proof {
                        lemma_var_uint_bound(body@, pos as int, 32);
                        lemma2_to64();
                    }
                    Ok((TypedValue::Int(to_i32(v as u32)), end))
                },
                Err(e) => Err(e),
            }
        },
        ProtocolVarType::VarUhInt => {
            match read_var_uint(body, pos, 32) {
                Ok((v, end)) => {
                    proof {
                        lemma_var_uint_bound(body@, pos as int, 32);
                        lemma2_to64();
                    }
                    Ok((TypedValue::UnsignedInt(v as u32), end))
                },
                Err(e) => Err(e),
            }
        },
        ProtocolVarType::VarLong => {
            match read_var_uint(body, pos, 64) {
                Ok((v, end)) => Ok((TypedValue::Long(to_i64(v)), end)),
                Err(e) => Err(e),
            }
        },
        ProtocolVarType::VarUhLong => {
            match read_var_uint(body, pos, 64) {
                Ok((v, end)) => Ok((TypedValue::UnsignedLong(v), end)),
                Err(e) => Err(e),
            }
        },
        ProtocolVarType::UTF => {
            if body_len >= 2 && pos <= body_len - 2 {
                let n = be_value_u64_at(body, pos, 2);
                proof {
                    lemma_be_bytes_val_pow2_bound(body@.subrange(pos as int, pos as int + 2));
                    lemma2_to64();
                }
                let n = n as usize;
                if n <= body_len - (pos + 2) {
                    let data = copy_range(body, pos + 2, n);
                    Ok((TypedValue::Utf(data), pos + 2 + n))
                } else {
                    Err(DecodeError::OutOfBytes)
                }
            } else {
                Err(DecodeError::OutOfBytes)
            }
        },
        ProtocolVarType::ByteArray => {
            match read_var_uint(body, pos, 32) {
                Ok((n, p)) => {
                    proof {
                        lemma_var_uint_bound(body@, pos as int, 32);
                        lemma2_to64();
                    }
                    let n = n as usize;
                    if n <= body_len - p {
                        let data = copy_range(body, p, n);
                        Ok((TypedValue::Bytes(data), p + n))
                    } else {
                        Err(DecodeError::OutOfBytes)
                    }
                },
                Err(e) => Err(e),
            }
        },
        ProtocolVarType::False => Ok((TypedValue::Nothing, pos)),
        ProtocolVarType::Unknown => Err(DecodeError::UnknownType),
    }
}

/// Field list and end position of decoding the schema's attributes against
/// the body, starting at `pos`, strictly in attribute order.
pub open spec fn spec_decode_fields(
    attrs: Seq<(FieldName, ProtocolVarType)>,
    body: Seq<u8>,
    pos: int,
) -> Result<(Seq<(Seq<char>, ValueModel)>, int), DecodeError>
    decreases attrs.len(),
{
    if attrs.len() == 0 {
        Ok((Seq::empty(), pos))
    } else {
        match spec_decode_value(attrs.first().1, body, pos) {
            Ok((v, p)) => match spec_decode_fields(attrs.drop_first(), body, p) {
                Ok((rest, end)) => Ok((seq![(attrs.first().0@, v)] + rest, end)),
                Err(e) => Err(e),
            },
            Err(e) => Err(e),
        }
    }
}

/// The record a schema decodes from a message body, or the decode error.
pub open spec fn spec_decode_packet(
    id: EventId,
    attrs: Seq<(FieldName, ProtocolVarType)>,
    body: Seq<u8>,
) -> Result<PacketModel, DecodeError> {
    match spec_decode_fields(attrs, body, 0) {
        Ok((fields, _)) => Ok(PacketModel { id, fields }),
        Err(e) => Err(e),
    }
}

/// Decodes a message body against an event's ordered attribute list into a
/// fully typed record; any mid-field failure drops the whole message.
pub fn decode_packet(
    id: EventId,
    attrs: &Vec<(FieldName, ProtocolVarType)>,
    body: &Vec<u8>,
) -> (r: Result<Packet, DecodeError>)
    ensures
        match spec_decode_packet(id, attrs@, body@) {
            Ok(pm) => r matches Ok(p) && p@.fields == pm.fields && p.id == id,
            Err(se) => r matches Err(e) && e == se,
        },
{
    let n = attrs.len();
    let mut out: Vec<(FieldName, TypedValue)> = Vec::new();
    let mut pos: usize = 0;
    let mut i: usize = 0;
    proof {
        assert(attrs@.skip(0) =~= attrs@);
    }
    while i < n
        invariant
            n == attrs@.len(),
            0 <= i <= n,
            spec_decode_fields(attrs@, body@, 0) == (match spec_decode_fields(
                attrs@.skip(i as int),
                body@,
                pos as int,
            ) {
                Ok(sp) => Ok::<_, DecodeError>((fields_view(out@) + sp.0, sp.1)),
                Err(e) => Err::<(Seq<(Seq<char>, ValueModel)>, int), _>(e),
            }),
        decreases n - i,
    {
        let ghost pending = attrs@.skip(i as int);
        proof {
            assert(pending.first() == attrs@[i as int]);
            assert(pending.drop_first() =~= attrs@.skip(i as int + 1));
            assert(spec_decode_fields(pending, body@, pos as int) == (match spec_decode_value(
                attrs@[i as int].1,
                body@,
                pos as int,
            ) {
                Ok((v0, p0)) => match spec_decode_fields(attrs@.skip(i as int + 1), body@, p0) {
                    Ok((rest, end)) => Ok::<_, DecodeError>(
                        (seq![(attrs@[i as int].0@, v0)] + rest, end),
                    ),
                    Err(e) => Err::<(Seq<(Seq<char>, ValueModel)>, int), _>(e),
                },
                Err(e) => Err::<(Seq<(Seq<char>, ValueModel)>, int), _>(e),
            }));
        }
        let tag = attrs[i].1;
        match decode_value(tag, body, pos) {
            Ok((v, p)) => {
                let name = attrs[i].0.clone();
                let ghost x = (name@, v@);
                let ghost prev_out = out@;
                out.push((name, v));
                pos = p;
                proof {
                    assert(x == (attrs@[i as int].0@, x.1));
                    assert(fields_view(out@) =~= fields_view(prev_out).push(x));
                    match spec_decode_fields(attrs@.skip(i as int + 1), body@, pos as int) {
                        Ok(sp) => {
                            assert(fields_view(out@) + sp.0 =~= fields_view(prev_out) + (seq![x]
                                + sp.0));
                        },
                        Err(_) => {},
                    }
                }
            },
            Err(e) => {
                return Err(e);
            },
        }
        i = i + 1;
    }
    proof {
        assert(attrs@.skip(n as int) =~= Seq::<(FieldName, ProtocolVarType)>::empty());
        assert(fields_view(out@) + Seq::<(Seq<char>, ValueModel)>::empty() =~= fields_view(out@));
    }
    Ok(Packet { id, fields: out })
}

} // verus!
