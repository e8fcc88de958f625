//! Typed payload argument decoding, driven by a 32-bit type-info descriptor.

use vstd::prelude::*;
use crate::dlt::cursor::{
    as_signed128, as_signed16, as_signed32, as_signed64, as_signed8, decoded_ident, ident_ok,
    num_of, to_i128, to_i16, to_i32, to_i64, to_i8, Cursor,
};
use crate::dlt::DltError;

verus! {

/// Selects the byte order used when assembling multi-byte values.
#[derive(Clone, Copy, PartialEq, Eq, Structural, Debug)]
pub enum ByteConverter {
    FromBigEndian,
    FromLittleEndian,
}

impl ByteConverter {
    /// Whether this converter reads the most significant byte first.
    pub open spec fn spec_is_be(&self) -> bool {
        match self {
            ByteConverter::FromBigEndian => true,
            ByteConverter::FromLittleEndian => false,
        }
    }

    #[verifier::when_used_as_spec(spec_is_be)]
    pub fn is_be(&self) -> (r: bool)
        ensures
            r == self.spec_is_be(),
    {
        match self {
            ByteConverter::FromBigEndian => true,
            ByteConverter::FromLittleEndian => false,
        }
    }
}

// Bit fields of the 32-bit type-info descriptor.
pub open spec fn ti_tyle(ti: u32) -> u32 {
    ti & 0x000F
}

pub open spec fn ti_bool(ti: u32) -> bool {
    ti & 0x0010 == 0x0010
}

pub open spec fn ti_sint(ti: u32) -> bool {
    ti & 0x0020 == 0x0020
}

pub open spec fn ti_uint(ti: u32) -> bool {
    ti & 0x0040 == 0x0040
}

pub open spec fn ti_float(ti: u32) -> bool {
    ti & 0x0080 == 0x0080
}

pub open spec fn ti_array(ti: u32) -> bool {
    ti & 0x0100 == 0x0100
}

pub open spec fn ti_string(ti: u32) -> bool {
    ti & 0x0200 == 0x0200
}

pub open spec fn ti_raw(ti: u32) -> bool {
    ti & 0x0400 == 0x0400
}

pub open spec fn ti_vari(ti: u32) -> bool {
    ti & 0x0800 == 0x0800
}

pub open spec fn ti_fixp(ti: u32) -> bool {
    ti & 0x1000 == 0x1000
}

pub open spec fn ti_trai(ti: u32) -> bool {
    ti & 0x2000 == 0x2000
}

pub open spec fn ti_stru(ti: u32) -> bool {
    ti & 0x4000 == 0x4000
}

pub open spec fn ti_scod(ti: u32) -> u32 {
    (ti & 0x38000) >> 15
}

/// The length class encoded in the low four type-info bits.
#[derive(Clone, Copy, PartialEq, Eq, Structural, Debug)]
pub enum TypeLength {
    Bits8,
    Bits16,
    Bits32,
    Bits64,
    Bits128,
    Undefined,
}

pub open spec fn spec_type_length(value: u8) -> TypeLength {
    match value {
        0x1u8 => TypeLength::Bits8,
        0x2u8 => TypeLength::Bits16,
        0x3u8 => TypeLength::Bits32,
        0x4u8 => TypeLength::Bits64,
        0x5u8 => TypeLength::Bits128,
        _ => TypeLength::Undefined,
    }
}

impl TypeLength {
    pub fn from_bits(value: u8) -> (r: TypeLength)
        ensures
            r == spec_type_length(value),
    {
        match value {
            0x1 => TypeLength::Bits8,
            0x2 => TypeLength::Bits16,
            0x3 => TypeLength::Bits32,
            0x4 => TypeLength::Bits64,
            0x5 => TypeLength::Bits128,
            _ => TypeLength::Undefined,
        }
    }
}

/// The string coding encoded in type-info bits 15-17.
#[derive(Clone, Copy, PartialEq, Eq, Structural, Debug)]
pub enum TypeInfoStringEncoding {
    Ascii,
    Utf8,
    Reserved,
}

pub open spec fn spec_string_encoding(value: u32) -> TypeInfoStringEncoding {
    match ti_scod(value) {
        0x0u32 => TypeInfoStringEncoding::Ascii,
        0x1u32 => TypeInfoStringEncoding::Utf8,
        _ => TypeInfoStringEncoding::Reserved,
    }
}

impl TypeInfoStringEncoding {
    pub fn from_bits(value: u32) -> (r: TypeInfoStringEncoding)
        ensures
            r == spec_string_encoding(value),
    {
        match (value & 0x38000) >> 15 {
            0x0 => TypeInfoStringEncoding::Ascii,
            0x1 => TypeInfoStringEncoding::Utf8,
            _ => TypeInfoStringEncoding::Reserved,
        }
    }
}

/// The common fields every argument kind carries.
#[derive(Clone, Copy, PartialEq, Eq, Structural, Debug)]
pub struct TypeInfo {
    pub length: TypeLength,
    pub var_info: bool,
    pub fixed_point: bool,
    pub string_coding: TypeInfoStringEncoding,
}

impl TypeInfo {
    pub fn new(
        length: TypeLength,
        var_info: bool,
        fixed_point: bool,
        string_coding: TypeInfoStringEncoding,
    ) -> (r: TypeInfo)
        ensures
            r == (TypeInfo { length, var_info, fixed_point, string_coding }),
    {
        TypeInfo { length, var_info, fixed_point, string_coding }
    }
}

pub open spec fn spec_type_info(value: u32) -> TypeInfo {
    TypeInfo {
        length: spec_type_length(ti_tyle(value) as u8),
        var_info: ti_vari(value),
        fixed_point: ti_fixp(value),
        string_coding: spec_string_encoding(value),
    }
}

/// An argument's kind: the first set type bit, checked in the priority
/// order BOOL, SINT, UINT, FLOA, ARAY, STRG, RAWD, TRAI, STRU.
#[derive(Clone, Copy, PartialEq, Eq, Structural, Debug)]
pub enum Type {
    Bool(TypeInfo),
    Signed(TypeInfo),
    Unsigned(TypeInfo),
    Float(TypeInfo),
    Array(TypeInfo),
    Str(TypeInfo),
    Raw(TypeInfo),
    TraceInfo(TypeInfo),
    Struct(TypeInfo),
    Reserved,
}

pub open spec fn spec_type(value: u32) -> Type {
    if ti_bool(value) {
        Type::Bool(spec_type_info(value))
    } else if ti_sint(value) {
        Type::Signed(spec_type_info(value))
    } else if ti_uint(value) {
        Type::Unsigned(spec_type_info(value))
    } else if ti_float(value) {
        Type::Float(spec_type_info(value))
    } else if ti_array(value) {
        Type::Array(spec_type_info(value))
    } else if ti_string(value) {
        Type::Str(spec_type_info(value))
    } else if ti_raw(value) {
        Type::Raw(spec_type_info(value))
    } else if ti_trai(value) {
        Type::TraceInfo(spec_type_info(value))
    } else if ti_stru(value) {
        Type::Struct(spec_type_info(value))
    } else {
        Type::Reserved
    }
}

impl Type {
    pub fn from_info(value: u32) -> (r: Type)
        ensures
            r == spec_type(value),
    {
        let type_len = TypeLength::from_bits((value & 0x000F) as u8);
        let has_var_info = value & 0x0800 == 0x0800;
        let has_fixed_point = value & 0x1000 == 0x1000;
        let string_coding = TypeInfoStringEncoding::from_bits(value);
        let type_info = TypeInfo::new(type_len, has_var_info, has_fixed_point, string_coding);
        if value & 0x0010 == 0x0010 {
            Type::Bool(type_info)
        } else if value & 0x0020 == 0x0020 {
            Type::Signed(type_info)
        } else if value & 0x0040 == 0x0040 {
            Type::Unsigned(type_info)
        } else if value & 0x0080 == 0x0080 {
            Type::Float(type_info)
        } else if value & 0x0100 == 0x0100 {
            Type::Array(type_info)
        } else if value & 0x0200 == 0x0200 {
            Type::Str(type_info)
        } else if value & 0x0400 == 0x0400 {
            Type::Raw(type_info)
        } else if value & 0x2000 == 0x2000 {
            Type::TraceInfo(type_info)
        } else if value & 0x4000 == 0x4000 {
            Type::Struct(type_info)
        } else {
            Type::Reserved
        }
    }
}

/// A decoded payload argument.
///
/// `Unsupported` is a first-class variant: argument kinds the decoder does
/// not handle yield it instead of failing the whole message.
#[derive(PartialEq, Eq, Debug)]
pub enum Value {
    Bool(bool),
    SInt8(i8),
    SInt16(i16),
    SInt32(i32),
    SInt64(i64),
    SInt128(i128),
    UInt8(u8),
    UInt16(u16),
    UInt32(u32),
    UInt64(u64),
    UInt128(u128),
    Str(String),
    TraceData(String),
    NonVerbose(u32, Vec<u8>),
    Unsupported,
}

/// The mathematical shape of a decoded argument.
pub enum ValueModel {
    Bool(bool),
    SInt8(i8),
    SInt16(i16),
    SInt32(i32),
    SInt64(i64),
    SInt128(i128),
    UInt8(u8),
    UInt16(u16),
    UInt32(u32),
    UInt64(u64),
    UInt128(u128),
    Str(Seq<char>),
    TraceData(Seq<char>),
    NonVerbose(u32, Seq<u8>),
    Unsupported,
}

impl View for Value {
    type V = ValueModel;

    open spec fn view(&self) -> ValueModel {
        match self {
            Value::Bool(b) => ValueModel::Bool(*b),
            Value::SInt8(v) => ValueModel::SInt8(*v),
            Value::SInt16(v) => ValueModel::SInt16(*v),
            Value::SInt32(v) => ValueModel::SInt32(*v),
            Value::SInt64(v) => ValueModel::SInt64(*v),
            Value::SInt128(v) => ValueModel::SInt128(*v),
            Value::UInt8(v) => ValueModel::UInt8(*v),
            Value::UInt16(v) => ValueModel::UInt16(*v),
            Value::UInt32(v) => ValueModel::UInt32(*v),
            Value::UInt64(v) => ValueModel::UInt64(*v),
            Value::UInt128(v) => ValueModel::UInt128(*v),
            Value::Str(s) => ValueModel::Str(s@),
            Value::TraceData(s) => ValueModel::TraceData(s@),
            Value::NonVerbose(id, bytes) => ValueModel::NonVerbose(*id, bytes@),
            Value::Unsupported => ValueModel::Unsupported,
        }
    }
}

impl DeepView for Value {
    type V = ValueModel;

    open spec fn deep_view(&self) -> ValueModel {
        self.view()
    }
}

/// The byte width of a primitive argument for a type-info word, or zero
/// when the length class is undefined.
pub open spec fn prim_width(ti: u32) -> int {
    if ti_tyle(ti) == 1 {
        1
    } else if ti_tyle(ti) == 2 {
        2
    } else if ti_tyle(ti) == 3 {
        4
    } else if ti_tyle(ti) == 4 {
        8
    } else if ti_tyle(ti) == 5 {
        16
    } else {
        0
    }
}

/// The signed argument read from `w` bytes at `q`.
pub open spec fn signed_value(conv: ByteConverter, d: Seq<u8>, q: int, w: int) -> ValueModel {
    if w == 1 {
        ValueModel::SInt8(as_signed8(num_of(conv, d.subrange(q, q + 1))) as i8)
    } else if w == 2 {
        ValueModel::SInt16(as_signed16(num_of(conv, d.subrange(q, q + 2))) as i16)
    } else if w == 4 {
        ValueModel::SInt32(as_signed32(num_of(conv, d.subrange(q, q + 4))) as i32)
    } else if w == 8 {
        ValueModel::SInt64(as_signed64(num_of(conv, d.subrange(q, q + 8))) as i64)
    } else {
        ValueModel::SInt128(as_signed128(num_of(conv, d.subrange(q, q + 16))) as i128)
    }
}

/// The unsigned argument read from `w` bytes at `q`.
pub open spec fn unsigned_value(conv: ByteConverter, d: Seq<u8>, q: int, w: int) -> ValueModel {
    if w == 1 {
        ValueModel::UInt8(num_of(conv, d.subrange(q, q + 1)) as u8)
    } else if w == 2 {
        ValueModel::UInt16(num_of(conv, d.subrange(q, q + 2)) as u16)
    } else if w == 4 {
        ValueModel::UInt32(num_of(conv, d.subrange(q, q + 4)) as u32)
    } else if w == 8 {
        ValueModel::UInt64(num_of(conv, d.subrange(q, q + 8)) as u64)
    } else {
        ValueModel::UInt128(num_of(conv, d.subrange(q, q + 16)) as u128)
    }
}

/// The sequence of arguments decoded from the region `[pos, end)` of `d`.
///
/// Decoding one argument reads its type-info word and dispatches on the
/// first set type bit. An unsupported kind or an undefined length yields a
/// single `Unsupported` value and stops; a region too short for the next
/// argument stops without a value; a string whose bytes are not valid
/// UTF-8 is skipped and decoding continues behind it.
pub open spec fn parse_args(
    d: Seq<u8>,
    pos: int,
    end: int,
    conv: ByteConverter,
    count: nat,
) -> Seq<ValueModel>
    decreases count,
{
    if count == 0 {
        Seq::empty()
    } else if !(0 <= pos && pos + 4 <= end && end <= d.len()) {
        Seq::empty()
    } else {
        let ti = num_of(conv, d.subrange(pos, pos + 4)) as u32;
        if ti_bool(ti) {
            if ti_tyle(ti) == 1 {
                if pos + 5 <= end {
                    seq![ValueModel::Bool(d[pos + 4] == 1)] + parse_args(
                        d,
                        pos + 5,
                        end,
                        conv,
                        (count - 1) as nat,
                    )
                } else {
                    Seq::empty()
                }
            } else {
                seq![ValueModel::Unsupported]
            }
        } else if ti_sint(ti) {
            if prim_width(ti) == 0 {
                seq![ValueModel::Unsupported]
            } else if pos + 4 + prim_width(ti) <= end {
                seq![signed_value(conv, d, pos + 4, prim_width(ti))] + parse_args(
                    d,
                    pos + 4 + prim_width(ti),
                    end,
                    conv,
                    (count - 1) as nat,
                )
            } else {
                Seq::empty()
            }
        } else if ti_uint(ti) {
            if prim_width(ti) == 0 {
                seq![ValueModel::Unsupported]
            } else if pos + 4 + prim_width(ti) <= end {
                seq![unsigned_value(conv, d, pos + 4, prim_width(ti))] + parse_args(
                    d,
                    pos + 4 + prim_width(ti),
                    end,
                    conv,
                    (count - 1) as nat,
                )
            } else {
                Seq::empty()
            }
        } else if ti_float(ti) || ti_array(ti) {
            seq![ValueModel::Unsupported]
        } else if ti_string(ti) {
            parse_string_arg(d, pos, end, conv, count, false)
        } else if ti_raw(ti) {
            seq![ValueModel::Unsupported]
        } else if ti_trai(ti) {
            parse_string_arg(d, pos, end, conv, count, true)
        } else {
            seq![ValueModel::Unsupported]
        }
    }
}

/// One length-prefixed string (or trace-info) argument followed by the
/// rest of the argument sequence.
pub open spec fn parse_string_arg(
    d: Seq<u8>,
    pos: int,
    end: int,
    conv: ByteConverter,
    count: nat,
    trace: bool,
) -> Seq<ValueModel>
    decreases count, 0nat,
{
    if count == 0 {
        Seq::empty()
    } else if pos + 6 <= end {
        let l = num_of(conv, d.subrange(pos + 4, pos + 6)) as int;
        if pos + 6 + l <= end {
            let bytes = d.subrange(pos + 6, pos + 6 + l);
            if ident_ok(bytes) {
                seq![
                    if trace {
                        ValueModel::TraceData(decoded_ident(bytes))
                    } else {
                        ValueModel::Str(decoded_ident(bytes))
                    },
                ] + parse_args(d, pos + 6 + l, end, conv, (count - 1) as nat)
            } else {
                parse_args(d, pos + 6 + l, end, conv, (count - 1) as nat)
            }
        } else {
            Seq::empty()
        }
    } else {
        Seq::empty()
    }
}

/// The single value a non-verbose payload decodes to: a 32-bit message id
/// followed by the remaining payload bytes.
pub open spec fn parse_non_verbose(d: Seq<u8>, pos: int, end: int, conv: ByteConverter) -> ValueModel {
    if 0 <= pos && pos + 4 <= end && end <= d.len() {
        ValueModel::NonVerbose(
            num_of(conv, d.subrange(pos, pos + 4)) as u32,
            d.subrange(pos + 4, end),
        )
    } else {
        ValueModel::Unsupported
    }
}

/// The payload region of one message.
pub struct Payload<'a> {
    pub data: &'a [u8],
    pub index: usize,
    pub end: usize,
    pub count: usize,
    pub is_big_endian: bool,
}

impl Payload<'_> {
    /// A payload running from `index` to the end of the buffer.
    pub fn new<'a>(data: &'a [u8], index: usize, is_big_endian: bool, count: usize) -> (r: Payload<
        'a,
    >)
        ensures
            r.data@ == data@,
            r.index == index,
            r.end == data@.len(),
            r.count == count,
            r.is_big_endian == is_big_endian,
    {
        let end = data.len();
        Payload { data, index, end, count, is_big_endian }
    }

    /// A verbose payload of `payload_size` bytes holding `count` typed
    /// arguments. The region is clamped to the buffer.
    pub fn new_verbose<'a>(
        data: &'a [u8],
        index: usize,
        payload_size: usize,
        is_big_endian: bool,
        count: usize,
    ) -> (r: Payload<'a>)
        ensures
            r.data@ == data@,
            r.index == index,
            r.end == spec_payload_end(data@.len() as int, index as int, payload_size as int),
            r.count == count,
            r.is_big_endian == is_big_endian,
    {
        let len = data.len();
        let end = if index >= len {
            len
        } else if payload_size > len - index {
            len
        } else {
            index + payload_size
        };
        Payload { data, index, end, count, is_big_endian }
    }

    /// A non-verbose payload of `payload_size` bytes. The region is
    /// clamped to the buffer.
    pub fn new_non_verbose<'a>(
        data: &'a [u8],
        index: usize,
        payload_size: usize,
        is_big_endian: bool,
    ) -> (r: Payload<'a>)
        ensures
            r.data@ == data@,
            r.index == index,
            r.end == spec_payload_end(data@.len() as int, index as int, payload_size as int),
            r.count == 0,
            r.is_big_endian == is_big_endian,
    {
        let len = data.len();
        let end = if index >= len {
            len
        } else if payload_size > len - index {
            len
        } else {
            index + payload_size
        };
        Payload { data, index, end, count: 0, is_big_endian }
    }

    pub fn iter<'a>(&'a self) -> (r: PayloadIter<'a>)
        ensures
            r.data@ == self.data@,
            r.index == self.index,
            r.end == self.end,
            r.count == self.count,
            r.converter == (if self.is_big_endian {
                ByteConverter::FromBigEndian
            } else {
                ByteConverter::FromLittleEndian
            }),
    {
        PayloadIter {
            data: self.data,
            index: self.index,
            end: self.end,
            count: self.count,
            converter: if self.is_big_endian {
                ByteConverter::FromBigEndian
            } else {
                ByteConverter::FromLittleEndian
            },
        }
    }

    /// Decodes the region as a non-verbose payload: a 32-bit message id in
    /// the message byte order, then the remaining bytes verbatim.
    pub fn read_non_verbose(&self) -> (r: Value)
        ensures
            r@ == parse_non_verbose(
                self.data@,
                self.index as int,
                self.end as int,
                if self.is_big_endian {
                    ByteConverter::FromBigEndian
                } else {
                    ByteConverter::FromLittleEndian
                },
            ),
    {
        let conv = if self.is_big_endian {
            ByteConverter::FromBigEndian
        } else {
            ByteConverter::FromLittleEndian
        };
        let len = self.data.len();
        if self.end > len || self.index > self.end || self.end - self.index < 4 {
            return Value::Unsupported;
        }
        let mut cur = Cursor::new(self.data, self.index);
        let id = match cur.read_u32(&conv) {
            Ok(v) => v,
            Err(_) => {
                return vstd::pervasive::unreached();
            },
        };
        let rest = vstd::slice::slice_subrange(self.data, self.index + 4, self.end);
        let bytes = vstd::slice::slice_to_vec(rest);
        Value::NonVerbose(id, bytes)
    }
}

/// Where a payload region of `size` bytes starting at `index` ends inside
/// a buffer of length `len`.
pub open spec fn spec_payload_end(len: int, index: int, size: int) -> int {
    if index >= len {
        len
    } else if index + size > len {
        len
    } else {
        index + size
    }
}

/// A decoder positioned over the typed arguments of a verbose payload.
pub struct PayloadIter<'a> {
    pub data: &'a [u8],
    pub index: usize,
    pub end: usize,
    pub count: usize,
    pub converter: ByteConverter,
}


impl<'a> PayloadIter<'a> {
    /// Decodes the arguments of the region in order.
    #[verifier::rlimit(100)]
    pub fn collect_values(&self) -> (r: Vec<Value>)
        ensures
            r.deep_view() == parse_args(
                self.data@,
                self.index as int,
                self.end as int,
                self.converter,
                self.count as nat,
            ),
    {
        let ghost d = self.data@;
        let ghost target = parse_args(
            self.data@,
            self.index as int,
            self.end as int,
            self.converter,
            self.count as nat,
        );
        let conv = self.converter;
        let end = self.end;
        let mut acc: Vec<Value> = Vec::new();
        let mut pos = self.index;
        let mut k = self.count;
        let len = self.data.len();
        if end > len || pos > end {
            proof {
                assert(target =~= Seq::<ValueModel>::empty());
                assert(acc.deep_view() =~= Seq::<ValueModel>::empty());
            }
            return acc;
        }
        while k > 0
            invariant
                end <= d.len(),
                pos <= end,
                d == self.data@,
                end == self.end,
                conv == self.converter,
                target == parse_args(
                    self.data@,
                    self.index as int,
                    self.end as int,
                    self.converter,
                    self.count as nat,
                ),
                acc.deep_view() + parse_args(d, pos as int, end as int, conv, k as nat) == target,
            decreases k,
        {
            let ghost acc0 = acc.deep_view();
            let ghost rest0 = parse_args(d, pos as int, end as int, conv, k as nat);
            if end - pos < 4 {
                proof {
                    assert(rest0 =~= Seq::<ValueModel>::empty());
                    assert(acc.deep_view() + rest0 =~= acc.deep_view());
                }
                return acc;
            }
            let mut cur = Cursor::new(self.data, pos);
            let ti = match cur.read_u32(&conv) {
                Ok(v) => v,
                Err(_) => {
                    return vstd::pervasive::unreached();
                },
            };
            let arg_type = Type::from_info(ti);
            let q = pos + 4;
            proof {
                lemma_width_matches(ti);
            }
            match arg_type {
                Type::Bool(info) => {
                    match info.length {
                        TypeLength::Bits8 => {},
                        _ => {
                            acc.push(Value::Unsupported);
                            proof {
                                assert(rest0 =~= seq![ValueModel::Unsupported]);
                                assert(acc.deep_view() =~= acc0.push(ValueModel::Unsupported));
                                assert(acc.deep_view() =~= acc0 + rest0);
                            }
                            return acc;
                        },
                    }
                    if end - q < 1 {
                        proof {
                            assert(rest0 =~= Seq::<ValueModel>::empty());
                            assert(acc.deep_view() + rest0 =~= acc.deep_view());
                        }
                        return acc;
                    }
                    let b = match cur.read_u8() {
                        Ok(v) => v,
                        Err(_) => {
                            return vstd::pervasive::unreached();
                        },
                    };
                    let v = Value::Bool(b == 1);
                    proof {
                        assert(rest0 =~= seq![ValueModel::Bool(d[q as int] == 1)] + parse_args(
                            d,
                            q + 1,
                            end as int,
                            conv,
                            (k - 1) as nat,
                        ));
                    }
                    acc.push(v);
                    pos = q + 1;
                    k = k - 1;
                    proof {
                        assert(acc.deep_view() =~= acc0.push(v@));
                        assert(acc.deep_view() + parse_args(d, pos as int, end as int, conv, k as nat)
                            =~= acc0 + rest0);
                    }
                },
                Type::Signed(info) => {
                    let w = width_of(info.length);
                    if w == 0 {
                        acc.push(Value::Unsupported);
                        proof {
                            assert(rest0 =~= seq![ValueModel::Unsupported]);
                            assert(acc.deep_view() =~= acc0.push(ValueModel::Unsupported));
                            assert(acc.deep_view() =~= acc0 + rest0);
                        }
                        return acc;
                    }
                    if end - q < w {
                        proof {
                            assert(rest0 =~= Seq::<ValueModel>::empty());
                            assert(acc.deep_view() + rest0 =~= acc.deep_view());
                        }
                        return acc;
                    }
                    let v = self.read_signed_prim(&info, q);
                    proof {
                        assert(rest0 =~= seq![signed_value(conv, d, q as int, w as int)]
                            + parse_args(d, q + w, end as int, conv, (k - 1) as nat));
                    }
                    acc.push(v);
                    pos = q + w;
                    k = k - 1;
                    proof {
                        assert(acc.deep_view() =~= acc0.push(v@));
                        assert(acc.deep_view() + parse_args(d, pos as int, end as int, conv, k as nat)
                            =~= acc0 + rest0);
                    }
                },
                Type::Unsigned(info) => {
                    let w = width_of(info.length);
                    if w == 0 {
                        acc.push(Value::Unsupported);
                        proof {
                            assert(rest0 =~= seq![ValueModel::Unsupported]);
                            assert(acc.deep_view() =~= acc0.push(ValueModel::Unsupported));
                            assert(acc.deep_view() =~= acc0 + rest0);
                        }
                        return acc;
                    }
                    if end - q < w {
                        proof {
                            assert(rest0 =~= Seq::<ValueModel>::empty());
                            assert(acc.deep_view() + rest0 =~= acc.deep_view());
                        }
                        return acc;
                    }
                    let v = self.read_unsigned_prim(&info, q);
                    proof {
                        assert(rest0 =~= seq![unsigned_value(conv, d, q as int, w as int)]
                            + parse_args(d, q + w, end as int, conv, (k - 1) as nat));
                    }
                    acc.push(v);
                    pos = q + w;
                    k = k - 1;
                    proof {
                        assert(acc.deep_view() =~= acc0.push(v@));
                        assert(acc.deep_view() + parse_args(d, pos as int, end as int, conv, k as nat)
                            =~= acc0 + rest0);
                    }
                },
                Type::Str(_) => {
                    proof {
                        reveal_with_fuel(parse_args, 2);
                        reveal_with_fuel(parse_string_arg, 2);
                        assert(rest0 == parse_string_arg(
                            d,
                            pos as int,
                            end as int,
                            conv,
                            k as nat,
                            false,
                        ));
                    }
                    match self.read_string_prim(q) {
                        StrRead::Got(s, consumed) => {
                            let ghost bytes = d.subrange(q + 2, q as int + consumed as int);
                            let v = Value::Str(s);
                            proof {
                                assert(rest0 =~= seq![ValueModel::Str(decoded_ident(bytes))]
                                    + parse_args(
                                    d,
                                    q + consumed,
                                    end as int,
                                    conv,
                                    (k - 1) as nat,
                                ));
                            }
                            acc.push(v);
                            pos = q + consumed;
                            k = k - 1;
                            proof {
                                assert(acc.deep_view() =~= acc0.push(v@));
                                assert(acc.deep_view() + parse_args(
                                    d,
                                    pos as int,
                                    end as int,
                                    conv,
                                    k as nat,
                                ) =~= acc0 + rest0);
                            }
                        },
                        StrRead::Skip(consumed) => {
                            proof {
                                assert(rest0 =~= parse_args(
                                    d,
                                    q + consumed,
                                    end as int,
                                    conv,
                                    (k - 1) as nat,
                                ));
                            }
                            pos = q + consumed;
                            k = k - 1;
                        },
                        StrRead::Stop => {
                            proof {
                                assert(rest0 =~= Seq::<ValueModel>::empty());
                                assert(acc.deep_view() + rest0 =~= acc.deep_view());
                            }
                            return acc;
                        },
                    }
                },
                Type::TraceInfo(_) => {
                    proof {
                        reveal_with_fuel(parse_args, 2);
                        reveal_with_fuel(parse_string_arg, 2);
                        assert(rest0 == parse_string_arg(
                            d,
                            pos as int,
                            end as int,
                            conv,
                            k as nat,
                            true,
                        ));
                    }
                    match self.read_string_prim(q) {
                        StrRead::Got(s, consumed) => {
                            let ghost bytes = d.subrange(q + 2, q as int + consumed as int);
                            let v = Value::TraceData(s);
                            proof {
                                assert(rest0 =~= seq![ValueModel::TraceData(decoded_ident(bytes))]
                                    + parse_args(
                                    d,
                                    q + consumed,
                                    end as int,
                                    conv,
                                    (k - 1) as nat,
                                ));
                            }
                            acc.push(v);
                            pos = q + consumed;
                            k = k - 1;
                            proof {
                                assert(acc.deep_view() =~= acc0.push(v@));
                                assert(acc.deep_view() + parse_args(
                                    d,
                                    pos as int,
                                    end as int,
                                    conv,
                                    k as nat,
                                ) =~= acc0 + rest0);
                            }
                        },
                        StrRead::Skip(consumed) => {
                            proof {
                                assert(rest0 =~= parse_args(
                                    d,
                                    q + consumed,
                                    end as int,
                                    conv,
                                    (k - 1) as nat,
                                ));
                            }
                            pos = q + consumed;
                            k = k - 1;
                        },
                        StrRead::Stop => {
                            proof {
                                assert(rest0 =~= Seq::<ValueModel>::empty());
                                assert(acc.deep_view() + rest0 =~= acc.deep_view());
                            }
                            return acc;
                        },
                    }
                },
                _ => {
                    acc.push(Value::Unsupported);
                    proof {
                        assert(rest0 =~= seq![ValueModel::Unsupported]);
                        assert(acc.deep_view() =~= acc0.push(ValueModel::Unsupported));
                        assert(acc.deep_view() =~= acc0 + rest0);
                    }
                    return acc;
                },
            }
        }
        proof {
            assert(parse_args(d, pos as int, end as int, conv, 0nat) =~= Seq::<
                ValueModel,
            >::empty());
            assert(acc.deep_view() + Seq::<ValueModel>::empty() =~= acc.deep_view());
        }
        acc
    }

    /// Reads one signed primitive of the width `info` selects at `q`.
    fn read_signed_prim(&self, info: &TypeInfo, q: usize) -> (r: Value)
        requires
            self.end <= self.data@.len(),
            spec_width_of(info.length) > 0,
            q + spec_width_of(info.length) <= self.end,
        ensures
            r@ == signed_value(self.converter, self.data@, q as int, spec_width_of(info.length)),
    {
        let conv = self.converter;
        let mut cur = Cursor::new(self.data, q);
        match info.length {
            TypeLength::Bits8 => {
                match cur.read_u8() {
                    Ok(b) => {
                        proof {
                            lemma_num_of_single(conv, self.data@.subrange(q as int, q + 1));
                        }
                        Value::SInt8(to_i8(b))
                    },
                    Err(_) => vstd::pervasive::unreached(),
                }
            },
            TypeLength::Bits16 => {
                match cur.read_u16(&conv) {
                    Ok(v) => Value::SInt16(to_i16(v)),
                    Err(_) => vstd::pervasive::unreached(),
                }
            },
            TypeLength::Bits32 => {
                match cur.read_u32(&conv) {
                    Ok(v) => Value::SInt32(to_i32(v)),
                    Err(_) => vstd::pervasive::unreached(),
                }
            },
            TypeLength::Bits64 => {
                match cur.read_u64(&conv) {
                    Ok(v) => Value::SInt64(to_i64(v)),
                    Err(_) => vstd::pervasive::unreached(),
                }
            },
            TypeLength::Bits128 => {
                match cur.read_u128(&conv) {
                    Ok(v) => Value::SInt128(to_i128(v)),
                    Err(_) => vstd::pervasive::unreached(),
                }
            },
            TypeLength::Undefined => vstd::pervasive::unreached(),
        }
    }

    /// Reads one unsigned primitive of the width `info` selects at `q`.
    fn read_unsigned_prim(&self, info: &TypeInfo, q: usize) -> (r: Value)
        requires
            self.end <= self.data@.len(),
            spec_width_of(info.length) > 0,
            q + spec_width_of(info.length) <= self.end,
        ensures
            r@ == unsigned_value(self.converter, self.data@, q as int, spec_width_of(info.length)),
    {
        let conv = self.converter;
        let mut cur = Cursor::new(self.data, q);
        match info.length {
            TypeLength::Bits8 => {
                match cur.read_u8() {
                    Ok(b) => {
                        proof {
                            lemma_num_of_single(conv, self.data@.subrange(q as int, q + 1));
                        }
                        Value::UInt8(b)
                    },
                    Err(_) => vstd::pervasive::unreached(),
                }
            },
            TypeLength::Bits16 => {
                match cur.read_u16(&conv) {
                    Ok(v) => Value::UInt16(v),
                    Err(_) => vstd::pervasive::unreached(),
                }
            },
            TypeLength::Bits32 => {
                match cur.read_u32(&conv) {
                    Ok(v) => Value::UInt32(v),
                    Err(_) => vstd::pervasive::unreached(),
                }
            },
            TypeLength::Bits64 => {
                match cur.read_u64(&conv) {
                    Ok(v) => Value::UInt64(v),
                    Err(_) => vstd::pervasive::unreached(),
                }
            },
            TypeLength::Bits128 => {
                match cur.read_u128(&conv) {
                    Ok(v) => Value::UInt128(v),
                    Err(_) => vstd::pervasive::unreached(),
                }
            },
            TypeLength::Undefined => vstd::pervasive::unreached(),
        }
    }

    /// Reads the 16-bit length and the string bytes of one string-typed
    /// argument whose type-info word ends at `q`.
    fn read_string_prim(&self, q: usize) -> (r: StrRead)
        requires
            self.end <= self.data@.len(),
            q <= self.end,
        ensures
            ({
                let d = self.data@;
                let end = self.end as int;
                let conv = self.converter;
                match r {
                    StrRead::Got(s, consumed) => q + 2 <= end && consumed == 2 + num_of(
                        conv,
                        d.subrange(q as int, q + 2),
                    ) && q + consumed <= end && ident_ok(d.subrange(q + 2, q + consumed)) && s@
                        == decoded_ident(d.subrange(q + 2, q + consumed)),
                    StrRead::Skip(consumed) => q + 2 <= end && consumed == 2 + num_of(
                        conv,
                        d.subrange(q as int, q + 2),
                    ) && q + consumed <= end && !ident_ok(d.subrange(q + 2, q + consumed)),
                    StrRead::Stop => q + 2 > end || q + 2 + num_of(
                        conv,
                        d.subrange(q as int, q + 2),
                    ) > end,
                }
            }),
    {
        let conv = self.converter;
        let end = self.end;
        if end - q < 2 {
            return StrRead::Stop;
        }
        let mut cur = Cursor::new(self.data, q);
        let l = match cur.read_u16(&conv) {
            Ok(v) => v,
            Err(_) => {
                return vstd::pervasive::unreached();
            },
        };
        if (l as usize) > end - (q + 2) {
            return StrRead::Stop;
        }
        match cur.read_trimmed(l as usize) {
            Ok(s) => StrRead::Got(s, 2 + l as usize),
            Err(DltError::InvalidUtf8) => StrRead::Skip(2 + l as usize),
            Err(_) => vstd::pervasive::unreached(),
        }
    }
}

/// The outcome of decoding one string-typed argument.
enum StrRead {
    Got(String, usize),
    Skip(usize),
    Stop,
}

/// The byte width a length class selects, or zero for `Undefined`.
pub open spec fn spec_width_of(l: TypeLength) -> int {
    match l {
        TypeLength::Bits8 => 1,
        TypeLength::Bits16 => 2,
        TypeLength::Bits32 => 4,
        TypeLength::Bits64 => 8,
        TypeLength::Bits128 => 16,
        TypeLength::Undefined => 0,
    }
}

fn width_of(l: TypeLength) -> (w: usize)
    ensures
        w == spec_width_of(l),
{
    match l {
        TypeLength::Bits8 => 1,
        TypeLength::Bits16 => 2,
        TypeLength::Bits32 => 4,
        TypeLength::Bits64 => 8,
        TypeLength::Bits128 => 16,
        TypeLength::Undefined => 0,
    }
}

/// The width carried inside a type-info's length class agrees with the
/// width computed from the raw length bits.
proof fn lemma_width_matches(ti: u32)
    ensures
        spec_width_of(spec_type_info(ti).length) == prim_width(ti),
{
    assert(ti & 0x000F < 16) by (bit_vector);
}

/// A single byte names the same value in either byte order.
proof fn lemma_num_of_single(conv: ByteConverter, s: Seq<u8>)
    requires
        s.len() == 1,
    ensures
        num_of(conv, s) == s[0],
{
    reveal_with_fuel(crate::dlt::cursor::be_nat, 2);
    reveal_with_fuel(crate::dlt::cursor::le_nat, 2);
    assert(s.drop_last() =~= Seq::<u8>::empty());
    assert(s.drop_first() =~= Seq::<u8>::empty());
    assert(s.last() == s[0]);
    assert(s.first() == s[0]);
}

} // verus!
