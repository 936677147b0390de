//! What a column decode consumes and produces: pages, row filters, nesting
//! descriptors, and the typed output array with its validity bitmap.
use vstd::prelude::*;

verus! {

use crate::convert::{DaysMs, I256};
use crate::types::{IntegerType, LogicalDType};

/// One decompressed page of a column: the raw bytes of its non-null values,
/// densely packed in on-disk order, and one validity bit per row.
pub struct Page {
    pub buffer: Vec<u8>,
    pub validity: Vec<bool>,
}

/// A row-selection predicate: a contiguous range of row indices, or one keep
/// bit per row.  It never changes how a value decodes, only whether the row
/// is materialized.
pub enum Filter {
    Range(usize, usize),
    Mask(Vec<bool>),
}

/// A nesting descriptor: one level of list/struct structure above the leaf,
/// with whether that level admits nulls.
#[derive(Clone, Copy, Debug, PartialEq, Eq, Structural)]
pub enum InitNested {
    Primitive(bool),
    List(bool),
    Struct(bool),
}

/// Progress of one nesting level after a decode.
#[derive(Clone, Copy, Debug, PartialEq, Eq, Structural)]
pub struct NestedLevel {
    pub init: InitNested,
    pub length: usize,
}

/// The nesting state handed back for a nested column: one record per
/// requested level.
#[derive(Debug, PartialEq, Eq)]
pub struct NestedState {
    pub levels: Vec<NestedLevel>,
}

/// Typed key storage of a dictionary array, at the declared key width.
/// Keys are dictionary indices, so the signed widths never hold a negative.
#[derive(Debug, PartialEq, Eq)]
pub enum DictKeys {
    I8(Vec<i8>),
    I16(Vec<i16>),
    I32(Vec<i32>),
    I64(Vec<i64>),
    U8(Vec<u8>),
    U16(Vec<u16>),
    U32(Vec<u32>),
    U64(Vec<u64>),
}

/// The values of a decoded column, one slot per materialized row; null rows
/// hold the type's zero (or empty) value and are marked by the bitmap.
/// Float arrays carry bit patterns: decoding never does float arithmetic.
#[derive(Debug, PartialEq, Eq)]
pub enum ArrayData {
    Null(usize),
    Boolean(Vec<bool>),
    Int8(Vec<i8>),
    Int16(Vec<i16>),
    Int32(Vec<i32>),
    Int64(Vec<i64>),
    Int128(Vec<i128>),
    Int256(Vec<I256>),
    UInt8(Vec<u8>),
    UInt16(Vec<u16>),
    UInt32(Vec<u32>),
    UInt64(Vec<u64>),
    Float32Bits(Vec<u32>),
    Float64Bits(Vec<u64>),
    DaysMs(Vec<DaysMs>),
    FixedSizeBinary(usize, Vec<u8>),
    VarBinary(Vec<Vec<u8>>),
    Dictionary(DictKeys, Vec<Vec<u8>>),
}

/// A decoded column: the requested dtype and the materialized values.
#[derive(Debug)]
pub struct Array {
    pub dtype: LogicalDType,
    pub data: ArrayData,
}

/// The mathematical reading of `ArrayData`, for contracts and laws.
pub enum DataV {
    Null(nat),
    Bool(Seq<bool>),
    I8(Seq<i8>),
    I16(Seq<i16>),
    I32(Seq<i32>),
    I64(Seq<i64>),
    I128(Seq<i128>),
    I256(Seq<I256>),
    U8(Seq<u8>),
    U16(Seq<u16>),
    U32(Seq<u32>),
    U64(Seq<u64>),
    F32Bits(Seq<u32>),
    F64Bits(Seq<u64>),
    DaysMs(Seq<DaysMs>),
    Fixed(nat, Seq<u8>),
    VarBin(Seq<Seq<u8>>),
    Dict(IntegerType, Seq<nat>, Seq<Seq<u8>>),
}

/// The view of decoded data: sequences in place of vectors, dictionary keys
/// widened to naturals beside their declared width.
pub open spec fn data_view(d: ArrayData) -> DataV {
    match d {
        ArrayData::Null(n) => DataV::Null(n as nat),
        ArrayData::Boolean(v) => DataV::Bool(v@),
        ArrayData::Int8(v) => DataV::I8(v@),
        ArrayData::Int16(v) => DataV::I16(v@),
        ArrayData::Int32(v) => DataV::I32(v@),
        ArrayData::Int64(v) => DataV::I64(v@),
        ArrayData::Int128(v) => DataV::I128(v@),
        ArrayData::Int256(v) => DataV::I256(v@),
        ArrayData::UInt8(v) => DataV::U8(v@),
        ArrayData::UInt16(v) => DataV::U16(v@),
        ArrayData::UInt32(v) => DataV::U32(v@),
        ArrayData::UInt64(v) => DataV::U64(v@),
        ArrayData::Float32Bits(v) => DataV::F32Bits(v@),
        ArrayData::Float64Bits(v) => DataV::F64Bits(v@),
        ArrayData::DaysMs(v) => DataV::DaysMs(v@),
        ArrayData::FixedSizeBinary(n, v) => DataV::Fixed(n as nat, v@),
        ArrayData::VarBinary(v) => DataV::VarBin(v.deep_view()),
        ArrayData::Dictionary(keys, values) => DataV::Dict(
            dict_keys_width(keys),
            dict_keys_view(keys),
            values.deep_view(),
        ),
    }
}

/// The declared width of a dictionary key vector.
pub open spec fn dict_keys_width(k: DictKeys) -> IntegerType {
    match k {
        DictKeys::I8(_) => IntegerType::Int8,
        DictKeys::I16(_) => IntegerType::Int16,
        DictKeys::I32(_) => IntegerType::Int32,
        DictKeys::I64(_) => IntegerType::Int64,
        DictKeys::U8(_) => IntegerType::UInt8,
        DictKeys::U16(_) => IntegerType::UInt16,
        DictKeys::U32(_) => IntegerType::UInt32,
        DictKeys::U64(_) => IntegerType::UInt64,
    }
}

/// Dictionary keys read as plain naturals.
pub open spec fn dict_keys_view(k: DictKeys) -> Seq<nat> {
    match k {
        DictKeys::I8(v) => v@.map_values(|x: i8| x as nat),
        DictKeys::I16(v) => v@.map_values(|x: i16| x as nat),
        DictKeys::I32(v) => v@.map_values(|x: i32| x as nat),
        DictKeys::I64(v) => v@.map_values(|x: i64| x as nat),
        DictKeys::U8(v) => v@.map_values(|x: u8| x as nat),
        DictKeys::U16(v) => v@.map_values(|x: u16| x as nat),
        DictKeys::U32(v) => v@.map_values(|x: u32| x as nat),
        DictKeys::U64(v) => v@.map_values(|x: u64| x as nat),
    }
}

} // verus!
