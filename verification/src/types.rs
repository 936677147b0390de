//! The type vocabulary of a column decode: physical (on-disk) types, logical
//! (requested in-memory) dtypes, field descriptors, and the error surface.
use vstd::prelude::*;

verus! {

/// The on-disk encoding of a column's values, fixed for a column chunk.
#[derive(Clone, Copy, Debug, PartialEq, Eq, Structural)]
pub enum PhysicalType {
    Boolean,
    Int32,
    Int64,
    Int96,
    Float,
    Double,
    ByteArray,
    FixedLenByteArray(usize),
}

/// Time resolution of an in-memory temporal type.
#[derive(Clone, Copy, Debug, PartialEq, Eq, Structural)]
pub enum TimeUnit {
    Second,
    Millisecond,
    Microsecond,
    Nanosecond,
}

/// Time resolution declared by the on-disk logical annotation.  The on-disk
/// format has no second resolution.
#[derive(Clone, Copy, Debug, PartialEq, Eq, Structural)]
pub enum ParquetTimeUnit {
    Milliseconds,
    Microseconds,
    Nanoseconds,
}

/// Flavor of a calendar interval value.
#[derive(Clone, Copy, Debug, PartialEq, Eq, Structural)]
pub enum IntervalUnit {
    YearMonth,
    DayTime,
}

/// Width and signedness of a dictionary key type.
#[derive(Clone, Copy, Debug, PartialEq, Eq, Structural)]
pub enum IntegerType {
    Int8,
    Int16,
    Int32,
    Int64,
    UInt8,
    UInt16,
    UInt32,
    UInt64,
}

/// The on-disk logical annotation attached to a primitive column, refining
/// its physical type.  Decoding only consults the `Timestamp` variant.
#[derive(Clone, Copy, Debug, PartialEq, Eq, Structural)]
pub enum PrimitiveLogicalType {
    String,
    Enum,
    Date,
    Decimal(usize, usize),
    Time { unit: ParquetTimeUnit, is_adjusted_to_utc: bool },
    Timestamp { unit: ParquetTimeUnit, is_adjusted_to_utc: bool },
}

/// The semantic in-memory type a caller requests for a column.
#[derive(Debug, PartialEq, Eq)]
pub enum LogicalDType {
    Null,
    Boolean,
    Int8,
    Int16,
    Int32,
    Int64,
    Int128,
    UInt8,
    UInt16,
    UInt32,
    UInt64,
    Float32,
    Float64,
    Decimal(usize, usize),
    Decimal256(usize, usize),
    Date32,
    Date64,
    Time32(TimeUnit),
    Time64(TimeUnit),
    Timestamp(TimeUnit, Option<String>),
    Duration(TimeUnit),
    Interval(IntervalUnit),
    FixedSizeBinary(usize),
    Binary,
    Utf8,
    LargeBinary,
    LargeUtf8,
    BinaryView,
    Utf8View,
    Dictionary(IntegerType, Box<LogicalDType>, bool),
}

/// The declared physical type of a column together with its on-disk logical
/// annotation.
#[derive(Clone, Copy, Debug, PartialEq, Eq, Structural)]
pub struct PrimitiveType {
    pub physical_type: PhysicalType,
    pub logical_type: Option<PrimitiveLogicalType>,
}

/// A column as the caller sees it: a name, the requested dtype, and optional
/// key/value metadata whose marker keys steer dictionary decoding.
#[derive(Debug)]
pub struct Field {
    pub name: String,
    pub dtype: LogicalDType,
    pub metadata: Option<Vec<(String, String)>>,
}

/// Why a column decode failed.  An unsupported conversion names both sides;
/// everything structural (a page buffer whose length disagrees with its
/// validity, a filter mask of the wrong length) is fatal for the column.
#[derive(Debug, PartialEq, Eq)]
pub enum DecodeError {
    NotSupported { from: PhysicalType, to: LogicalDType },
    Malformed,
}

/// Metadata keys that mark a column as an enum or categorical one: the two
/// current spellings and the two legacy spellings.
pub open spec fn is_marker_key(s: Seq<char>) -> bool {
    ||| s == "_PL_ENUM_VALUES"@
    ||| s == "_PL_CATEGORICAL"@
    ||| s == "PL.ENUM_VALUES"@
    ||| s == "PL.CATEGORICAL"@
}

/// Whether some metadata entry carries an enum/categorical marker key.
pub open spec fn metadata_has_marker(m: Seq<(String, String)>) -> bool {
    exists|i: int| 0 <= i < m.len() && is_marker_key(#[trigger] m[i].0@)
}

/// Whether the field's metadata, if any, carries an enum/categorical marker.
pub open spec fn spec_has_marker(metadata: Option<Vec<(String, String)>>) -> bool {
    match metadata {
        Some(m) => metadata_has_marker(m@),
        None => false,
    }
}

/// Scans the metadata for one of the enum/categorical marker keys.
pub fn has_enum_marker(metadata: &Option<Vec<(String, String)>>) -> (r: bool)
    ensures
        r == spec_has_marker(*metadata),
{
    match metadata.as_ref() {
        None => false,
        Some(m) => {
            let enum_legacy: String = "_PL_ENUM_VALUES".to_owned();
            let cat_legacy: String = "_PL_CATEGORICAL".to_owned();
            let enum_new: String = "PL.ENUM_VALUES".to_owned();
            let cat_new: String = "PL.CATEGORICAL".to_owned();
            let n: usize = m.len();
            let mut i: usize = 0;
            while i < n
                invariant
                    *metadata is Some,
                    (*metadata)->0 == *m,
                    n == m@.len(),
                    0 <= i <= n,
                    forall|j: int| 0 <= j < i ==> !is_marker_key(#[trigger] m@[j].0@),
                    enum_legacy@ == "_PL_ENUM_VALUES"@,
                    cat_legacy@ == "_PL_CATEGORICAL"@,
                    enum_new@ == "PL.ENUM_VALUES"@,
                    cat_new@ == "PL.CATEGORICAL"@,
                decreases n - i,
            {
                let key = &m[i].0;
                if *key == enum_legacy || *key == cat_legacy || *key == enum_new || *key
                    == cat_new {
                    proof {
                        assert(m@[i as int].0 == *key);
                        assert(is_marker_key(m@[i as int].0@));
                        assert(metadata_has_marker(m@));
                        assert(metadata->0 == *m);
                        assert(spec_has_marker(*metadata));
                    }
                    return true;
                }
                i = i + 1;
            }
            false
        },
    }
}

} // verus!
