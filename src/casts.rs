//! Decoding of one value of a statically chosen numeric type from a byte
//! source: big-endian for every type, floats kept as their IEEE-754 bits.

use vstd::prelude::*;
use crate::source::{ByteSource, ReadError, be_nat, pow256, lemma_pow256_widths};

verus! {

/// The element types of the format.
#[derive(Debug, Clone, Copy, PartialEq, Eq, Structural)]
pub enum NumericKind {
    U8,
    I8,
    I16,
    I32,
    F32,
    F64,
}

/// The element type that a type-tag byte names, if any.
pub open spec fn kind_of_tag(tag: u8) -> Option<NumericKind> {
    if tag == 0x08 {
        Some(NumericKind::U8)
    } else if tag == 0x09 {
        Some(NumericKind::I8)
    } else if tag == 0x0B {
        Some(NumericKind::I16)
    } else if tag == 0x0C {
        Some(NumericKind::I32)
    } else if tag == 0x0D {
        Some(NumericKind::F32)
    } else if tag == 0x0E {
        Some(NumericKind::F64)
    } else {
        None
    }
}

impl NumericKind {
    /// Bytes per element.
    pub open spec fn spec_width(self) -> nat {
        match self {
            NumericKind::U8 => 1,
            NumericKind::I8 => 1,
            NumericKind::I16 => 2,
            NumericKind::I32 => 4,
            NumericKind::F32 => 4,
            NumericKind::F64 => 8,
        }
    }

    /// Bytes per element.
    pub fn width(&self) -> (w: usize)
        ensures
            w == self.spec_width(),
    {
        match self {
            NumericKind::U8 => 1,
            NumericKind::I8 => 1,
            NumericKind::I16 => 2,
            NumericKind::I32 => 4,
            NumericKind::F32 => 4,
            NumericKind::F64 => 8,
        }
    }

    /// The element type that a type-tag byte names; `None` for a reserved
    /// or unknown tag.
    pub fn from_tag(tag: u8) -> (r: Option<NumericKind>)
        ensures
            r == kind_of_tag(tag),
    {
        match tag {
            0x08 => Some(NumericKind::U8),
            0x09 => Some(NumericKind::I8),
            0x0B => Some(NumericKind::I16),
            0x0C => Some(NumericKind::I32),
            0x0D => Some(NumericKind::F32),
            0x0E => Some(NumericKind::F64),
            _ => None,
        }
    }
}

/// The two's-complement reading of an unsigned number `v` whose sign bit is
/// worth `half`.
pub open spec fn signed_of(v: nat, half: nat) -> int {
    if v >= half {
        v - 2 * half
    } else {
        v as int
    }
}

/// The bit pattern of an IEEE-754 single-precision float.
#[derive(Debug, Clone, Copy, PartialEq, Eq, Structural)]
pub struct F32Bits {
    pub bits: u32,
}

/// The bit pattern of an IEEE-754 double-precision float.
#[derive(Debug, Clone, Copy, PartialEq, Eq, Structural)]
pub struct F64Bits {
    pub bits: u64,
}

/// A type that can be read from a byte source as a fixed-width big-endian
/// window.
pub trait ValueExtractor: Sized {
    /// Bytes per value.
    spec fn byte_width() -> nat;

    /// The value that a window of `byte_width()` bytes encodes.
    spec fn from_be(b: Seq<u8>) -> Self;

    /// Reads one value. Fails, consuming nothing, when fewer than
    /// `byte_width()` bytes are left.
    fn extract(src: &mut ByteSource) -> (r: Result<Self, ReadError>)
        requires
            old(src).wf(),
        ensures
            final(src).wf(),
            final(src).all() == old(src).all(),
            old(src).rest().len() >= Self::byte_width() ==> {
                &&& r == Ok::<Self, ReadError>(
                    Self::from_be(old(src).rest().take(Self::byte_width() as int)),
                )
                &&& final(src).consumed() == old(src).consumed() + Self::byte_width()
            },
            old(src).rest().len() < Self::byte_width() ==> {
                &&& r == Err::<Self, ReadError>(ReadError::UnexpectedEnd)
                &&& final(src).consumed() == old(src).consumed()
            },
    ;
}

impl ValueExtractor for u8 {
    open spec fn byte_width() -> nat {
        1
    }

    open spec fn from_be(b: Seq<u8>) -> u8 {
        be_nat(b) as u8
    }

    fn extract(src: &mut ByteSource) -> (r: Result<u8, ReadError>) {
        proof {
            lemma_pow256_widths();
        }
        match src.read_be(1) {
            Ok(v) => Ok(v as u8),
            Err(e) => Err(e),
        }
    }
}

impl ValueExtractor for i8 {
    open spec fn byte_width() -> nat {
        1
    }

    open spec fn from_be(b: Seq<u8>) -> i8 {
        signed_of(be_nat(b), 0x80) as i8
    }

    fn extract(src: &mut ByteSource) -> (r: Result<i8, ReadError>) {
        proof {
            lemma_pow256_widths();
        }
        match src.read_be(1) {
            Ok(v) => {
                if v >= 0x80 {
                    Ok((v as i16 - 0x100) as i8)
                } else {
                    Ok(v as i8)
                }
            },
            Err(e) => Err(e),
        }
    }
}

impl ValueExtractor for i16 {
    open spec fn byte_width() -> nat {
        2
    }

    open spec fn from_be(b: Seq<u8>) -> i16 {
        signed_of(be_nat(b), 0x8000) as i16
    }

    fn extract(src: &mut ByteSource) -> (r: Result<i16, ReadError>) {
        proof {
            lemma_pow256_widths();
        }
        match src.read_be(2) {
            Ok(v) => {
                if v >= 0x8000 {
                    Ok((v as i32 - 0x1_0000) as i16)
                } else {
                    Ok(v as i16)
                }
            },
            Err(e) => Err(e),
        }
    }
}

impl ValueExtractor for u32 {
    open spec fn byte_width() -> nat {
        4
    }

    open spec fn from_be(b: Seq<u8>) -> u32 {
        be_nat(b) as u32
    }

    fn extract(src: &mut ByteSource) -> (r: Result<u32, ReadError>) {
        proof {
            lemma_pow256_widths();
        }
        match src.read_be(4) {
            Ok(v) => Ok(v as u32),
            Err(e) => Err(e),
        }
    }
}

impl ValueExtractor for i32 {
    open spec fn byte_width() -> nat {
        4
    }

    open spec fn from_be(b: Seq<u8>) -> i32 {
        signed_of(be_nat(b), 0x8000_0000) as i32
    }

    fn extract(src: &mut ByteSource) -> (r: Result<i32, ReadError>) {
        proof {
            lemma_pow256_widths();
        }
        match src.read_be(4) {
            Ok(v) => {
                if v >= 0x8000_0000 {
                    Ok((v as i64 - 0x1_0000_0000) as i32)
                } else {
                    Ok(v as i32)
                }
            },
            Err(e) => Err(e),
        }
    }
}

impl ValueExtractor for F32Bits {
    open spec fn byte_width() -> nat {
        4
    }

    open spec fn from_be(b: Seq<u8>) -> F32Bits {
        F32Bits { bits: be_nat(b) as u32 }
    }

    fn extract(src: &mut ByteSource) -> (r: Result<F32Bits, ReadError>) {
        proof {
            lemma_pow256_widths();
        }
        match src.read_be(4) {
            Ok(v) => Ok(F32Bits { bits: v as u32 }),
            Err(e) => Err(e),
        }
    }
}

impl ValueExtractor for F64Bits {
    open spec fn byte_width() -> nat {
        8
    }

    open spec fn from_be(b: Seq<u8>) -> F64Bits {
        F64Bits { bits: be_nat(b) as u64 }
    }

    fn extract(src: &mut ByteSource) -> (r: Result<F64Bits, ReadError>) {
        match src.read_be(8) {
            Ok(v) => Ok(F64Bits { bits: v }),
            Err(e) => Err(e),
        }
    }
}

/// An element type of the format, with the kind that names it.
pub trait Element: ValueExtractor {
    spec fn spec_kind() -> NumericKind;

    /// A value takes as many bytes as its kind declares.
    proof fn lemma_width_of_kind()
        ensures
            Self::byte_width() == Self::spec_kind().spec_width(),
    ;

    fn kind() -> (k: NumericKind)
        ensures
            k == Self::spec_kind(),
            Self::byte_width() == k.spec_width(),
    ;
}

impl Element for u8 {
    open spec fn spec_kind() -> NumericKind {
        NumericKind::U8
    }

    proof fn lemma_width_of_kind() {
    }

    fn kind() -> (k: NumericKind) {
        NumericKind::U8
    }
}

impl Element for i8 {
    open spec fn spec_kind() -> NumericKind {
        NumericKind::I8
    }

    proof fn lemma_width_of_kind() {
    }

    fn kind() -> (k: NumericKind) {
        NumericKind::I8
    }
}

impl Element for i16 {
    open spec fn spec_kind() -> NumericKind {
        NumericKind::I16
    }

    proof fn lemma_width_of_kind() {
    }

    fn kind() -> (k: NumericKind) {
        NumericKind::I16
    }
}

impl Element for i32 {
    open spec fn spec_kind() -> NumericKind {
        NumericKind::I32
    }

    proof fn lemma_width_of_kind() {
    }

    fn kind() -> (k: NumericKind) {
        NumericKind::I32
    }
}

impl Element for F32Bits {
    open spec fn spec_kind() -> NumericKind {
        NumericKind::F32
    }

    proof fn lemma_width_of_kind() {
    }

    fn kind() -> (k: NumericKind) {
        NumericKind::F32
    }
}

impl Element for F64Bits {
    open spec fn spec_kind() -> NumericKind {
        NumericKind::F64
    }

    proof fn lemma_width_of_kind() {
    }

    fn kind() -> (k: NumericKind) {
        NumericKind::F64
    }
}

/// One element, tagged with its kind.
#[derive(Debug, Clone, Copy, PartialEq, Eq, Structural)]
pub enum Value {
    U8(u8),
    I8(i8),
    I16(i16),
    I32(i32),
    F32(F32Bits),
    F64(F64Bits),
}

/// The element of kind `k` that the window `b` encodes.
pub open spec fn value_from_be(k: NumericKind, b: Seq<u8>) -> Value {
    match k {
        NumericKind::U8 => Value::U8(<u8 as ValueExtractor>::from_be(b)),
        NumericKind::I8 => Value::I8(<i8 as ValueExtractor>::from_be(b)),
        NumericKind::I16 => Value::I16(<i16 as ValueExtractor>::from_be(b)),
        NumericKind::I32 => Value::I32(<i32 as ValueExtractor>::from_be(b)),
        NumericKind::F32 => Value::F32(<F32Bits as ValueExtractor>::from_be(b)),
        NumericKind::F64 => Value::F64(<F64Bits as ValueExtractor>::from_be(b)),
    }
}

impl Value {
    pub open spec fn spec_kind(self) -> NumericKind {
        match self {
            Value::U8(_) => NumericKind::U8,
            Value::I8(_) => NumericKind::I8,
            Value::I16(_) => NumericKind::I16,
            Value::I32(_) => NumericKind::I32,
            Value::F32(_) => NumericKind::F32,
            Value::F64(_) => NumericKind::F64,
        }
    }

    /// The kind of this element.
    pub fn kind(&self) -> (k: NumericKind)
        ensures
            k == self.spec_kind(),
    {
        match self {
            Value::U8(_) => NumericKind::U8,
            Value::I8(_) => NumericKind::I8,
            Value::I16(_) => NumericKind::I16,
            Value::I32(_) => NumericKind::I32,
            Value::F32(_) => NumericKind::F32,
            Value::F64(_) => NumericKind::F64,
        }
    }

    /// Reads one element of kind `k`. Fails, consuming nothing, when fewer
    /// than the kind's width of bytes are left.
    pub fn extract(k: NumericKind, src: &mut ByteSource) -> (r: Result<Value, ReadError>)
        requires
            old(src).wf(),
        ensures
            final(src).wf(),
            final(src).all() == old(src).all(),
            old(src).rest().len() >= k.spec_width() ==> {
                &&& r == Ok::<Value, ReadError>(
                    value_from_be(k, old(src).rest().take(k.spec_width() as int)),
                )
                &&& final(src).consumed() == old(src).consumed() + k.spec_width()
            },
            old(src).rest().len() < k.spec_width() ==> {
                &&& r == Err::<Value, ReadError>(ReadError::UnexpectedEnd)
                &&& final(src).consumed() == old(src).consumed()
            },
    {
        match k {
            NumericKind::U8 => match u8::extract(src) {
                Ok(v) => Ok(Value::U8(v)),
                Err(e) => Err(e),
            },
            NumericKind::I8 => match i8::extract(src) {
                Ok(v) => Ok(Value::I8(v)),
                Err(e) => Err(e),
            },
            NumericKind::I16 => match i16::extract(src) {
                Ok(v) => Ok(Value::I16(v)),
                Err(e) => Err(e),
            },
            NumericKind::I32 => match i32::extract(src) {
                Ok(v) => Ok(Value::I32(v)),
                Err(e) => Err(e),
            },
            NumericKind::F32 => match F32Bits::extract(src) {
                Ok(v) => Ok(Value::F32(v)),
                Err(e) => Err(e),
            },
            NumericKind::F64 => match F64Bits::extract(src) {
                Ok(v) => Ok(Value::F64(v)),
                Err(e) => Err(e),
            },
        }
    }
}

} // verus!
