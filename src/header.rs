//! The file header: a zero magic prefix, a type tag, a dimension count and
//! that many big-endian unsigned 32-bit dimension sizes.

use vstd::prelude::*;
use crate::source::{ByteSource, ReadError, be_nat, lemma_be_nat_bound, lemma_pow256_widths};
use crate::casts::{NumericKind, ValueExtractor, kind_of_tag};

verus! {

/// Why a file could not be opened or read.
#[derive(Debug, Clone, Copy, PartialEq, Eq, Structural)]
pub enum IdxErr {
    /// The byte source failed or ended early.
    IOError(ReadError),
    /// The first two bytes are not both zero.
    WrongHeader,
    /// The type tag names no element type.
    UnknownDataType,
    /// The element type asked for is not the one the header declares.
    TypeMismatch,
}

/// What a header holds, as mathematical values.
pub struct HeaderView {
    pub kind: NumericKind,
    pub dims: Seq<u32>,
}

/// A parsed header: the element type and the dimension sizes, outermost first.
#[derive(Debug)]
pub struct Header {
    kind: NumericKind,
    dimensions: Vec<u32>,
}

/// The number of dimensions that a header starting `s` declares.
pub open spec fn dim_count(s: Seq<u8>) -> nat {
    s[3] as nat
}

/// The number of bytes of a header starting `s`.
pub open spec fn header_len(s: Seq<u8>) -> nat {
    4 + 4 * dim_count(s)
}

/// The four bytes of dimension `i` of the header starting `s`.
pub open spec fn dim_window(s: Seq<u8>, i: int) -> Seq<u8> {
    s.subrange(4 + 4 * i, 8 + 4 * i)
}

/// The dimension sizes of the header starting `s`.
pub open spec fn header_dims(s: Seq<u8>) -> Seq<u32> {
    Seq::new(dim_count(s), |i: int| be_nat(dim_window(s, i)) as u32)
}

/// The outcome of parsing a header from the bytes `s`.
pub open spec fn spec_parse(s: Seq<u8>) -> Result<HeaderView, IdxErr> {
    if s.len() < 4 {
        Err(IdxErr::IOError(ReadError::UnexpectedEnd))
    } else if s[0] != 0 || s[1] != 0 {
        Err(IdxErr::WrongHeader)
    } else if kind_of_tag(s[2]) is None {
        Err(IdxErr::UnknownDataType)
    } else if s.len() < header_len(s) {
        Err(IdxErr::IOError(ReadError::UnexpectedEnd))
    } else {
        Ok(HeaderView { kind: kind_of_tag(s[2])->Some_0, dims: header_dims(s) })
    }
}

/// How many bytes parsing consumes from `s`, on success or on a bad magic
/// prefix or type tag.
pub open spec fn parse_consumed(s: Seq<u8>) -> nat {
    match spec_parse(s) {
        Ok(_) => header_len(s),
        Err(_) => 4,
    }
}

/// The number of elements of a tensor with dimension sizes `dims`: their
/// product, which is 1 (a scalar) for no dimensions.
pub open spec fn element_count(dims: Seq<u32>) -> nat
    decreases dims.len(),
{
    if dims.len() == 0 {
        1
    } else {
        element_count(dims.drop_last()) * dims.last() as nat
    }
}

impl View for Header {
    type V = HeaderView;

    closed spec fn view(&self) -> HeaderView {
        HeaderView { kind: self.kind, dims: self.dimensions@ }
    }
}

impl Header {
    /// The element type.
    pub fn kind(&self) -> (k: NumericKind)
        ensures
            k == self@.kind,
    {
        self.kind
    }

    /// The dimension sizes, outermost first.
    pub fn dimensions(&self) -> (d: &Vec<u32>)
        ensures
            d@ == self@.dims,
    {
        &self.dimensions
    }

    /// The number of elements, `None` where it does not fit in a `u64`.
    pub fn element_count(&self) -> (r: Option<u64>)
        ensures
            element_count(self@.dims) <= u64::MAX ==> r == Some(
                element_count(self@.dims) as u64,
            ),
            element_count(self@.dims) > u64::MAX ==> r is None,
    {
        let ghost dims = self.dimensions@;
        let cap: u128 = 0x1_0000_0000_0000_0000;
        // the product so far, held at `cap` once it reaches it
        let mut acc: u128 = 1;
        let mut i: usize = 0;
        while i < self.dimensions.len()
            invariant
                dims == self.dimensions@,
                0 <= i <= dims.len(),
                cap == 0x1_0000_0000_0000_0000u128,
                acc as nat == if element_count(dims.take(i as int)) < cap {
                    element_count(dims.take(i as int))
                } else {
                    cap as nat
                },
            decreases dims.len() - i,
        {
            let d = self.dimensions[i];
            let ghost p = element_count(dims.take(i as int));
            assert(dims.take(i + 1).drop_last() =~= dims.take(i as int));
            assert(acc * (d as nat) <= cap * 0xFFFF_FFFF) by (nonlinear_arith)
                requires
                    acc <= cap,
                    d <= 0xFFFF_FFFFu32,
            ;
            let prod = acc * d as u128;
            proof {
                lemma_saturated_product(p, d as nat, cap as nat);
            }
            acc = if prod < cap {
                prod
            } else {
                cap
            };
            i = i + 1;
        }
        assert(dims.take(dims.len() as int) =~= dims);
        if acc < cap {
            Some(acc as u64)
        } else {
            None
        }
    }
}

proof fn lemma_saturated_product(p: nat, d: nat, cap: nat)
    requires
        cap > 0,
    ensures
        ({
            let a = if p < cap { p } else { cap };
            let q = a * d;
            (if q < cap { q } else { cap }) == (if p * d < cap { p * d } else { cap })
        }),
{
    if p >= cap && d >= 1 {
        assert(p * d >= cap) by (nonlinear_arith)
            requires
                p >= cap,
                d >= 1,
        ;
        assert(cap * d >= cap) by (nonlinear_arith)
            requires
                cap > 0,
                d >= 1,
        ;
    }
    if d == 0 {
        assert(p * d == 0) by (nonlinear_arith)
            requires
                d == 0,
        ;
    }
}

/// The four bytes whose big-endian reading is `v`.
fn split_be4(v: u64, Ghost(w): Ghost<Seq<u8>>) -> (r: (u8, u8, u8, u8))
    requires
        w.len() == 4,
        v == be_nat(w),
    ensures
        r.0 == w[0] && r.1 == w[1] && r.2 == w[2] && r.3 == w[3],
{
    proof {
        reveal_with_fuel(be_nat, 5);
        assert(w.drop_last().drop_last().drop_last().drop_last() =~= Seq::<u8>::empty());
        assert(w.drop_last().drop_last().drop_last() =~= seq![w[0]]);
        assert(w.drop_last().drop_last() =~= seq![w[0], w[1]]);
        assert(w.drop_last() =~= seq![w[0], w[1], w[2]]);
    }
    let ghost (a, b, c, d) = (w[0] as u64, w[1] as u64, w[2] as u64, w[3] as u64);
    assert(v == ((a * 256 + b) * 256 + c) * 256 + d);
    assert((v >> 24u64) & 0xffu64 == a && (v >> 16u64) & 0xffu64 == b
        && (v >> 8u64) & 0xffu64 == c && v & 0xffu64 == d) by (bit_vector)
        requires
            v == ((a * 256 + b) * 256 + c) * 256 + d,
            a < 256 && b < 256 && c < 256 && d < 256,
    ;
    (((v >> 24u64) & 0xff) as u8, ((v >> 16u64) & 0xff) as u8, ((v >> 8u64) & 0xff) as u8, (v
        & 0xff) as u8)
}

/// Parses a header from `src`, leaving it at the first element byte.
pub fn parse_header(src: &mut ByteSource) -> (r: Result<Header, IdxErr>)
    requires
        old(src).wf(),
    ensures
        final(src).wf(),
        final(src).all() == old(src).all(),
        match r {
            Ok(h) => spec_parse(old(src).rest()) == Ok::<HeaderView, IdxErr>(h@),
            Err(e) => spec_parse(old(src).rest()) == Err::<HeaderView, IdxErr>(e),
        },
        match spec_parse(old(src).rest()) {
            Err(IdxErr::IOError(_)) => true,
            _ => final(src).consumed() == old(src).consumed() + parse_consumed(old(src).rest()),
        },
{
    let ghost s = src.rest();
    let ghost all = src.all();
    let ghost start = src.consumed();
    proof {
        src.lemma_wf();
    }
    let head = match src.read_be(4) {
        Ok(v) => v,
        Err(e) => {
            return Err(IdxErr::IOError(e));
        },
    };
    proof {
        lemma_pow256_widths();
    }
    let (b0, b1, b2, b3) = split_be4(head, Ghost(s.take(4)));
    if b0 != 0 || b1 != 0 {
        return Err(IdxErr::WrongHeader);
    }
    let kind = match NumericKind::from_tag(b2) {
        Some(k) => k,
        None => {
            return Err(IdxErr::UnknownDataType);
        },
    };
    let mut dimensions: Vec<u32> = Vec::with_capacity(b3 as usize);
    let mut k: u8 = 0;
    while k < b3
        invariant
            src.wf(),
            src.all() == all,
            all == old(src).all(),
            s == old(src).rest(),
            start == old(src).consumed(),
            start <= all.len(),
            s == all.subrange(start as int, all.len() as int),
            s.len() >= 4,
            s[0] == 0 && s[1] == 0,
            kind_of_tag(s[2]) == Some(kind),
            b3 == s[3],
            0 <= k <= b3,
            src.consumed() == start + 4 + 4 * k,
            dimensions@ == header_dims(s).take(k as int),
        decreases b3 - k,
    {
        proof {
            src.lemma_wf();
        }
        assert(src.rest() =~= s.subrange(4 + 4 * k, s.len() as int));
        let ghost window = src.rest().take(4);
        match u32::extract(src) {
            Ok(d) => {
                assert(window =~= dim_window(s, k as int));
                dimensions.push(d);
                assert(dimensions@ =~= header_dims(s).take(k + 1));
            },
            Err(e) => {
                return Err(IdxErr::IOError(e));
            },
        }
        k = k + 1;
    }
    proof {
        src.lemma_wf();
    }
    assert(dimensions@ =~= header_dims(s));
    Ok(Header { kind, dimensions })
}

/// A well-formed header parses: as many dimensions as the count byte says,
/// each the big-endian reading of its four bytes.
pub proof fn lemma_well_formed_parses(s: Seq<u8>)
    requires
        s.len() >= 4,
        s[0] == 0 && s[1] == 0,
        kind_of_tag(s[2]) is Some,
        s.len() >= header_len(s),
    ensures
        spec_parse(s) is Ok,
        spec_parse(s)->Ok_0.kind == kind_of_tag(s[2])->Some_0,
        spec_parse(s)->Ok_0.dims.len() == s[3] as nat,
        forall|i: int|
            0 <= i < s[3] ==> #[trigger] spec_parse(s)->Ok_0.dims[i] as nat == be_nat(
                dim_window(s, i),
            ),
        parse_consumed(s) == header_len(s),
{
    assert forall|i: int| 0 <= i < s[3] implies #[trigger] spec_parse(s)->Ok_0.dims[i] as nat
        == be_nat(dim_window(s, i)) by {
        lemma_be_nat_bound(dim_window(s, i));
        lemma_pow256_widths();
    }
}

/// A nonzero byte in the magic prefix is refused as a wrong header, whatever
/// follows, after the first four bytes.
pub proof fn lemma_bad_magic(s: Seq<u8>)
    requires
        s.len() >= 4,
        s[0] != 0 || s[1] != 0,
    ensures
        spec_parse(s) == Err::<HeaderView, IdxErr>(IdxErr::WrongHeader),
        parse_consumed(s) == 4,
{
}

/// Behind a correct magic prefix, a type tag that names no element type is
/// refused as an unknown data type.
pub proof fn lemma_unknown_tag(s: Seq<u8>)
    requires
        s.len() >= 4,
        s[0] == 0 && s[1] == 0,
        kind_of_tag(s[2]) is None,
    ensures
        spec_parse(s) == Err::<HeaderView, IdxErr>(IdxErr::UnknownDataType),
{
}

/// A header with no dimensions describes a scalar: one element.
pub proof fn lemma_no_dimensions_is_scalar(s: Seq<u8>)
    requires
        spec_parse(s) is Ok,
        s[3] == 0,
    ensures
        spec_parse(s)->Ok_0.dims.len() == 0,
        element_count(spec_parse(s)->Ok_0.dims) == 1,
{
}

/// A source that ends before the header does fails with an I/O error, where
/// the four leading bytes, if present, are a valid prefix.
pub proof fn lemma_truncated_header(s: Seq<u8>)
    requires
        s.len() < 4 || {
            &&& s[0] == 0 && s[1] == 0
            &&& kind_of_tag(s[2]) is Some
            &&& s.len() < header_len(s)
        },
    ensures
        spec_parse(s) == Err::<HeaderView, IdxErr>(IdxErr::IOError(ReadError::UnexpectedEnd)),
{
}

} // verus!
