//! Readers of the element payload. `IdxReader<T>` is committed to one element
//! type, checked against the header when it is made; `DynIdxReader` hands out
//! elements tagged with their kind. Both emit exactly as many elements as the
//! dimensions multiply to, in row-major order.

use vstd::prelude::*;
use std::marker::PhantomData;
use crate::source::{ByteSource, ReadError};
use crate::casts::{Element, NumericKind, Value, ValueExtractor, value_from_be};
use crate::header::{
    Header, HeaderView, IdxErr, element_count, header_len, parse_header, spec_parse,
};

verus! {

/// The outcome of opening a reader committed to kind `k` on the bytes `s`.
pub open spec fn spec_open_typed(s: Seq<u8>, k: NumericKind) -> Result<HeaderView, IdxErr> {
    match spec_parse(s) {
        Ok(h) => if h.kind == k {
            Ok(h)
        } else {
            Err(IdxErr::TypeMismatch)
        },
        Err(e) => Err(e),
    }
}

/// The `i`-th window of `w` bytes of `s`.
pub open spec fn window(s: Seq<u8>, i: int, w: nat) -> Seq<u8> {
    s.subrange(i * w, (i + 1) * w)
}

/// The header, the source behind it, and how far the payload has been read.
struct Stream {
    source: ByteSource,
    header: Header,
    total: Option<u64>,
    start: usize,
    emitted: u64,
    failed: bool,
}

impl Stream {
    spec fn width(&self) -> nat {
        self.header@.kind.spec_width()
    }

    spec fn wf(&self) -> bool {
        &&& self.source.wf()
        &&& self.source.consumed() == self.start + self.emitted * self.width()
        &&& self.emitted <= element_count(self.header@.dims)
        &&& element_count(self.header@.dims) <= u64::MAX ==> self.total == Some(
            element_count(self.header@.dims) as u64,
        )
        &&& element_count(self.header@.dims) > u64::MAX ==> self.total is None
    }

    fn open(source: ByteSource) -> (r: Result<Stream, IdxErr>)
        requires
            source.wf(),
        ensures
            match r {
                Ok(st) => {
                    &&& spec_parse(source.rest()) == Ok::<HeaderView, IdxErr>(st.header@)
                    &&& st.wf()
                    &&& st.emitted == 0
                    &&& !st.failed
                    &&& st.source.rest() == source.rest().skip(header_len(source.rest()) as int)
                },
                Err(e) => spec_parse(source.rest()) == Err::<HeaderView, IdxErr>(e),
            },
    {
        let mut source = source;
        let ghost s = source.rest();
        let header = match parse_header(&mut source) {
            Ok(h) => h,
            Err(e) => {
                return Err(e);
            },
        };
        proof {
            source.lemma_wf();
        }
        assert(source.rest() =~= s.skip(header_len(s) as int));
        let total = header.element_count();
        let start = source.position();
        assert(source.consumed() == start + 0 * header@.kind.spec_width());
        Ok(Stream { source, header, total, start, emitted: 0, failed: false })
    }

    /// Whether every element has been emitted.
    fn at_end(&self) -> (r: bool)
        requires
            self.wf(),
        ensures
            r == (self.emitted >= element_count(self.header@.dims)),
    {
        match self.total {
            Some(t) => self.emitted >= t,
            None => false,
        }
    }

    /// Counts one more element emitted, after its bytes were consumed.
    fn count_one(&mut self)
        requires
            old(self).source.wf(),
            old(self).source.consumed() == old(self).start + (old(self).emitted + 1) * old(
                self,
            ).width(),
            old(self).emitted < element_count(old(self).header@.dims),
            element_count(old(self).header@.dims) <= u64::MAX ==> old(self).total == Some(
                element_count(old(self).header@.dims) as u64,
            ),
            element_count(old(self).header@.dims) > u64::MAX ==> old(self).total is None,
            old(self).width() >= 1,
        ensures
            final(self).wf(),
            final(self).emitted == old(self).emitted + 1,
            final(self).source == old(self).source,
            final(self).header@ == old(self).header@,
            final(self).failed == old(self).failed,
            final(self).start == old(self).start,
    {
        proof {
            self.source.lemma_wf();
            let e = self.emitted + 1;
            let w = self.width();
            assert(e * w >= e) by (nonlinear_arith)
                requires
                    w >= 1,
                    e >= 0,
            ;
        }
        self.emitted = self.emitted + 1;
    }
}

/// A reader committed to the element type `T`.
pub struct IdxReader<T: Element> {
    stream: Stream,
    element: PhantomData<T>,
}

impl<T: Element> IdxReader<T> {
    pub closed spec fn wf(&self) -> bool {
        &&& self.stream.wf()
        &&& self.stream.header@.kind == T::spec_kind()
    }

    /// The header that was parsed.
    pub closed spec fn header_view(&self) -> HeaderView {
        self.stream.header@
    }

    /// How many elements have been emitted.
    pub closed spec fn emitted(&self) -> nat {
        self.stream.emitted as nat
    }

    /// Whether a read has failed, which ends the reader.
    pub closed spec fn failed(&self) -> bool {
        self.stream.failed
    }

    /// The bytes of the source not yet consumed.
    pub closed spec fn rest(&self) -> Seq<u8> {
        self.stream.source.rest()
    }

    /// The number of elements the header declares.
    pub open spec fn total(&self) -> nat {
        element_count(self.header_view().dims)
    }

    /// Parses the header from `source` and commits to `T`, failing with
    /// `TypeMismatch` where the header declares another element type.
    pub fn new(source: ByteSource) -> (r: Result<IdxReader<T>, IdxErr>)
        requires
            source.wf(),
        ensures
            match r {
                Ok(rd) => {
                    &&& spec_open_typed(source.rest(), T::spec_kind()) == Ok::<
                        HeaderView,
                        IdxErr,
                    >(rd.header_view())
                    &&& rd.wf()
                    &&& rd.emitted() == 0
                    &&& !rd.failed()
                    &&& rd.rest() == source.rest().skip(header_len(source.rest()) as int)
                },
                Err(e) => spec_open_typed(source.rest(), T::spec_kind()) == Err::<
                    HeaderView,
                    IdxErr,
                >(e),
            },
    {
        let stream = match Stream::open(source) {
            Ok(st) => st,
            Err(e) => {
                return Err(e);
            },
        };
        if stream.header.kind() != T::kind() {
            return Err(IdxErr::TypeMismatch);
        }
        Ok(IdxReader { stream, element: PhantomData })
    }

    /// The header that was parsed.
    pub fn header(&self) -> (h: &Header)
        ensures
            h@ == self.header_view(),
    {
        &self.stream.header
    }

    /// The number of elements the header declares, `None` where it does not
    /// fit in a `u64`.
    pub fn element_count(&self) -> (r: Option<u64>)
        requires
            self.wf(),
        ensures
            self.total() <= u64::MAX ==> r == Some(self.total() as u64),
            self.total() > u64::MAX ==> r is None,
    {
        self.stream.total
    }

    /// The next element: `Ok(None)` once every element has been emitted, an
    /// error where the source ends inside the element or a read failed before.
    pub fn next(&mut self) -> (r: Result<Option<T>, IdxErr>)
        requires
            old(self).wf(),
        ensures
            final(self).wf(),
            final(self).header_view() == old(self).header_view(),
            old(self).failed() ==> {
                &&& r == Err::<Option<T>, IdxErr>(IdxErr::IOError(ReadError::UnexpectedEnd))
                &&& *final(self) == *old(self)
            },
            !old(self).failed() && old(self).emitted() >= old(self).total() ==> {
                &&& r == Ok::<Option<T>, IdxErr>(None)
                &&& *final(self) == *old(self)
            },
            !old(self).failed() && old(self).emitted() < old(self).total() && old(
                self,
            ).rest().len() >= T::byte_width() ==> {
                &&& r == Ok::<Option<T>, IdxErr>(
                    Some(T::from_be(old(self).rest().take(T::byte_width() as int))),
                )
                &&& final(self).emitted() == old(self).emitted() + 1
                &&& !final(self).failed()
                &&& final(self).rest() == old(self).rest().skip(T::byte_width() as int)
            },
            !old(self).failed() && old(self).emitted() < old(self).total() && old(
                self,
            ).rest().len() < T::byte_width() ==> {
                &&& r == Err::<Option<T>, IdxErr>(IdxErr::IOError(ReadError::UnexpectedEnd))
                &&& final(self).failed()
            },
    {
        if self.stream.failed {
            return Err(IdxErr::IOError(ReadError::UnexpectedEnd));
        }
        if self.stream.at_end() {
            return Ok(None);
        }
        let ghost before = self.stream.source.rest();
        proof {
            self.stream.source.lemma_wf();
            T::lemma_width_of_kind();
        }
        match T::extract(&mut self.stream.source) {
            Ok(v) => {
                proof {
                    self.stream.source.lemma_wf();
                }
                assert(self.stream.source.rest() =~= before.skip(T::byte_width() as int));
                proof {
                    let e = self.stream.emitted as int;
                    let w = T::byte_width() as int;
                    assert((e + 1) * w == e * w + w) by (nonlinear_arith);
                }
                self.stream.count_one();
                Ok(Some(v))
            },
            Err(e) => {
                self.stream.failed = true;
                Err(IdxErr::IOError(e))
            },
        }
    }

    /// Every element not yet emitted, in order. Succeeds exactly where the
    /// source holds all of their bytes; the reader is then exhausted.
    pub fn read_all(&mut self) -> (r: Result<Vec<T>, IdxErr>)
        requires
            old(self).wf(),
        ensures
            final(self).wf(),
            final(self).header_view() == old(self).header_view(),
            ({
                let m = old(self).total() - old(self).emitted();
                let w = T::byte_width();
                let s = old(self).rest();
                match r {
                    Ok(v) => {
                        &&& !old(self).failed()
                        &&& s.len() >= m * w
                        &&& v@.len() == m
                        &&& forall|i: int|
                            0 <= i < m ==> #[trigger] v@[i] == T::from_be(window(s, i, w))
                        &&& final(self).emitted() == old(self).total()
                        &&& !final(self).failed()
                        &&& final(self).rest() == s.skip((m * w) as int)
                    },
                    Err(e) => {
                        &&& e == IdxErr::IOError(ReadError::UnexpectedEnd)
                        &&& old(self).failed() || s.len() < m * w
                        &&& final(self).failed()
                    },
                }
            }),
    {
        let ghost m = self.total() - self.emitted();
        let ghost w = T::byte_width();
        let ghost s = self.rest();
        let ghost e0 = self.emitted();
        let mut out: Vec<T> = Vec::new();
        proof {
            T::lemma_width_of_kind();
            assert(s.skip(0) =~= s);
        }
        loop
            invariant
                self.wf(),
                self.header_view() == old(self).header_view(),
                m == old(self).total() - old(self).emitted(),
                w == T::byte_width(),
                w >= 1,
                s == old(self).rest(),
                e0 == old(self).emitted(),
                e0 <= old(self).total(),
                self.failed() == old(self).failed(),
                !old(self).failed() ==> {
                    &&& self.emitted() == e0 + out@.len()
                    &&& out@.len() * w <= s.len()
                    &&& self.rest() == s.skip((out@.len() * w) as int)
                    &&& forall|i: int|
                        0 <= i < out@.len() ==> #[trigger] out@[i] == T::from_be(window(s, i, w))
                },
                old(self).failed() ==> out@.len() == 0,
            decreases self.rest().len(),
        {
            let ghost k = out@.len();
            match self.next() {
                Ok(Some(v)) => {
                    proof {
                        assert((k + 1) * w == k * w + w) by (nonlinear_arith);
                        assert(window(s, k as int, w) =~= s.skip((k * w) as int).take(w as int));
                        assert(s.skip((k * w) as int).skip(w as int) =~= s.skip(((k + 1) * w) as int));
                    }
                    out.push(v);
                },
                Ok(None) => {
                    proof {
                        assert(k == m);
                        assert(m * w <= s.len());
                    }
                    return Ok(out);
                },
                Err(e) => {
                    proof {
                        if !old(self).failed() {
                            assert(k < m);
                            assert(s.len() < (k + 1) * w) by (nonlinear_arith)
                                requires
                                    s.len() - k * w < w,
                                    k * w <= s.len(),
                            ;
                            assert((k + 1) * w <= m * w) by (nonlinear_arith)
                                requires
                                    k + 1 <= m,
                                    w >= 1,
                            ;
                        }
                    }
                    return Err(e);
                },
            }
        }
    }
}

/// A reader that hands out elements tagged with the kind the header declares.
pub struct DynIdxReader {
    stream: Stream,
}

impl DynIdxReader {
    pub closed spec fn wf(&self) -> bool {
        self.stream.wf()
    }

    /// The header that was parsed.
    pub closed spec fn header_view(&self) -> HeaderView {
        self.stream.header@
    }

    /// How many elements have been emitted.
    pub closed spec fn emitted(&self) -> nat {
        self.stream.emitted as nat
    }

    /// Whether a read has failed, which ends the reader.
    pub closed spec fn failed(&self) -> bool {
        self.stream.failed
    }

    /// The bytes of the source not yet consumed.
    pub closed spec fn rest(&self) -> Seq<u8> {
        self.stream.source.rest()
    }

    /// The number of elements the header declares.
    pub open spec fn total(&self) -> nat {
        element_count(self.header_view().dims)
    }

    /// Parses the header from `source`.
    pub fn open(source: ByteSource) -> (r: Result<DynIdxReader, IdxErr>)
        requires
            source.wf(),
        ensures
            match r {
                Ok(rd) => {
                    &&& spec_parse(source.rest()) == Ok::<HeaderView, IdxErr>(rd.header_view())
                    &&& rd.wf()
                    &&& rd.emitted() == 0
                    &&& !rd.failed()
                    &&& rd.rest() == source.rest().skip(header_len(source.rest()) as int)
                },
                Err(e) => spec_parse(source.rest()) == Err::<HeaderView, IdxErr>(e),
            },
    {
        match Stream::open(source) {
            Ok(stream) => Ok(DynIdxReader { stream }),
            Err(e) => Err(e),
        }
    }

    /// The header that was parsed.
    pub fn header(&self) -> (h: &Header)
        ensures
            h@ == self.header_view(),
    {
        &self.stream.header
    }

    /// Commits this reader to `T`, where the header declares `T`'s kind;
    /// otherwise hands it back unchanged.
    pub fn into_typed<T: Element>(self) -> (r: Result<IdxReader<T>, DynIdxReader>)
        requires
            self.wf(),
        ensures
            self.header_view().kind == T::spec_kind() <==> r is Ok,
            match r {
                Ok(rd) => {
                    &&& rd.wf()
                    &&& rd.header_view() == self.header_view()
                    &&& rd.emitted() == self.emitted()
                    &&& rd.failed() == self.failed()
                    &&& rd.rest() == self.rest()
                },
                Err(back) => back == self,
            },
    {
        if self.stream.header.kind() == T::kind() {
            Ok(IdxReader { stream: self.stream, element: PhantomData })
        } else {
            Err(self)
        }
    }

    /// The element type the header declares.
    pub fn kind(&self) -> (k: NumericKind)
        ensures
            k == self.header_view().kind,
    {
        self.stream.header.kind()
    }

    /// The number of elements the header declares, `None` where it does not
    /// fit in a `u64`.
    pub fn element_count(&self) -> (r: Option<u64>)
        requires
            self.wf(),
        ensures
            self.total() <= u64::MAX ==> r == Some(self.total() as u64),
            self.total() > u64::MAX ==> r is None,
    {
        self.stream.total
    }

    /// The next element, tagged with its kind: `Ok(None)` once every element
    /// has been emitted, an error where the source ends inside the element or
    /// a read failed before.
    pub fn next(&mut self) -> (r: Result<Option<Value>, IdxErr>)
        requires
            old(self).wf(),
        ensures
            final(self).wf(),
            final(self).header_view() == old(self).header_view(),
            ({
                let k = old(self).header_view().kind;
                let w = k.spec_width();
                &&& old(self).failed() ==> {
                    &&& r == Err::<Option<Value>, IdxErr>(
                        IdxErr::IOError(ReadError::UnexpectedEnd),
                    )
                    &&& *final(self) == *old(self)
                }
                &&& !old(self).failed() && old(self).emitted() >= old(self).total() ==> {
                    &&& r == Ok::<Option<Value>, IdxErr>(None)
                    &&& *final(self) == *old(self)
                }
                &&& !old(self).failed() && old(self).emitted() < old(self).total() && old(
                    self,
                ).rest().len() >= w ==> {
                    &&& r == Ok::<Option<Value>, IdxErr>(
                        Some(value_from_be(k, old(self).rest().take(w as int))),
                    )
                    &&& final(self).emitted() == old(self).emitted() + 1
                    &&& !final(self).failed()
                    &&& final(self).rest() == old(self).rest().skip(w as int)
                }
                &&& !old(self).failed() && old(self).emitted() < old(self).total() && old(
                    self,
                ).rest().len() < w ==> {
                    &&& r == Err::<Option<Value>, IdxErr>(
                        IdxErr::IOError(ReadError::UnexpectedEnd),
                    )
                    &&& final(self).failed()
                }
            }),
    {
        if self.stream.failed {
            return Err(IdxErr::IOError(ReadError::UnexpectedEnd));
        }
        if self.stream.at_end() {
            return Ok(None);
        }
        let kind = self.stream.header.kind();
        let ghost before = self.stream.source.rest();
        proof {
            self.stream.source.lemma_wf();
        }
        match Value::extract(kind, &mut self.stream.source) {
            Ok(v) => {
                proof {
                    self.stream.source.lemma_wf();
                }
                assert(self.stream.source.rest() =~= before.skip(kind.spec_width() as int));
                proof {
                    let e = self.stream.emitted as int;
                    let w = kind.spec_width() as int;
                    assert((e + 1) * w == e * w + w) by (nonlinear_arith);
                }
                self.stream.count_one();
                Ok(Some(v))
            },
            Err(e) => {
                self.stream.failed = true;
                Err(IdxErr::IOError(e))
            },
        }
    }
}

} // verus!
