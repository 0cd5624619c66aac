//! Byte-range responses for cached clip bytes.
//!
//! The transport hands over the resolved bounds of at most one requested
//! byte range; this module turns them into the exact slice to send, the
//! content-range description, and whether the response is partial or
//! full content.

use vstd::prelude::*;

verus! {

/// One bound of a byte range as the transport parsed it.
#[derive(Clone, Copy, PartialEq, Eq, Structural, Debug)]
pub enum RangeBound {
    Included(usize),
    Excluded(usize),
    Unbounded,
}

/// Resolved start offset of a range bound (inclusive).
pub open spec fn resolve_start_spec(b: RangeBound) -> int {
    match b {
        RangeBound::Included(s) => s as int,
        RangeBound::Excluded(s) => s as int + 1,
        RangeBound::Unbounded => 0,
    }
}

/// Resolved end offset of a range bound (exclusive), against a body of
/// `len` bytes.
pub open spec fn resolve_end_spec(b: RangeBound, len: int) -> int {
    match b {
        RangeBound::Included(e) => e as int + 1,
        RangeBound::Excluded(e) => e as int,
        RangeBound::Unbounded => len,
    }
}

/// Resolves a parsed range into half-open byte offsets `[start, end)`.
pub fn resolve_range(start: RangeBound, end: RangeBound, len: usize) -> (r: (usize, usize))
    requires
        resolve_start_spec(start) <= usize::MAX,
        resolve_end_spec(end, len as int) <= usize::MAX,
    ensures
        r.0 == resolve_start_spec(start),
        r.1 == resolve_end_spec(end, len as int),
{
    let s = match start {
        RangeBound::Included(s) => s,
        RangeBound::Excluded(s) => s + 1,
        RangeBound::Unbounded => 0,
    };
    let e = match end {
        RangeBound::Included(e) => e + 1,
        RangeBound::Excluded(e) => e,
        RangeBound::Unbounded => len,
    };
    (s, e)
}

/// A response serving clip bytes: the body, the content-range triple it
/// advertises, and whether it is partial content.
pub struct RangeResponse {
    /// Bytes to send.
    pub body: Vec<u8>,
    /// First byte offset the body covers.
    pub range_start: usize,
    /// One past the last byte offset the body covers.
    pub range_end: usize,
    /// Total size of the underlying resource.
    pub total: usize,
    /// True for a partial-content response (a range that does not cover
    /// the whole resource), false for a plain full response.
    pub partial: bool,
}

/// Builds the response for `data` under an optional resolved byte range.
/// A satisfiable range returns exactly the requested bytes and reports
/// partial content unless the range covers the whole body; no range
/// returns the whole body as full content.
pub fn range_response(data: &Vec<u8>, range: Option<(usize, usize)>) -> (r: RangeResponse)
    requires
        match range {
            Some((s, e)) => s <= e <= data@.len(),
            None => true,
        },
    ensures
        r.total == data@.len(),
        match range {
            Some((s, e)) => {
                &&& r.body@ == data@.subrange(s as int, e as int)
                &&& r.range_start == s
                &&& r.range_end == e
                &&& r.partial == !(e - s == data@.len())
            },
            None => {
                &&& r.body@ == data@
                &&& r.range_start == 0
                &&& r.range_end == data@.len()
                &&& !r.partial
            },
        },
{
    match range {
        Some((s, e)) => {
            let mut body: Vec<u8> = Vec::new();
            let mut i: usize = s;
            while i < e
                invariant
                    s <= i <= e <= data@.len(),
                    body@ == data@.subrange(s as int, i as int),
                decreases e - i,
            {
                body.push(data[i]);
                proof {
                    assert(data@.subrange(s as int, i + 1) =~= data@.subrange(s as int, i as int)
                        .push(data@[i as int]));
                }
                i += 1;
            }
            let partial = !(e - s == data.len());
            RangeResponse { body, range_start: s, range_end: e, total: data.len(), partial }
        },
        None => {
            let mut body: Vec<u8> = Vec::new();
            let mut i: usize = 0;
            while i < data.len()
                invariant
                    i <= data@.len(),
                    body@ == data@.subrange(0, i as int),
                decreases data@.len() - i,
            {
                body.push(data[i]);
                proof {
                    assert(data@.subrange(0, i + 1) =~= data@.subrange(0, i as int)
                        .push(data@[i as int]));
                }
                i += 1;
            }
            proof {
                assert(data@.subrange(0, data@.len() as int) =~= data@);
            }
            RangeResponse {
                body,
                range_start: 0,
                range_end: data.len(),
                total: data.len(),
                partial: false,
            }
        },
    }
}

} // verus!
