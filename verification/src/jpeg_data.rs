use vstd::prelude::*;

use crate::error::ParseError;
use crate::marked_data::lemma_marked_at_encoding;
use crate::marked_data::marked_at;
use crate::marked_data::marked_end;
use crate::marked_data::MarkedData;
use crate::marked_data::MarkedView;
use crate::marked_data::MarkerRule;
use crate::scan_segment::lemma_scan_at_encoding;
use crate::scan_segment::scan_at;
use crate::scan_segment::scan_seg_end;
use crate::scan_segment::ScanSegment;
use crate::scan_segment::ScanView;

verus! {

/// One segment between the Start-of-Image and End-of-Image markers: either
/// a generic tagged block or a scan block with its entropy-coded data.
#[derive(Clone, Debug, PartialEq, Eq)]
pub enum JpegData {
    MarkedData(MarkedData),
    ScanSegment(ScanSegment),
}

/// The mathematical content of a [`JpegData`].
#[verifier::ext_equal]
pub enum JpegDataView {
    MarkedData(MarkedView),
    ScanSegment(ScanView),
}

impl View for JpegData {
    type V = JpegDataView;

    open spec fn view(&self) -> JpegDataView {
        match self {
            JpegData::MarkedData(md) => JpegDataView::MarkedData(md@),
            JpegData::ScanSegment(ss) => JpegDataView::ScanSegment(ss@),
        }
    }
}

impl JpegDataView {
    /// The segment's length field fits in 16 bits, so that encoding can
    /// derive it from the payload size.
    pub open spec fn wf(self) -> bool {
        match self {
            JpegDataView::MarkedData(m) => m.wf(),
            JpegDataView::ScanSegment(s) => s.wf(),
        }
    }

    /// The wire form of the segment.
    pub open spec fn encoding(self) -> Seq<u8> {
        match self {
            JpegDataView::MarkedData(m) => m.encoding(),
            JpegDataView::ScanSegment(s) => s.encoding(),
        }
    }
}

/// Where the segment that starts at `p` of `b` ends, or the exact failure.
/// Ordered choice: the scan block is tried first; if it fails, the generic
/// tagged block with any tag but End-of-Image; if that fails too, its
/// failure is the segment's.
pub open spec fn jpeg_data_end(b: Seq<u8>, p: int) -> Result<int, ParseError> {
    match scan_seg_end(b, p) {
        Ok(e) => Ok(e),
        Err(_) => marked_end(b, p, MarkerRule::AnyExcept(0xD9)),
    }
}

/// The segment starting at `p` of `b` ends at `e` with content `v`, under
/// the ordered choice of [`jpeg_data_end`]: a generic tagged block is the
/// outcome only where the scan alternative fails.
pub open spec fn seg_at(b: Seq<u8>, p: int, e: int, v: JpegDataView) -> bool {
    match v {
        JpegDataView::ScanSegment(s) => scan_at(b, p, e, s),
        JpegDataView::MarkedData(m) => {
            &&& scan_seg_end(b, p) is Err
            &&& marked_at(b, p, e, m, MarkerRule::AnyExcept(0xD9))
        },
    }
}

/// The segment determined by `seg_at` is well formed, parses there, and its
/// encoding is exactly the consumed range.
pub proof fn lemma_seg_at_encoding(b: Seq<u8>, p: int, e: int, v: JpegDataView)
    requires
        0 <= p,
        seg_at(b, p, e, v),
    ensures
        v.wf(),
        p + 4 <= e <= b.len(),
        jpeg_data_end(b, p) == Ok::<int, ParseError>(e),
        v.encoding() == b.subrange(p, e),
        v.encoding().len() == e - p,
{
    match v {
        JpegDataView::ScanSegment(s) => {
            lemma_scan_at_encoding(b, p, e, s);
        },
        JpegDataView::MarkedData(m) => {
            lemma_marked_at_encoding(b, p, e, m, MarkerRule::AnyExcept(0xD9));
        },
    }
}

impl JpegData {
    /// Parses the segment at `pos` by ordered choice: first a scan block,
    /// then a generic tagged block with any tag but End-of-Image, exactly
    /// as [`jpeg_data_end`] says. A failed alternative consumes nothing.
    pub fn parser(input: &[u8], pos: usize) -> (r: Result<(JpegData, usize), ParseError>)
        requires
            pos <= input@.len(),
        ensures
            match r {
                Ok((d, end)) => {
                    &&& seg_at(input@, pos as int, end as int, d@)
                    &&& d@.wf()
                    &&& pos + 4 <= end <= input@.len()
                    &&& input@.subrange(pos as int, end as int) == d@.encoding()
                },
                Err(e) => jpeg_data_end(input@, pos as int) == Err::<int, ParseError>(e),
            },
    {
        match ScanSegment::parser(input, pos) {
            Ok((ss, end)) => {
                let d = JpegData::ScanSegment(ss);
                proof {
                    lemma_seg_at_encoding(input@, pos as int, end as int, d@);
                }
                Ok((d, end))
            },
            Err(_) => {
                match MarkedData::parser(input, pos, MarkerRule::AnyExcept(0xD9)) {
                    Ok((md, end)) => {
                        let d = JpegData::MarkedData(md);
                        proof {
                            lemma_seg_at_encoding(input@, pos as int, end as int, d@);
                        }
                        Ok((d, end))
                    },
                    Err(e) => Err(e),
                }
            },
        }
    }

    /// Appends the wire form of the segment to `out`.
    pub fn write(&self, out: &mut Vec<u8>)
        requires
            self@.wf(),
        ensures
            final(out)@ == old(out)@ + self@.encoding(),
    {
        match self {
            JpegData::MarkedData(md) => md.write(out),
            JpegData::ScanSegment(ss) => ss.write(out),
        }
    }
}

} // verus!
