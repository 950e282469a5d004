use vstd::prelude::*;
use vstd::slice::slice_subrange;
use vstd::slice::slice_to_vec;

use crate::error::ParseError;
use crate::marked_data::append_bytes;
use crate::marked_data::marked_at;
use crate::marked_data::marked_end;
use crate::marked_data::lemma_marked_at_encoding;
use crate::marked_data::MarkedData;
use crate::marked_data::MarkedView;
use crate::marked_data::MarkerRule;

verus! {

/// Where the plain-data pass of the entropy scanner stops, from `p`: it
/// consumes every byte other than `FF`, and an `FF` that a stuffing `00`
/// follows (the `00` is then consumed as plain data in its turn).
pub open spec fn entropy_data_end(b: Seq<u8>, p: int) -> int
    decreases b.len() - p,
{
    if p < b.len() && b[p] != 0xFF {
        entropy_data_end(b, p + 1)
    } else if p + 1 < b.len() && b[p] == 0xFF && b[p + 1] == 0x00 {
        entropy_data_end(b, p + 1)
    } else {
        p
    }
}

/// Where the fill pass of the entropy scanner stops, from `p`: it consumes
/// each `FF` that another `FF` follows.
pub open spec fn entropy_pad_end(b: Seq<u8>, p: int) -> int
    decreases b.len() - p,
{
    if p + 1 < b.len() && b[p] == 0xFF && b[p + 1] == 0xFF {
        entropy_pad_end(b, p + 1)
    } else {
        p
    }
}

/// Where the entropy-coded run that starts at `p` ends: the plain-data pass,
/// then the fill pass. The byte at the result, if any, is the `FF` of the
/// next genuine marker and stays unconsumed.
pub open spec fn entropy_end(b: Seq<u8>, p: int) -> int {
    entropy_pad_end(b, entropy_data_end(b, p))
}

pub proof fn lemma_entropy_data_end_bounds(b: Seq<u8>, p: int)
    requires
        0 <= p <= b.len(),
    ensures
        p <= entropy_data_end(b, p) <= b.len(),
    decreases b.len() - p,
{
    if p < b.len() && b[p] != 0xFF {
        lemma_entropy_data_end_bounds(b, p + 1);
    } else if p + 1 < b.len() && b[p] == 0xFF && b[p + 1] == 0x00 {
        lemma_entropy_data_end_bounds(b, p + 1);
    }
}

pub proof fn lemma_entropy_pad_end_bounds(b: Seq<u8>, p: int)
    requires
        0 <= p <= b.len(),
    ensures
        p <= entropy_pad_end(b, p) <= b.len(),
    decreases b.len() - p,
{
    if p + 1 < b.len() && b[p] == 0xFF && b[p + 1] == 0xFF {
        lemma_entropy_pad_end_bounds(b, p + 1);
    }
}

/// The entropy scanner consumes a range inside the input.
pub proof fn lemma_entropy_end_bounds(b: Seq<u8>, p: int)
    requires
        0 <= p <= b.len(),
    ensures
        p <= entropy_end(b, p) <= b.len(),
{
    lemma_entropy_data_end_bounds(b, p);
    lemma_entropy_pad_end_bounds(b, entropy_data_end(b, p));
}

proof fn lemma_entropy_data_end_ff(b: Seq<u8>, p: int)
    requires
        0 <= p <= b.len(),
    ensures
        entropy_data_end(b, p) == b.len() || b[entropy_data_end(b, p)] == 0xFF,
    decreases b.len() - p,
{
    if p < b.len() && b[p] != 0xFF {
        lemma_entropy_data_end_ff(b, p + 1);
    } else if p + 1 < b.len() && b[p] == 0xFF && b[p + 1] == 0x00 {
        lemma_entropy_data_end_ff(b, p + 1);
    }
}

proof fn lemma_entropy_pad_end_ff(b: Seq<u8>, p: int)
    requires
        0 <= p <= b.len(),
        p == b.len() || b[p] == 0xFF,
    ensures
        entropy_pad_end(b, p) == b.len() || b[entropy_pad_end(b, p)] == 0xFF,
    decreases b.len() - p,
{
    if p + 1 < b.len() && b[p] == 0xFF && b[p + 1] == 0xFF {
        lemma_entropy_pad_end_ff(b, p + 1);
    }
}

/// The entropy scanner stops only at the end of the input or just before a
/// `FF` byte: the next genuine marker is never consumed.
pub proof fn lemma_entropy_end_stops_at_ff(b: Seq<u8>, p: int)
    requires
        0 <= p <= b.len(),
    ensures
        entropy_end(b, p) == b.len() || b[entropy_end(b, p)] == 0xFF,
{
    lemma_entropy_data_end_bounds(b, p);
    lemma_entropy_data_end_ff(b, p);
    lemma_entropy_pad_end_ff(b, entropy_data_end(b, p));
}

/// Consumes the entropy-coded run that starts at `pos`, returning its bytes
/// exactly as they stand in the input (stuffing and fill included) and the
/// position of the next genuine marker, exactly as [`entropy_end`] says.
/// Never fails: the run may be empty.
pub fn segment_data(input: &[u8], pos: usize) -> (r: (Vec<u8>, usize))
    requires
        pos <= input@.len(),
    ensures
        r.1 == entropy_end(input@, pos as int),
        pos <= r.1 <= input@.len(),
        r.0@ == input@.subrange(pos as int, r.1 as int),
{
    let n = input.len();
    let mut p = pos;
    loop
        invariant
            pos <= p <= n,
            n == input@.len(),
            entropy_data_end(input@, pos as int) == entropy_data_end(input@, p as int),
        ensures
            pos <= p <= n,
            p == entropy_data_end(input@, pos as int),
        decreases n - p,
    {
        if p < n && input[p] != 0xFF {
            p = p + 1;
        } else if p < n && n - p > 1 && input[p] == 0xFF && input[p + 1] == 0x00 {
            p = p + 1;
        } else {
            break;
        }
    }
    let ghost data_end = p as int;
    loop
        invariant
            pos <= p <= n,
            n == input@.len(),
            entropy_pad_end(input@, data_end) == entropy_pad_end(input@, p as int),
        ensures
            pos <= p <= n,
            p == entropy_pad_end(input@, data_end),
        decreases n - p,
    {
        if p < n && n - p > 1 && input[p] == 0xFF && input[p + 1] == 0xFF {
            p = p + 1;
        } else {
            break;
        }
    }
    let data = slice_to_vec(slice_subrange(input, pos, p));
    (data, p)
}

/// A scan block: the scan-start block's specifier payload, then the
/// unmarked entropy-coded bytes of one image segment.
#[derive(Clone, Debug, PartialEq, Eq)]
pub struct ScanSegment {
    /// The payload of the scan-start block that precedes the data.
    pub specifier: Vec<u8>,
    /// The entropy-coded bytes, kept verbatim, stuffing included.
    pub data: Vec<u8>,
}

/// The mathematical content of a [`ScanSegment`].
#[verifier::ext_equal]
pub struct ScanView {
    pub specifier: Seq<u8>,
    pub data: Seq<u8>,
}

impl View for ScanSegment {
    type V = ScanView;

    open spec fn view(&self) -> ScanView {
        ScanView { specifier: self.specifier@, data: self.data@ }
    }
}

impl ScanView {
    /// The declared length field of the scan-start block: the specifier
    /// plus the two length bytes.
    pub open spec fn len_field(self) -> int {
        self.specifier.len() as int + 2
    }

    /// The length field must fit in 16 bits.
    pub open spec fn wf(self) -> bool {
        self.len_field() <= 0xFFFF
    }

    /// The wire form: `FF DA`, the big-endian length, the specifier, then
    /// the entropy-coded bytes verbatim, with no trailing marker.
    pub open spec fn encoding(self) -> Seq<u8> {
        seq![
            0xFFu8,
            0xDAu8,
            (self.len_field() / 256) as u8,
            (self.len_field() % 256) as u8,
        ] + self.specifier + self.data
    }
}

/// Where the scan block that starts at `p` of `b` ends, or the exact
/// failure: a tagged block with tag `DA`, then the entropy-coded run.
pub open spec fn scan_seg_end(b: Seq<u8>, p: int) -> Result<int, ParseError> {
    match marked_end(b, p, MarkerRule::Exactly(0xDA)) {
        Ok(m) => Ok(entropy_end(b, m)),
        Err(e) => Err(e),
    }
}

/// The scan block starting at `p` of `b` ends at `e` and has content `s`.
pub open spec fn scan_at(b: Seq<u8>, p: int, e: int, s: ScanView) -> bool {
    let m = p + 4 + s.specifier.len();
    &&& marked_end(b, p, MarkerRule::Exactly(0xDA)) == Ok::<int, ParseError>(m)
    &&& s.specifier == b.subrange(p + 4, m)
    &&& e == entropy_end(b, m)
    &&& s.data == b.subrange(m, e)
}

/// The scan content determined by `scan_at` is well formed and its encoding
/// is exactly the consumed range.
pub proof fn lemma_scan_at_encoding(b: Seq<u8>, p: int, e: int, s: ScanView)
    requires
        0 <= p,
        scan_at(b, p, e, s),
    ensures
        s.wf(),
        p + 4 <= e <= b.len(),
        s.encoding() == b.subrange(p, e),
        s.encoding().len() == e - p,
{
    let m = p + 4 + s.specifier.len();
    let mv = MarkedView { marker: b[p + 1], data: b.subrange(p + 4, m) };
    assert(marked_at(b, p, m, mv, MarkerRule::Exactly(0xDA)));
    lemma_marked_at_encoding(b, p, m, mv, MarkerRule::Exactly(0xDA));
    lemma_entropy_end_bounds(b, m);
    assert(s.encoding() =~= mv.encoding() + s.data);
    assert(b.subrange(p, e) =~= b.subrange(p, m) + b.subrange(m, e));
}

impl ScanSegment {
    /// Parses the scan block at `pos`: the scan-start tagged block (tag
    /// `DA`), whose payload becomes the specifier, then the entropy-coded
    /// run, exactly as [`scan_seg_end`] says. Fails exactly where the
    /// scan-start block fails, consuming nothing.
    pub fn parser(input: &[u8], pos: usize) -> (r: Result<(ScanSegment, usize), ParseError>)
        requires
            pos <= input@.len(),
        ensures
            match r {
                Ok((ss, end)) => {
                    &&& scan_at(input@, pos as int, end as int, ss@)
                    &&& ss@.wf()
                    &&& pos + 4 <= end <= input@.len()
                    &&& input@.subrange(pos as int, end as int) == ss@.encoding()
                },
                Err(e) => scan_seg_end(input@, pos as int) == Err::<int, ParseError>(e),
            },
    {
        let (md, m) = match MarkedData::parser(input, pos, MarkerRule::Exactly(0xDA)) {
            Ok(v) => v,
            Err(e) => {
                return Err(e);
            },
        };
        let (data, end) = segment_data(input, m);
        let ss = ScanSegment { specifier: md.data, data };
        proof {
            lemma_scan_at_encoding(input@, pos as int, end as int, ss@);
        }
        Ok((ss, end))
    }

    /// Appends the wire form of the scan block to `out`: `FF DA`, the
    /// big-endian length derived from the specifier size, the specifier,
    /// then the entropy-coded bytes verbatim.
    pub fn write(&self, out: &mut Vec<u8>)
        requires
            self@.wf(),
        ensures
            final(out)@ == old(out)@ + self@.encoding(),
    {
        out.push(0xFF);
        out.push(0xDA);
        let length: usize = self.specifier.len() + 2;
        out.push((length / 256) as u8);
        out.push((length % 256) as u8);
        append_bytes(out, self.specifier.as_slice());
        append_bytes(out, self.data.as_slice());
        assert(out@ =~= old(out)@ + self@.encoding());
    }
}

} // verus!
