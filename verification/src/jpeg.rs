use vstd::pervasive::arbitrary;
use vstd::prelude::*;
use vstd::slice::slice_to_vec;

use crate::error::ErrorKind;
use crate::error::ParseError;
use crate::jpeg_data::jpeg_data_end;
use crate::jpeg_data::lemma_seg_at_encoding;
use crate::jpeg_data::seg_at;
use crate::jpeg_data::JpegData;
use crate::jpeg_data::JpegDataView;
use crate::marked_data::MarkedData;
use crate::marked_data::MarkedView;
use crate::marker::eoi;
use crate::marker::eoi_at;
use crate::marker::soi;
use crate::marker::soi_at;

verus! {

/// The mathematical content of a document: its segments in order.
pub open spec fn seg_views(ds: Seq<JpegData>) -> Seq<JpegDataView> {
    ds.map_values(|d: JpegData| d@)
}

/// Every segment of the list is well formed.
pub open spec fn all_wf(vs: Seq<JpegDataView>) -> bool {
    forall|i: int| 0 <= i < vs.len() ==> (#[trigger] vs[i]).wf()
}

/// The wire form of a segment list: each segment's encoding, in order.
pub open spec fn encoded_list(vs: Seq<JpegDataView>) -> Seq<u8>
    decreases vs.len(),
{
    if vs.len() == 0 {
        Seq::empty()
    } else {
        vs[0].encoding() + encoded_list(vs.drop_first())
    }
}

/// The wire form of a whole document: Start-of-Image, the segments, then
/// End-of-Image.
pub open spec fn jpeg_encoding(vs: Seq<JpegDataView>) -> Seq<u8> {
    seq![0xFFu8, 0xD8u8] + encoded_list(vs) + seq![0xFFu8, 0xD9u8]
}

/// The segments `vs` are exactly what repeated ordered choice parses from
/// `p` up to `e` in `b`.
pub open spec fn segs_at(b: Seq<u8>, p: int, e: int, vs: Seq<JpegDataView>) -> bool
    decreases vs.len(),
{
    if vs.len() == 0 {
        p == e
    } else {
        let m = p + vs[0].encoding().len();
        seg_at(b, p, m, vs[0]) && segs_at(b, m, e, vs.drop_first())
    }
}

/// Where the container body that starts at `p` of `b` ends (just past the
/// End-of-Image marker), or the exact failure: segments are taken as long
/// as one parses; then the End-of-Image marker is required. When it is
/// absent, an exhausted input is a missing end marker, and anything else
/// reports why no further segment matched.
pub open spec fn body_end(b: Seq<u8>, p: int) -> Result<int, ParseError>
    decreases b.len() - p,
{
    match jpeg_data_end(b, p) {
        Ok(e) => if p < e <= b.len() {
            body_end(b, e)
        } else {
            // a segment that parses always advances and stays inside the
            // input, so this branch is never the outcome
            Ok(e)
        },
        Err(err) => if p == b.len() {
            Err(ParseError { kind: ErrorKind::MissingEndMarker, offset: p as usize })
        } else if eoi_at(b, p) {
            Ok(p + 2)
        } else {
            Err(err)
        },
    }
}

/// What parsing the whole buffer `b` yields: the position just past the
/// End-of-Image marker of the consumed prefix, or the exact failure.
pub open spec fn parse_result(b: Seq<u8>) -> Result<int, ParseError> {
    if !soi_at(b, 0) {
        Err(ParseError { kind: ErrorKind::MissingStartMarker, offset: 0 })
    } else {
        body_end(b, 2)
    }
}

/// A successful parse of `b`: the prefix of `b` up to `end` is the
/// Start-of-Image marker, the segments `vs`, and the End-of-Image marker.
pub open spec fn parses_to(b: Seq<u8>, vs: Seq<JpegDataView>, end: int) -> bool {
    &&& soi_at(b, 0)
    &&& 4 <= end <= b.len()
    &&& segs_at(b, 2, end - 2, vs)
    &&& eoi_at(b, end - 2)
    &&& parse_result(b) == Ok::<int, ParseError>(end)
}

/// The segment `v` holds as a tagged block with tag byte `marker`.
pub open spec fn is_marked_with(v: JpegDataView, marker: u8) -> bool {
    v matches JpegDataView::MarkedData(m) && m.marker == marker
}

/// Some segment of `vs` is a tagged block with tag byte `marker`.
pub open spec fn has_marked(vs: Seq<JpegDataView>, marker: u8) -> bool {
    exists|i: int| 0 <= i < vs.len() && is_marked_with(vs[i], marker)
}

/// The tagged-block content of a segment known to be a tagged block.
pub open spec fn as_marked(v: JpegDataView) -> MarkedView
    recommends
        v is MarkedData,
{
    match v {
        JpegDataView::MarkedData(m) => m,
        JpegDataView::ScanSegment(_) => arbitrary(),
    }
}

/// How injecting the tagged block `m` turns the segment list `s` into `t`:
/// the first tagged block carrying `m.marker` is replaced in place; when
/// none exists, `m` is inserted in front of all segments.
pub open spec fn inject_post(s: Seq<JpegDataView>, t: Seq<JpegDataView>, m: MarkedView) -> bool {
    if has_marked(s, m.marker) {
        exists|i: int|
            {
                &&& 0 <= i < s.len()
                &&& is_marked_with(s[i], m.marker)
                &&& (forall|j: int| 0 <= j < i ==> !is_marked_with(s[j], m.marker))
                &&& t == s.update(i, JpegDataView::MarkedData(m))
            }
    } else {
        t == seq![JpegDataView::MarkedData(m)] + s
    }
}

pub proof fn lemma_encoded_list_push(vs: Seq<JpegDataView>, v: JpegDataView)
    ensures
        encoded_list(vs.push(v)) == encoded_list(vs) + v.encoding(),
    decreases vs.len(),
{
    assert(vs.push(v).len() == vs.len() + 1);
    if vs.len() == 0 {
        assert(vs.push(v)[0] == v);
        assert(vs.push(v).drop_first() =~= Seq::<JpegDataView>::empty());
        assert(encoded_list(Seq::<JpegDataView>::empty()) == Seq::<u8>::empty());
        assert(encoded_list(vs.push(v)) =~= encoded_list(vs) + v.encoding());
    } else {
        lemma_encoded_list_push(vs.drop_first(), v);
        assert(vs.push(v)[0] == vs[0]);
        assert(vs.push(v).drop_first() =~= vs.drop_first().push(v));
        assert(encoded_list(vs.push(v)) =~= encoded_list(vs) + v.encoding());
    }
}

pub proof fn lemma_segs_at_push(
    b: Seq<u8>,
    p: int,
    q: int,
    vs: Seq<JpegDataView>,
    v: JpegDataView,
    e: int,
)
    requires
        segs_at(b, p, q, vs),
        seg_at(b, q, e, v),
        e == q + v.encoding().len(),
    ensures
        segs_at(b, p, e, vs.push(v)),
    decreases vs.len(),
{
    assert(vs.push(v).len() == vs.len() + 1);
    if vs.len() == 0 {
        assert(vs.push(v)[0] == v);
        assert(vs.push(v).drop_first() =~= Seq::<JpegDataView>::empty());
        assert(segs_at(b, e, e, vs.push(v).drop_first()));
    } else {
        lemma_segs_at_push(b, p + vs[0].encoding().len(), q, vs.drop_first(), v, e);
        assert(vs.push(v)[0] == vs[0]);
        assert(vs.push(v).drop_first() =~= vs.drop_first().push(v));
    }
}

pub proof fn lemma_encoded_list_cons(v: JpegDataView, vs: Seq<JpegDataView>)
    ensures
        encoded_list(seq![v] + vs) == v.encoding() + encoded_list(vs),
{
    assert((seq![v] + vs)[0] == v);
    assert((seq![v] + vs).drop_first() =~= vs);
}

pub proof fn lemma_encoded_list_concat(a: Seq<JpegDataView>, b: Seq<JpegDataView>)
    ensures
        encoded_list(a + b) == encoded_list(a) + encoded_list(b),
    decreases a.len(),
{
    if a.len() == 0 {
        assert(a + b =~= b);
        assert(encoded_list(a) == Seq::<u8>::empty());
        assert(encoded_list(a + b) =~= encoded_list(a) + encoded_list(b));
    } else {
        lemma_encoded_list_concat(a.drop_first(), b);
        assert((a + b)[0] == a[0]);
        assert((a + b).drop_first() =~= a.drop_first() + b);
        assert(encoded_list(a + b) =~= encoded_list(a) + encoded_list(b));
    }
}

/// Injecting a tagged block whose tag the document lacks places the
/// block's wire form immediately after the Start-of-Image marker, before
/// the unchanged encodings of all the old segments.
pub proof fn lemma_inject_insert_encoding(
    s: Seq<JpegDataView>,
    t: Seq<JpegDataView>,
    m: MarkedView,
)
    requires
        !has_marked(s, m.marker),
        inject_post(s, t, m),
    ensures
        jpeg_encoding(t) == seq![0xFFu8, 0xD8u8] + m.encoding() + encoded_list(s) + seq![
            0xFFu8,
            0xD9u8,
        ],
{
    lemma_encoded_list_cons(JpegDataView::MarkedData(m), s);
    assert(jpeg_encoding(t) =~= seq![0xFFu8, 0xD8u8] + m.encoding() + encoded_list(s) + seq![
        0xFFu8,
        0xD9u8,
    ]);
}

/// Injecting a tagged block whose tag the document already holds, first at
/// position `i`, splices the block's wire form between the unchanged
/// encodings of the segments before and after that position.
pub proof fn lemma_inject_replace_encoding(
    s: Seq<JpegDataView>,
    t: Seq<JpegDataView>,
    m: MarkedView,
    i: int,
)
    requires
        0 <= i < s.len(),
        is_marked_with(s[i], m.marker),
        forall|j: int| 0 <= j < i ==> !is_marked_with(s[j], m.marker),
        inject_post(s, t, m),
    ensures
        jpeg_encoding(t) == seq![0xFFu8, 0xD8u8] + encoded_list(s.take(i)) + m.encoding()
            + encoded_list(s.skip(i + 1)) + seq![0xFFu8, 0xD9u8],
{
    assert(has_marked(s, m.marker));
    let v = JpegDataView::MarkedData(m);
    let i2 = choose|i2: int|
        {
            &&& 0 <= i2 < s.len()
            &&& is_marked_with(s[i2], m.marker)
            &&& (forall|j: int| 0 <= j < i2 ==> !is_marked_with(s[j], m.marker))
            &&& t == s.update(i2, v)
        };
    assert(i2 == i) by {
        if i2 < i {
            assert(is_marked_with(s[i2], m.marker));
        } else if i < i2 {
            assert(!is_marked_with(s[i], m.marker));
        }
    }
    assert(t =~= s.take(i) + (seq![v] + s.skip(i + 1)));
    lemma_encoded_list_concat(s.take(i), seq![v] + s.skip(i + 1));
    lemma_encoded_list_cons(v, s.skip(i + 1));
    assert(jpeg_encoding(t) =~= seq![0xFFu8, 0xD8u8] + encoded_list(s.take(i)) + m.encoding()
        + encoded_list(s.skip(i + 1)) + seq![0xFFu8, 0xD9u8]);
}

/// What `segs_at` determines is well formed, lies inside the input, and
/// encodes back to exactly the range it was parsed from.
pub proof fn lemma_segs_at_encoding(b: Seq<u8>, p: int, e: int, vs: Seq<JpegDataView>)
    requires
        0 <= p <= b.len(),
        segs_at(b, p, e, vs),
    ensures
        p <= e <= b.len(),
        all_wf(vs),
        encoded_list(vs) == b.subrange(p, e),
    decreases vs.len(),
{
    if vs.len() == 0 {
        assert(encoded_list(vs) =~= b.subrange(p, e));
    } else {
        let m = p + vs[0].encoding().len();
        lemma_seg_at_encoding(b, p, m, vs[0]);
        lemma_segs_at_encoding(b, m, e, vs.drop_first());
        assert forall|i: int| 0 <= i < vs.len() implies (#[trigger] vs[i]).wf() by {
            if i > 0 {
                assert(vs[i] == vs.drop_first()[i - 1]);
            }
        }
        assert(encoded_list(vs) =~= b.subrange(p, e));
    }
}

/// Round trip: whatever a successful parse consumed, encoding the parsed
/// document reproduces byte for byte. A parse that consumed the whole
/// buffer encodes back to the whole buffer.
pub proof fn lemma_parse_encode_round_trip(b: Seq<u8>, vs: Seq<JpegDataView>, end: int)
    requires
        parses_to(b, vs, end),
    ensures
        jpeg_encoding(vs) == b.subrange(0, end),
        end == b.len() ==> jpeg_encoding(vs) == b,
{
    lemma_segs_at_encoding(b, 2, end - 2, vs);
    assert(jpeg_encoding(vs) =~= b.subrange(0, end));
    if end == b.len() {
        assert(b.subrange(0, end) =~= b);
    }
}

/// A parsed document: the segments between the implicit Start-of-Image and
/// End-of-Image markers, which are not stored.
#[derive(Clone, Debug)]
pub struct Jpeg {
    pub data: Vec<JpegData>,
}

impl View for Jpeg {
    type V = Seq<JpegDataView>;

    open spec fn view(&self) -> Seq<JpegDataView> {
        seg_views(self.data@)
    }
}

impl Jpeg {
    /// Every segment's length field fits in 16 bits.
    pub open spec fn wf(self) -> bool {
        all_wf(self@)
    }

    /// The wire form of the document.
    pub open spec fn encoding(self) -> Seq<u8> {
        jpeg_encoding(self@)
    }

    /// Parses a document from the front of `input`: the Start-of-Image
    /// marker, then segments by ordered choice as long as one matches, then
    /// the End-of-Image marker, exactly as [`parse_result`] says. Bytes
    /// after the End-of-Image marker are left unread. On failure no
    /// document is produced at all.
    pub fn parser(input: &[u8]) -> (r: Result<(Jpeg, usize), ParseError>)
        ensures
            match r {
                Ok((jpeg, end)) => {
                    &&& parses_to(input@, jpeg@, end as int)
                    &&& jpeg.wf()
                    &&& jpeg.encoding() == input@.subrange(0, end as int)
                },
                Err(e) => parse_result(input@) == Err::<int, ParseError>(e),
            },
    {
        let n = input.len();
        let start = match soi(input, 0) {
            Some(s) => s,
            None => {
                return Err(ParseError { kind: ErrorKind::MissingStartMarker, offset: 0 });
            },
        };
        let mut p: usize = start;
        let mut segs: Vec<JpegData> = Vec::new();
        loop
            invariant
                2 <= p <= n,
                n == input@.len(),
                soi_at(input@, 0),
                segs_at(input@, 2, p as int, seg_views(segs@)),
                all_wf(seg_views(segs@)),
                body_end(input@, 2) == body_end(input@, p as int),
            decreases n - p,
        {
            match JpegData::parser(input, p) {
                Ok((d, e)) => {
                    proof {
                        lemma_seg_at_encoding(input@, p as int, e as int, d@);
                        lemma_segs_at_push(
                            input@,
                            2,
                            p as int,
                            seg_views(segs@),
                            d@,
                            e as int,
                        );
                        assert(seg_views(segs@.push(d)) =~= seg_views(segs@).push(d@));
                    }
                    segs.push(d);
                    p = e;
                },
                Err(err) => {
                    if p == n {
                        return Err(ParseError { kind: ErrorKind::MissingEndMarker, offset: p });
                    }
                    match eoi(input, p) {
                        Some(end) => {
                            let jpeg = Jpeg { data: segs };
                            proof {
                                lemma_parse_encode_round_trip(input@, jpeg@, end as int);
                            }
                            return Ok((jpeg, end));
                        },
                        None => {
                            return Err(err);
                        },
                    }
                },
            }
        }
    }

    /// Appends the wire form of the document to `out`: Start-of-Image, each
    /// segment in order, End-of-Image. The length fields are derived from
    /// the payload sizes, never taken from a stored field.
    pub fn write(&self, out: &mut Vec<u8>)
        requires
            self.wf(),
        ensures
            final(out)@ == old(out)@ + self.encoding(),
    {
        out.push(0xFF);
        out.push(0xD8);
        let n = self.data.len();
        let mut i: usize = 0;
        while i < n
            invariant
                i <= n,
                n == self.data@.len(),
                self.wf(),
                out@ == old(out)@ + seq![0xFFu8, 0xD8u8] + encoded_list(self@.take(i as int)),
            decreases n - i,
        {
            let d = &self.data[i];
            assert(d@ == self@[i as int]);
            d.write(out);
            proof {
                assert(self@.take(i + 1) =~= self@.take(i as int).push(self@[i as int]));
                lemma_encoded_list_push(self@.take(i as int), self@[i as int]);
                assert(out@ =~= old(out)@ + seq![0xFFu8, 0xD8u8] + encoded_list(
                    self@.take(i + 1),
                ));
            }
            i += 1;
        }
        out.push(0xFF);
        out.push(0xD9);
        proof {
            assert(self@.take(n as int) =~= self@);
            assert(out@ =~= old(out)@ + self.encoding());
        }
    }

    /// Writes `marked_data` into the document: the first tagged block with
    /// the same tag is replaced in place; when none exists, the block is
    /// inserted as the first segment, right after the implicit
    /// Start-of-Image marker. Scan blocks are never matched against.
    pub fn inject_marked_data(&mut self, marked_data: MarkedData)
        ensures
            inject_post(old(self)@, final(self)@, marked_data@),
    {
        let ghost s = self@;
        let n = self.data.len();
        let mut i: usize = 0;
        while i < n
            invariant
                i <= n,
                n == self.data@.len(),
                self@ == s,
                s == old(self)@,
                forall|j: int| 0 <= j < i ==> !is_marked_with(s[j], marked_data@.marker),
            decreases n - i,
        {
            let found = match &self.data[i] {
                JpegData::MarkedData(md) => md.marker == marked_data.marker,
                JpegData::ScanSegment(_) => false,
            };
            if found {
                proof {
                    assert(is_marked_with(s[i as int], marked_data@.marker));
                }
                self.data[i] = JpegData::MarkedData(marked_data);
                proof {
                    assert(self@ =~= s.update(i as int, JpegDataView::MarkedData(marked_data@)));
                }
                return;
            }
            i += 1;
        }
        self.data.insert(0, JpegData::MarkedData(marked_data));
        proof {
            assert(!has_marked(s, marked_data@.marker));
            assert(self@ =~= seq![JpegDataView::MarkedData(marked_data@)] + s);
        }
    }

    /// Copies the first tagged block of `src` carrying `marker` into this
    /// document as [`Jpeg::inject_marked_data`] does, and reports whether
    /// `src` held one. When it does not, the document is left unchanged.
    pub fn inject_marker_from(&mut self, src: &Jpeg, marker: u8) -> (r: bool)
        ensures
            r == has_marked(src@, marker),
            !r ==> *final(self) == *old(self),
            r ==> exists|i: int|
                {
                    &&& 0 <= i < src@.len()
                    &&& is_marked_with(src@[i], marker)
                    &&& (forall|j: int| 0 <= j < i ==> !is_marked_with(src@[j], marker))
                    &&& inject_post(old(self)@, final(self)@, as_marked(src@[i]))
                },
    {
        let n = src.data.len();
        let mut i: usize = 0;
        while i < n
            invariant
                i <= n,
                n == src.data@.len(),
                self@ == old(self)@,
                *self == *old(self),
                forall|j: int| 0 <= j < i ==> !is_marked_with(src@[j], marker),
            decreases n - i,
        {
            match &src.data[i] {
                JpegData::MarkedData(md) => {
                    if md.marker == marker {
                        let copy = MarkedData {
                            marker: md.marker,
                            data: slice_to_vec(md.data.as_slice()),
                        };
                        proof {
                            assert(is_marked_with(src@[i as int], marker));
                            assert(copy@ == as_marked(src@[i as int]));
                        }
                        self.inject_marked_data(copy);
                        return true;
                    }
                },
                JpegData::ScanSegment(_) => {},
            }
            i += 1;
        }
        false
    }
}

} // verus!
