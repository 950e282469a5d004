use vstd::prelude::*;
use vstd::slice::slice_subrange;
use vstd::slice::slice_to_vec;

use crate::error::ErrorKind;
use crate::error::ParseError;

verus! {

/// Appends all of `bytes` to `out`.
pub(crate) fn append_bytes(out: &mut Vec<u8>, bytes: &[u8])
    ensures
        final(out)@ == old(out)@ + bytes@,
{
    let mut i: usize = 0;
    while i < bytes.len()
        invariant
            i <= bytes@.len(),
            out@ == old(out)@ + bytes@.subrange(0, i as int),
        decreases bytes@.len() - i,
    {
        out.push(bytes[i]);
        assert(out@ =~= old(out)@ + bytes@.subrange(0, i + 1));
        i += 1;
    }
    assert(out@ =~= old(out)@ + bytes@);
}

/// The value of a big-endian 16-bit length field with bytes `hi`, `lo`.
pub open spec fn be16(hi: u8, lo: u8) -> int {
    hi * 256 + lo
}

/// Which tag bytes a tagged-block parse accepts after the leading `FF`.
#[derive(Clone, Copy, Debug, PartialEq, Eq, Structural)]
pub enum MarkerRule {
    /// Only this tag byte.
    Exactly(u8),
    /// Any tag byte but this one.
    AnyExcept(u8),
    /// Any tag byte.
    Any,
}

impl MarkerRule {
    /// Whether the rule accepts tag byte `m`.
    pub open spec fn accepts(self, m: u8) -> bool {
        match self {
            MarkerRule::Exactly(t) => m == t,
            MarkerRule::AnyExcept(t) => m != t,
            MarkerRule::Any => true,
        }
    }

    /// Runtime test of [`MarkerRule::accepts`].
    pub fn admits(&self, m: u8) -> (r: bool)
        ensures
            r == self.accepts(m),
    {
        match self {
            MarkerRule::Exactly(t) => m == *t,
            MarkerRule::AnyExcept(t) => m != *t,
            MarkerRule::Any => true,
        }
    }
}

/// A length-prefixed tagged block: on the wire it is `FF`, the tag byte, a
/// big-endian 16-bit length that counts itself, and the payload.
#[derive(Clone, Debug, PartialEq, Eq)]
pub struct MarkedData {
    pub marker: u8,
    pub data: Vec<u8>,
}

/// The mathematical content of a [`MarkedData`].
#[verifier::ext_equal]
pub struct MarkedView {
    pub marker: u8,
    pub data: Seq<u8>,
}

impl View for MarkedData {
    type V = MarkedView;

    open spec fn view(&self) -> MarkedView {
        MarkedView { marker: self.marker, data: self.data@ }
    }
}

impl MarkedView {
    /// The declared length field: the payload plus the two length bytes.
    pub open spec fn len_field(self) -> int {
        self.data.len() as int + 2
    }

    /// The length field must fit in 16 bits.
    pub open spec fn wf(self) -> bool {
        self.len_field() <= 0xFFFF
    }

    /// The wire form of the block.
    pub open spec fn encoding(self) -> Seq<u8> {
        seq![
            0xFFu8,
            self.marker,
            (self.len_field() / 256) as u8,
            (self.len_field() % 256) as u8,
        ] + self.data
    }
}

/// Where a tagged block that starts at `p` of `b` ends, under tag rule
/// `rule`; or the exact failure. This is the whole grammar of a tagged
/// block: the exec parser returns precisely this.
pub open spec fn marked_end(b: Seq<u8>, p: int, rule: MarkerRule) -> Result<int, ParseError> {
    if p >= b.len() {
        Err(ParseError { kind: ErrorKind::UnexpectedEndOfInput, offset: b.len() as usize })
    } else if b[p] != 0xFF {
        Err(ParseError { kind: ErrorKind::NoAlternativeMatched, offset: p as usize })
    } else if p + 1 >= b.len() {
        Err(ParseError { kind: ErrorKind::UnexpectedEndOfInput, offset: b.len() as usize })
    } else if !rule.accepts(b[p + 1]) {
        Err(ParseError { kind: ErrorKind::NoAlternativeMatched, offset: (p + 1) as usize })
    } else if p + 4 > b.len() {
        Err(ParseError { kind: ErrorKind::UnexpectedEndOfInput, offset: b.len() as usize })
    } else if be16(b[p + 2], b[p + 3]) < 2 {
        Err(ParseError { kind: ErrorKind::MalformedLength, offset: (p + 2) as usize })
    } else if p + 2 + be16(b[p + 2], b[p + 3]) > b.len() {
        Err(ParseError { kind: ErrorKind::UnexpectedEndOfInput, offset: b.len() as usize })
    } else {
        Ok(p + 2 + be16(b[p + 2], b[p + 3]))
    }
}

/// The tagged block starting at `p` of `b` ends at `e` and has content `m`.
pub open spec fn marked_at(b: Seq<u8>, p: int, e: int, m: MarkedView, rule: MarkerRule) -> bool {
    &&& marked_end(b, p, rule) == Ok::<int, ParseError>(e)
    &&& m.marker == b[p + 1]
    &&& m.data == b.subrange(p + 4, e)
}

/// A tagged block with declared length under 2 always fails with
/// `MalformedLength`, whatever its tag and whatever follows.
pub proof fn lemma_length_floor(b: Seq<u8>, p: int, rule: MarkerRule)
    requires
        0 <= p,
        p + 4 <= b.len(),
        b[p] == 0xFF,
        rule.accepts(b[p + 1]),
        be16(b[p + 2], b[p + 3]) < 2,
    ensures
        marked_end(b, p, rule) == Err::<int, ParseError>(
            ParseError { kind: ErrorKind::MalformedLength, offset: (p + 2) as usize },
        ),
{
}

/// A tagged block whose declared length overruns the remaining input always
/// fails with `UnexpectedEndOfInput`.
pub proof fn lemma_truncated_block_fails(b: Seq<u8>, p: int, rule: MarkerRule)
    requires
        0 <= p,
        p + 4 <= b.len(),
        b[p] == 0xFF,
        rule.accepts(b[p + 1]),
        be16(b[p + 2], b[p + 3]) >= 2,
        p + 2 + be16(b[p + 2], b[p + 3]) > b.len(),
    ensures
        marked_end(b, p, rule) == Err::<int, ParseError>(
            ParseError { kind: ErrorKind::UnexpectedEndOfInput, offset: b.len() as usize },
        ),
{
}

/// The block content determined by `marked_at` is well formed and its
/// encoding is exactly the consumed range.
pub proof fn lemma_marked_at_encoding(b: Seq<u8>, p: int, e: int, m: MarkedView, rule: MarkerRule)
    requires
        0 <= p,
        marked_at(b, p, e, m, rule),
    ensures
        m.wf(),
        p + 4 <= e <= b.len(),
        m.encoding() == b.subrange(p, e),
        m.encoding().len() == e - p,
{
    let hi = b[p + 2];
    let lo = b[p + 3];
    assert((hi * 256 + lo) / 256 == hi && (hi * 256 + lo) % 256 == lo) by (nonlinear_arith)
        requires
            0 <= hi < 256,
            0 <= lo < 256,
    ;
    assert(m.len_field() == be16(hi, lo));
    assert(m.encoding() =~= b.subrange(p, e));
}

impl MarkedData {
    /// Parses the tagged block at `pos`, accepting tag bytes by `rule`:
    /// `FF`, the tag, a big-endian 16-bit length `L >= 2` counting itself,
    /// then `L - 2` payload bytes. Returns the block and the position just
    /// past it, exactly as [`marked_end`] says, and fails exactly where it
    /// says, consuming nothing.
    pub fn parser(input: &[u8], pos: usize, rule: MarkerRule) -> (r: Result<
        (MarkedData, usize),
        ParseError,
    >)
        requires
            pos <= input@.len(),
        ensures
            match r {
                Ok((md, end)) => {
                    &&& marked_at(input@, pos as int, end as int, md@, rule)
                    &&& md@.wf()
                    &&& pos + 4 <= end <= input@.len()
                    &&& input@.subrange(pos as int, end as int) == md@.encoding()
                },
                Err(e) => marked_end(input@, pos as int, rule) == Err::<int, ParseError>(e),
            },
    {
        let n = input.len();
        if pos >= n {
            return Err(ParseError { kind: ErrorKind::UnexpectedEndOfInput, offset: n });
        }
        if input[pos] != 0xFF {
            return Err(ParseError { kind: ErrorKind::NoAlternativeMatched, offset: pos });
        }
        if n - pos < 2 {
            return Err(ParseError { kind: ErrorKind::UnexpectedEndOfInput, offset: n });
        }
        let marker = input[pos + 1];
        if !rule.admits(marker) {
            return Err(ParseError { kind: ErrorKind::NoAlternativeMatched, offset: pos + 1 });
        }
        if n - pos < 4 {
            return Err(ParseError { kind: ErrorKind::UnexpectedEndOfInput, offset: n });
        }
        let length: usize = (input[pos + 2] as usize) * 256 + (input[pos + 3] as usize);
        if length < 2 {
            return Err(ParseError { kind: ErrorKind::MalformedLength, offset: pos + 2 });
        }
        if length - 2 > n - (pos + 4) {
            return Err(ParseError { kind: ErrorKind::UnexpectedEndOfInput, offset: n });
        }
        let end = pos + 2 + length;
        let data = slice_to_vec(slice_subrange(input, pos + 4, end));
        let md = MarkedData { marker, data };
        proof {
            lemma_marked_at_encoding(input@, pos as int, end as int, md@, rule);
        }
        Ok((md, end))
    }

    /// Appends the wire form of the block to `out`: `FF`, the tag, the
    /// big-endian length derived from the payload size, then the payload.
    pub fn write(&self, out: &mut Vec<u8>)
        requires
            self@.wf(),
        ensures
            final(out)@ == old(out)@ + self@.encoding(),
    {
        out.push(0xFF);
        out.push(self.marker);
        let length: usize = self.data.len() + 2;
        out.push((length / 256) as u8);
        out.push((length % 256) as u8);
        append_bytes(out, self.data.as_slice());
        assert(out@ =~= old(out)@ + self@.encoding());
    }
}

} // verus!
