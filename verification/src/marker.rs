use vstd::prelude::*;

verus! {

/// The Start-of-Image marker `FF D8` stands at position `pos` of `b`.
pub open spec fn soi_at(b: Seq<u8>, pos: int) -> bool {
    &&& pos + 2 <= b.len()
    &&& b[pos] == 0xFF
    &&& b[pos + 1] == 0xD8
}

/// The End-of-Image marker `FF D9` stands at position `pos` of `b`.
pub open spec fn eoi_at(b: Seq<u8>, pos: int) -> bool {
    &&& pos + 2 <= b.len()
    &&& b[pos] == 0xFF
    &&& b[pos + 1] == 0xD9
}

/// A Reset marker (`FF` followed by one of `D0` through `D7`) stands at
/// position `pos` of `b`.
pub open spec fn rst_at(b: Seq<u8>, pos: int) -> bool {
    &&& pos + 2 <= b.len()
    &&& b[pos] == 0xFF
    &&& 0xD0 <= b[pos + 1] <= 0xD7
}

/// Matches the Start-of-Image marker at `pos`, consuming it on success and
/// nothing on failure.
pub fn soi(input: &[u8], pos: usize) -> (r: Option<usize>)
    requires
        pos <= input@.len(),
    ensures
        match r {
            Some(end) => soi_at(input@, pos as int) && end == pos + 2,
            None => !soi_at(input@, pos as int),
        },
{
    if input.len() - pos >= 2 && input[pos] == 0xFF && input[pos + 1] == 0xD8 {
        Some(pos + 2)
    } else {
        None
    }
}

/// Matches the End-of-Image marker at `pos`, consuming it on success and
/// nothing on failure.
pub fn eoi(input: &[u8], pos: usize) -> (r: Option<usize>)
    requires
        pos <= input@.len(),
    ensures
        match r {
            Some(end) => eoi_at(input@, pos as int) && end == pos + 2,
            None => !eoi_at(input@, pos as int),
        },
{
    if input.len() - pos >= 2 && input[pos] == 0xFF && input[pos + 1] == 0xD9 {
        Some(pos + 2)
    } else {
        None
    }
}

/// Matches a Reset marker at `pos`, consuming it on success and nothing on
/// failure. The container grammar recognizes this marker but does not use it.
pub fn rst(input: &[u8], pos: usize) -> (r: Option<usize>)
    requires
        pos <= input@.len(),
    ensures
        match r {
            Some(end) => rst_at(input@, pos as int) && end == pos + 2,
            None => !rst_at(input@, pos as int),
        },
{
    if input.len() - pos >= 2 && input[pos] == 0xFF && 0xD0 <= input[pos + 1]
        && input[pos + 1] <= 0xD7 {
        Some(pos + 2)
    } else {
        None
    }
}

} // verus!
