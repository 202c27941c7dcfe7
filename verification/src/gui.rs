use vstd::prelude::*;

verus! {

/// A UTF-8 continuation byte: one that stands in the middle of an encoded
/// character, never at its start.
pub open spec fn is_continuation(b: u8) -> bool {
    0x80 <= b < 0xC0
}

/// Where to cut a byte message so that a chunk of at most `at + 1` bytes
/// ends on a character boundary: the largest index not past `at` that does
/// not carry a continuation byte, backing off to 0 when only continuation
/// bytes precede.  The GUI channel sends each chunk on a line of its own,
/// and cutting inside a character would corrupt it.
pub fn utf8_cut(bytes: &[u8], at: usize) -> (r: usize)
    requires
        at < bytes@.len(),
    ensures
        r <= at,
        forall|j: int| r < j <= at ==> is_continuation(bytes@[j]),
        r > 0 ==> !is_continuation(bytes@[r as int]),
{
    let mut cut = at;
    while cut > 0 && bytes[cut] >= 0x80 && bytes[cut] < 0xC0
        invariant
            cut <= at,
            at < bytes@.len(),
            forall|j: int| cut < j <= at ==> is_continuation(bytes@[j]),
        decreases cut,
    {
        cut = cut - 1;
    }
    cut
}

} // verus!
