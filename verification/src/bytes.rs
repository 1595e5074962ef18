use vstd::prelude::*;

verus! {

/// Whether `start..end` is a range of a sequence of `len` items.
pub open spec fn range_within(start: usize, end: usize, len: nat) -> bool {
    start <= end && end <= len
}

/// The bytes of `text` from `start` up to `end`; empty where that is no
/// range of `text`.
pub open spec fn range_of(text: Seq<u8>, start: usize, end: usize) -> Seq<u8> {
    if range_within(start, end, text.len()) {
        text.subrange(start as int, end as int)
    } else {
        Seq::empty()
    }
}

/// The contents of each of `lines`.
pub open spec fn views(lines: Seq<Vec<u8>>) -> Seq<Seq<u8>> {
    Seq::new(lines.len(), |i: int| lines[i]@)
}

/// Whether `text` ends with `suffix`.
pub open spec fn has_suffix(text: Seq<u8>, suffix: Seq<u8>) -> bool {
    suffix.len() <= text.len() && text.subrange(text.len() - suffix.len(), text.len() as int)
        == suffix
}

/// Compares the range `start..end` of `text` with `pattern`.
pub fn range_equals(text: &[u8], start: usize, end: usize, pattern: &[u8]) -> (same: bool)
    ensures
        same == (range_of(text@, start, end) == pattern@),
{
    if !(start <= end && end <= text.len()) {
        let same = pattern.len() == 0;
        assert(same == (range_of(text@, start, end) =~= pattern@));
        return same;
    }
    if end - start != pattern.len() {
        return false;
    }
    let mut i: usize = 0;
    while i < pattern.len()
        invariant
            start <= end <= text.len(),
            end - start == pattern.len(),
            i <= pattern.len(),
            forall|j: int| 0 <= j < i ==> text@[start + j] == pattern@[j],
        decreases pattern.len() - i,
    {
        if text[start + i] != pattern[i] {
            assert(range_of(text@, start, end)[i as int] != pattern@[i as int]);
            return false;
        }
        i += 1;
    }
    assert(range_of(text@, start, end) =~= pattern@);
    true
}

/// Copies the range `start..end` out of `text`.
pub fn copy_range(text: &[u8], start: usize, end: usize) -> (out: Vec<u8>)
    ensures
        out@ == range_of(text@, start, end),
{
    let mut out: Vec<u8> = Vec::new();
    if !(start <= end && end <= text.len()) {
        assert(out@ =~= range_of(text@, start, end));
        return out;
    }
    let mut i: usize = start;
    while i < end
        invariant
            start <= i <= end <= text.len(),
            out@ == text@.subrange(start as int, i as int),
        decreases end - i,
    {
        out.push(text[i]);
        assert(out@ =~= text@.subrange(start as int, i + 1));
        i += 1;
    }
    out
}

/// Tests whether `text` ends with `suffix`.
pub fn ends_with(text: &[u8], suffix: &[u8]) -> (yes: bool)
    ensures
        yes == has_suffix(text@, suffix@),
{
    if suffix.len() > text.len() {
        return false;
    }
    let from: usize = text.len() - suffix.len();
    let same = range_equals(text, from, text.len(), suffix);
    same
}

} // verus!
