//! Handling of the platform's wide (16-bit) character buffers.
//!
//! Raw per-process buffers arrive as sequences of 16-bit units.  They are
//! not guaranteed to be terminated, but when a terminator (a zero unit)
//! is present, everything from it onward is padding and is discarded.

use vstd::prelude::*;

verus! {

/// The index of the first zero unit at or after `i`, or the length of
/// `s` when there is none.
pub open spec fn first_nul_from(s: Seq<u16>, i: int) -> int
    decreases s.len() - i,
{
    if i < 0 || i >= s.len() {
        s.len() as int
    } else if s[i] == 0 {
        i
    } else {
        first_nul_from(s, i + 1)
    }
}

/// `s` cut at its first zero unit (all of `s` when it has none).
pub open spec fn spec_truncate_nul(s: Seq<u16>) -> Seq<u16> {
    s.take(first_nul_from(s, 0))
}

/// The index just past the last path separator (backslash or slash)
/// in `s`, or 0 when there is none.
pub open spec fn after_last_sep(s: Seq<u16>) -> int
    decreases s.len(),
{
    if s.len() == 0 {
        0
    } else if s[s.len() - 1] == 0x5c || s[s.len() - 1] == 0x2f {
        s.len() as int
    } else {
        after_last_sep(s.drop_last())
    }
}

/// The file-name component of a path held in `s`: everything after the
/// last path separator.  Empty when `s` ends in a separator.
pub open spec fn spec_file_name(s: Seq<u16>) -> Seq<u16> {
    s.subrange(after_last_sep(s), s.len() as int)
}

/// What `String::from_utf16_lossy` returns for a given sequence of
/// 16-bit units; a fixed function of the units alone.
pub uninterp spec fn decoded(s: Seq<u16>) -> Seq<char>;

/// Relies on `String::from_utf16_lossy`: decodes UTF-16, mapping
/// ill-formed parts to the replacement character; the result depends on
/// the units alone, and an empty input decodes to the empty string.
#[verifier::external_body]
pub fn decode_wide(v: &Vec<u16>) -> (r: String)
    ensures
        r@ == decoded(v@),
        v@.len() == 0 ==> r@.len() == 0,
{
    String::from_utf16_lossy(v.as_slice())
}

/// Returns `v` cut at its first zero unit.
pub fn truncate_at_nul(v: &Vec<u16>) -> (r: Vec<u16>)
    ensures
        r@ == spec_truncate_nul(v@),
{
    let mut end: usize = v.len();
    let mut i: usize = 0;
    while i < v.len() && v[i] != 0
        invariant
            0 <= i <= v.len(),
            forall|j: int| 0 <= j < i ==> v@[j] != 0,
        decreases v.len() - i,
    {
        i += 1;
    }
    if i < v.len() {
        end = i;
    }
    proof {
        lemma_first_nul_found(v@, 0, end as int);
    }
    let mut r: Vec<u16> = Vec::new();
    let mut k: usize = 0;
    while k < end
        invariant
            0 <= k <= end <= v.len(),
            r@ == v@.take(k as int),
        decreases end - k,
    {
        let x = v[k];
        r.push(x);
        proof {
            assert(r@ =~= v@.take(k + 1));
        }
        k += 1;
    }
    proof {
        assert(r@ =~= spec_truncate_nul(v@));
    }
    r
}

/// `first_nul_from(s, 0)` is the position scanned to: all earlier units
/// are nonzero, and the unit there (when in range) is zero.
proof fn lemma_first_nul_found(s: Seq<u16>, i: int, end: int)
    requires
        0 <= i <= end <= s.len(),
        forall|j: int| i <= j < end ==> s[j] != 0,
        end < s.len() ==> s[end] == 0,
    ensures
        first_nul_from(s, i) == end,
    decreases end - i,
{
    if i < end {
        lemma_first_nul_found(s, i + 1, end);
    }
}

/// Returns the file-name component of the path held in `v`.
pub fn wide_file_name(v: &Vec<u16>) -> (r: Vec<u16>)
    ensures
        r@ == spec_file_name(v@),
{
    let mut start: usize = 0;
    let mut i: usize = v.len();
    while i > 0 && start == 0
        invariant
            0 <= i <= v.len(),
            forall|j: int|
                (if start == 0 { i as int } else { start as int }) <= j < v@.len() ==> (v@[j]
                    != 0x5c && v@[j] != 0x2f),
            start != 0 ==> i < v.len() && start == i + 1 && (v@[i as int] == 0x5c || v@[i as int]
                == 0x2f),
        decreases i,
    {
        i -= 1;
        if v[i] == 0x5c || v[i] == 0x2f {
            start = i + 1;
        }
    }
    proof {
        lemma_after_last_sep(v@, start as int);
    }
    let mut r: Vec<u16> = Vec::new();
    let mut k: usize = start;
    while k < v.len()
        invariant
            start <= k <= v.len(),
            r@ == v@.subrange(start as int, k as int),
        decreases v.len() - k,
    {
        let x = v[k];
        r.push(x);
        proof {
            assert(r@ =~= v@.subrange(start as int, k + 1));
        }
        k += 1;
    }
    proof {
        assert(r@ =~= spec_file_name(v@));
    }
    r
}

/// `after_last_sep(s)` equals any position that has a separator just
/// before it and none from it onward.
proof fn lemma_after_last_sep(s: Seq<u16>, start: int)
    requires
        0 <= start <= s.len(),
        forall|j: int| start <= j < s.len() ==> (s[j] != 0x5c && s[j] != 0x2f),
        start > 0 ==> (s[start - 1] == 0x5c || s[start - 1] == 0x2f),
    ensures
        after_last_sep(s) == start,
    decreases s.len(),
{
    if s.len() == 0 {
    } else if s[s.len() - 1] == 0x5c || s[s.len() - 1] == 0x2f {
        assert(start == s.len());
    } else {
        assert(start < s.len());
        lemma_after_last_sep(s.drop_last(), start);
    }
}

/// Cuts `v` at its first zero unit and decodes the rest into a string.
pub fn wide_to_string(v: &Vec<u16>) -> (r: String)
    ensures
        r@ == decoded(spec_truncate_nul(v@)),
{
    let t = truncate_at_nul(v);
    decode_wide(&t)
}

} // verus!
