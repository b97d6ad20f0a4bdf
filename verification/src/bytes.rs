//! Byte strings: the searches, trims and comparisons that the wire format is
//! built from, each with the mathematical statement of what it computes.

use vstd::prelude::*;
use vstd::string::StringSliceAdditionalSpecFns;

verus! {

/// Carriage return.
pub const CR: u8 = 13;

/// Line feed.
pub const LF: u8 = 10;

/// Space.
pub const SPACE: u8 = 32;

/// Colon.
pub const COLON: u8 = 58;

/// Comma.
pub const COMMA: u8 = 44;

/// The bytes that a piece of text stands for on the wire.
pub open spec fn text(s: &str) -> Seq<u8> {
    s.spec_bytes()
}

/// The wire bytes of `s`.
pub fn text_bytes(s: &str) -> (bytes: &[u8])
    ensures
        bytes@ == text(s),
{
    s.as_bytes()
}

/// Horizontal tab, line feed, vertical tab, form feed, carriage return, space.
pub open spec fn is_whitespace(b: u8) -> bool {
    b == 32 || 9 <= b <= 13
}

/// `needle` lies in `hay` with its first byte at index `at`.
pub open spec fn occurs_at(hay: Seq<u8>, needle: Seq<u8>, at: int) -> bool {
    &&& 0 <= at
    &&& at + needle.len() <= hay.len()
    &&& hay.subrange(at, at + needle.len()) =~= needle
}

/// The least index at or after `from` at which `needle` occurs in `hay`.
pub open spec fn first_occurrence(hay: Seq<u8>, needle: Seq<u8>, from: int) -> Option<int>
    decreases hay.len() - from,
{
    if from < 0 || from + needle.len() > hay.len() {
        None
    } else if occurs_at(hay, needle, from) {
        Some(from)
    } else {
        first_occurrence(hay, needle, from + 1)
    }
}

/// `first_occurrence` returns an occurrence, there is none before it, and it
/// returns `None` only where there is none at all.
pub proof fn lemma_first_occurrence(hay: Seq<u8>, needle: Seq<u8>, from: int)
    requires
        0 <= from,
    ensures
        match first_occurrence(hay, needle, from) {
            Some(at) => {
                &&& from <= at
                &&& occurs_at(hay, needle, at)
                &&& forall|j: int| from <= j < at ==> !occurs_at(hay, needle, j)
            },
            None => forall|j: int| from <= j ==> !occurs_at(hay, needle, j),
        },
    decreases hay.len() - from,
{
    if from + needle.len() > hay.len() {
    } else if occurs_at(hay, needle, from) {
    } else {
        lemma_first_occurrence(hay, needle, from + 1);
    }
}

/// More bytes behind `hay` do not move the first occurrence in it.
pub proof fn lemma_first_occurrence_extends(
    hay: Seq<u8>,
    more: Seq<u8>,
    needle: Seq<u8>,
    from: int,
)
    requires
        first_occurrence(hay, needle, from) is Some,
    ensures
        first_occurrence(hay + more, needle, from) == first_occurrence(hay, needle, from),
    decreases hay.len() - from,
{
    let longer = hay + more;
    assert(longer.subrange(from, from + needle.len()) =~= hay.subrange(
        from,
        from + needle.len(),
    ));
    if !occurs_at(hay, needle, from) {
        lemma_first_occurrence_extends(hay, more, needle, from + 1);
    }
}

/// The first occurrence in `hay` is the first occurrence in every prefix of
/// `hay` that holds it.
pub proof fn lemma_first_occurrence_within(hay: Seq<u8>, needle: Seq<u8>, from: int, cut: int)
    requires
        first_occurrence(hay, needle, from) matches Some(at) && at + needle.len() <= cut,
        cut <= hay.len(),
    ensures
        first_occurrence(hay.take(cut), needle, from) == first_occurrence(hay, needle, from),
    decreases hay.len() - from,
{
    let shorter = hay.take(cut);
    lemma_first_occurrence(hay, needle, from);
    if occurs_at(hay, needle, from) {
        assert(shorter.subrange(from, from + needle.len()) =~= hay.subrange(
            from,
            from + needle.len(),
        ));
    } else {
        assert(shorter.subrange(from, from + needle.len()) =~= hay.subrange(
            from,
            from + needle.len(),
        ));
        lemma_first_occurrence_within(hay, needle, from + 1, cut);
    }
}

/// Tells whether `needle` occurs in `hay` at index `at`.
pub fn matches_at(hay: &[u8], needle: &[u8], at: usize) -> (found: bool)
    ensures
        found == occurs_at(hay@, needle@, at as int),
{
    let n = hay.len();
    let m = needle.len();
    if m > n || at > n - m {
        return false;
    }
    let mut k: usize = 0;
    while k < m
        invariant
            n == hay@.len(),
            m == needle@.len(),
            k <= m,
            at + m <= n,
            forall|j: int| 0 <= j < k ==> hay@[at + j] == needle@[j],
        decreases m - k,
    {
        if hay[at + k] != needle[k] {
            assert(hay@.subrange(at as int, at + m)[k as int] == hay@[at + k]);
            return false;
        }
        k = k + 1;
    }
    true
}

/// Searches `hay` for `needle`, starting at index `from`.
pub fn find(hay: &[u8], needle: &[u8], from: usize) -> (found: Option<usize>)
    ensures
        match found {
            Some(at) => first_occurrence(hay@, needle@, from as int) == Some(at as int),
            None => first_occurrence(hay@, needle@, from as int) is None,
        },
{
    let n = hay.len();
    let m = needle.len();
    if m > n {
        return None;
    }
    let last = n - m;
    let mut i = from;
    while i <= last
        invariant
            n == hay@.len(),
            m == needle@.len(),
            last == n - m,
            from <= i,
            first_occurrence(hay@, needle@, from as int) == first_occurrence(
                hay@,
                needle@,
                i as int,
            ),
        decreases n - i,
    {
        if matches_at(hay, needle, i) {
            return Some(i);
        }
        i = i + 1;
    }
    None
}

/// Tells whether `s` begins with `prefix`.
pub fn starts_with(s: &[u8], prefix: &[u8]) -> (yes: bool)
    ensures
        yes == prefix@.is_prefix_of(s@),
{
    matches_at(s, prefix, 0)
}

/// Tells whether `a` and `b` hold the same bytes.
pub fn same_bytes(a: &[u8], b: &[u8]) -> (yes: bool)
    ensures
        yes == (a@ == b@),
{
    if a.len() != b.len() {
        return false;
    }
    let yes = matches_at(a, b, 0);
    assert(a@.subrange(0, a@.len() as int) =~= a@);
    yes
}

/// The index of the first byte at or after `from` that is whitespace (where
/// `white` is false) or is not (where it is true); the length of `s` where
/// there is no such byte.
pub open spec fn run_end(s: Seq<u8>, from: int, white: bool) -> int
    decreases s.len() - from,
{
    if 0 <= from < s.len() && is_whitespace(s[from]) == white {
        run_end(s, from + 1, white)
    } else {
        from
    }
}

/// `run_end` stops inside the sequence, passes only bytes of the one class,
/// and stops before a byte of the other.
pub proof fn lemma_run_end(s: Seq<u8>, from: int, white: bool)
    requires
        0 <= from <= s.len(),
    ensures
        from <= run_end(s, from, white) <= s.len(),
        forall|j: int| from <= j < run_end(s, from, white) ==> is_whitespace(s[j]) == white,
        run_end(s, from, white) < s.len() ==> is_whitespace(s[run_end(s, from, white)]) != white,
    decreases s.len() - from,
{
    if from < s.len() && is_whitespace(s[from]) == white {
        lemma_run_end(s, from + 1, white);
    }
}

/// Tells whether `b` is whitespace.
pub fn whitespace(b: u8) -> (yes: bool)
    ensures
        yes == is_whitespace(b),
{
    b == 32 || (9 <= b && b <= 13)
}

/// Walks over the run of whitespace (`white`) or of other bytes (`!white`)
/// that starts at `from`.
pub fn skip_run(s: &[u8], from: usize, white: bool) -> (end: usize)
    ensures
        end == run_end(s@, from as int, white),
        from <= end,
        from <= s@.len() ==> end <= s@.len(),
{
    let mut i = from;
    while i < s.len() && whitespace(s[i]) == white
        invariant
            from <= i,
            from <= s@.len() ==> i <= s@.len(),
            run_end(s@, from as int, white) == run_end(s@, i as int, white),
        decreases s@.len() - i,
    {
        i = i + 1;
    }
    i
}

/// `s` without the whitespace at its start.
pub open spec fn trim_start(s: Seq<u8>) -> Seq<u8> {
    s.skip(run_end(s, 0, true))
}

/// `s` without the whitespace at its end.
pub open spec fn trim_end(s: Seq<u8>) -> Seq<u8>
    decreases s.len(),
{
    if s.len() > 0 && is_whitespace(s.last()) {
        trim_end(s.drop_last())
    } else {
        s
    }
}

/// `s` without the whitespace at either end.
pub open spec fn trim(s: Seq<u8>) -> Seq<u8> {
    trim_end(trim_start(s))
}

/// `trim_end` keeps a prefix: what it drops is whitespace, and what it keeps
/// does not end in whitespace.
pub proof fn lemma_trim_end(s: Seq<u8>)
    ensures
        trim_end(s).len() <= s.len(),
        trim_end(s) == s.take(trim_end(s).len() as int),
        forall|j: int| trim_end(s).len() <= j < s.len() ==> is_whitespace(#[trigger] s[j]),
        trim_end(s).len() > 0 ==> !is_whitespace(s[trim_end(s).len() - 1]),
    decreases s.len(),
{
    if s.len() > 0 && is_whitespace(s.last()) {
        lemma_trim_end(s.drop_last());
        assert(s.drop_last().take(trim_end(s).len() as int) =~= s.take(trim_end(s).len() as int));
        assert forall|j: int| trim_end(s).len() <= j < s.len() implies is_whitespace(
            #[trigger] s[j],
        ) by {
            if j < s.len() - 1 {
                assert(s[j] == s.drop_last()[j]);
            }
        }
    } else {
        assert(s.take(s.len() as int) =~= s);
    }
}

/// Bytes with no whitespace at either end are what `trim` leaves of them.
pub proof fn lemma_trim_tight(s: Seq<u8>)
    requires
        s.len() > 0,
        !is_whitespace(s[0]),
        !is_whitespace(s.last()),
    ensures
        trim(s) == s,
{
    assert(s.skip(0) =~= s);
}

/// Strips the whitespace from both ends of `s`.
pub fn trimmed(s: &[u8]) -> (t: &[u8])
    ensures
        t@ == trim(s@),
{
    let start = skip_run(s, 0, true);
    let mut end = s.len();
    assert(s@.subrange(start as int, end as int) =~= trim_start(s@));
    while end > start && whitespace(s[end - 1])
        invariant
            start <= end <= s@.len(),
            trim(s@) == trim_end(s@.subrange(start as int, end as int)),
        decreases end,
    {
        assert(s@.subrange(start as int, end as int).drop_last() =~= s@.subrange(
            start as int,
            end - 1,
        ));
        end = end - 1;
    }
    vstd::slice::slice_subrange(s, start, end)
}

} // verus!
