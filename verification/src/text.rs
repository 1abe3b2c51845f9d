//! Plain-text helpers for the line format: the whitespace class, trimming,
//! and splitting on a separator character.

use vstd::prelude::*;
use vstd::string::StrSliceExecFns;

verus! {

/// The whitespace characters (the Unicode `White_Space` class, which is what
/// trimming removes).
pub open spec fn is_space(c: char) -> bool {
    ||| c == ' '
    ||| ('\u{9}' <= c && c <= '\u{D}')
    ||| c == '\u{85}'
    ||| c == '\u{A0}'
    ||| c == '\u{1680}'
    ||| ('\u{2000}' <= c && c <= '\u{200A}')
    ||| c == '\u{2028}'
    ||| c == '\u{2029}'
    ||| c == '\u{202F}'
    ||| c == '\u{205F}'
    ||| c == '\u{3000}'
}

/// Whether `c` is whitespace.
pub fn is_space_char(c: char) -> (r: bool)
    ensures
        r == is_space(c),
{
    c == ' ' || ('\u{9}' <= c && c <= '\u{D}') || c == '\u{85}' || c == '\u{A0}' || c == '\u{1680}'
        || ('\u{2000}' <= c && c <= '\u{200A}') || c == '\u{2028}' || c == '\u{2029}'
        || c == '\u{202F}' || c == '\u{205F}' || c == '\u{3000}'
}

/// `s` without leading and trailing whitespace.
pub open spec fn spec_trim(s: Seq<char>) -> Seq<char>
    decreases s.len(),
{
    if s.len() == 0 {
        s
    } else if is_space(s[0]) {
        spec_trim(s.drop_first())
    } else if is_space(s[s.len() - 1]) {
        spec_trim(s.drop_last())
    } else {
        s
    }
}

/// The pieces of `s` between occurrences of `sep`, in order; an empty `s`
/// yields a single empty piece, and a separator at either end or doubled
/// yields empty pieces.
pub open spec fn spec_split(s: Seq<char>, sep: char) -> Seq<Seq<char>>
    decreases s.len(),
{
    if s.len() == 0 {
        seq![s]
    } else if s[0] == sep {
        seq![Seq::<char>::empty()] + spec_split(s.drop_first(), sep)
    } else {
        let rest = spec_split(s.drop_first(), sep);
        seq![seq![s[0]] + rest[0]] + rest.drop_first()
    }
}

/// Splitting yields at least one piece.
pub proof fn lemma_split_has_a_piece(s: Seq<char>, sep: char)
    ensures
        spec_split(s, sep).len() >= 1,
    decreases s.len(),
{
    if s.len() > 0 {
        lemma_split_has_a_piece(s.drop_first(), sep);
    }
}

/// Splitting yields at most one piece per character plus one.
pub proof fn lemma_split_piece_count(s: Seq<char>, sep: char)
    ensures
        spec_split(s, sep).len() <= s.len() + 1,
    decreases s.len(),
{
    if s.len() > 0 {
        lemma_split_piece_count(s.drop_first(), sep);
        if s[0] != sep {
            lemma_split_has_a_piece(s.drop_first(), sep);
        }
    }
}

/// When the first `k` characters of `s` are free of `sep` and `s[k]` (if any)
/// is `sep`, the split is the piece before `k` followed by the split of what
/// comes after it.
pub proof fn lemma_split_head(s: Seq<char>, sep: char, k: int)
    requires
        0 <= k <= s.len(),
        forall|j: int| 0 <= j < k ==> s[j] != sep,
        k < s.len() ==> s[k] == sep,
    ensures
        k == s.len() ==> spec_split(s, sep) == seq![s],
        k < s.len() ==> spec_split(s, sep) == seq![s.subrange(0, k)] + spec_split(
            s.subrange(k + 1, s.len() as int),
            sep,
        ),
    decreases s.len(),
{
    if s.len() == 0 {
        assert(spec_split(s, sep) == seq![s]);
    } else if k == 0 {
        if k < s.len() {
            assert(s.subrange(0, 0) =~= Seq::<char>::empty());
            assert(s.subrange(1, s.len() as int) =~= s.drop_first());
        }
    } else {
        let tail = s.drop_first();
        lemma_split_head(tail, sep, k - 1);
        let rest = spec_split(tail, sep);
        lemma_split_has_a_piece(tail, sep);
        if k == s.len() {
            assert(rest == seq![tail]);
            assert(seq![s[0]] + rest[0] =~= s);
            assert(rest.drop_first() =~= Seq::<Seq<char>>::empty());
            assert(spec_split(s, sep) =~= seq![s]);
        } else {
            assert(rest == seq![tail.subrange(0, k - 1)] + spec_split(
                tail.subrange(k, tail.len() as int),
                sep,
            ));
            assert(rest[0] == tail.subrange(0, k - 1));
            assert(seq![s[0]] + rest[0] =~= s.subrange(0, k));
            assert(rest.drop_first() =~= spec_split(tail.subrange(k, tail.len() as int), sep));
            assert(tail.subrange(k, tail.len() as int) =~= s.subrange(k + 1, s.len() as int));
            assert(spec_split(s, sep) =~= seq![s.subrange(0, k)] + spec_split(
                s.subrange(k + 1, s.len() as int),
                sep,
            ));
        }
    }
}

/// When everything before `lo` and from `hi` on is whitespace, and the range
/// in between (if any) has non-whitespace at both ends, trimming keeps
/// exactly that range.
pub proof fn lemma_trim_range(s: Seq<char>, lo: int, hi: int)
    requires
        0 <= lo <= hi <= s.len(),
        forall|j: int| 0 <= j < lo ==> is_space(#[trigger] s[j]),
        forall|j: int| hi <= j < s.len() ==> is_space(#[trigger] s[j]),
        lo < hi ==> !is_space(s[lo]) && !is_space(s[hi - 1]),
    ensures
        spec_trim(s) == s.subrange(lo, hi),
    decreases s.len(),
{
    if s.len() == 0 {
        assert(s.subrange(0, 0) =~= s);
    } else if is_space(s[0]) {
        let tail = s.drop_first();
        if lo == hi {
            lemma_trim_range(tail, 0, 0);
            assert(s.subrange(lo, hi) =~= tail.subrange(0, 0));
        } else {
            lemma_trim_range(tail, lo - 1, hi - 1);
            assert(s.subrange(lo, hi) =~= tail.subrange(lo - 1, hi - 1));
        }
    } else if is_space(s[s.len() - 1]) {
        let head = s.drop_last();
        if lo == hi {
            lemma_trim_range(head, lo, lo);
            assert(s.subrange(lo, hi) =~= head.subrange(lo, lo));
        } else {
            lemma_trim_range(head, lo, hi);
            assert(s.subrange(lo, hi) =~= head.subrange(lo, hi));
        }
    } else {
        assert(lo == 0);
        assert(hi == s.len());
        assert(s.subrange(0, s.len() as int) =~= s);
    }
}

/// Trimming never lengthens a string.
pub proof fn lemma_trim_shortens(s: Seq<char>)
    ensures
        spec_trim(s).len() <= s.len(),
    decreases s.len(),
{
    if s.len() > 0 {
        if is_space(s[0]) {
            lemma_trim_shortens(s.drop_first());
        } else if is_space(s[s.len() - 1]) {
            lemma_trim_shortens(s.drop_last());
        }
    }
}

/// The bounds of `text[from..to)` with leading and trailing whitespace
/// removed: trimming that range keeps exactly `text[r.0..r.1)`.
pub fn trim_bounds(text: &str, n: usize, from: usize, to: usize) -> (r: (usize, usize))
    requires
        n == text@.len(),
        from <= to <= n,
    ensures
        from <= r.0 <= r.1 <= to,
        spec_trim(text@.subrange(from as int, to as int)) == text@.subrange(
            r.0 as int,
            r.1 as int,
        ),
{
    let mut lo = from;
    while lo < to && is_space_char(text.get_char(lo))
        invariant
            n == text@.len(),
            from <= lo <= to <= n,
            forall|j: int| from <= j < lo ==> is_space(#[trigger] text@[j]),
        decreases to - lo,
    {
        lo += 1;
    }
    let mut hi = to;
    while hi > lo && is_space_char(text.get_char(hi - 1))
        invariant
            n == text@.len(),
            from <= lo <= hi <= to <= n,
            forall|j: int| from <= j < lo ==> is_space(#[trigger] text@[j]),
            forall|j: int| hi <= j < to ==> is_space(#[trigger] text@[j]),
            lo < hi ==> !is_space(text@[lo as int]),
        decreases hi - lo,
    {
        hi -= 1;
    }
    proof {
        let piece = text@.subrange(from as int, to as int);
        lemma_trim_range(piece, lo - from, hi - from);
        assert(piece.subrange(lo - from, hi - from) =~= text@.subrange(lo as int, hi as int));
    }
    (lo, hi)
}

} // verus!
