//! The aggregator: turns a sequence of raw input lines into one net
//! `Duration`, parsing every shift token, applying the weekly deduction at
//! each blank-line week boundary and once at the end of input, and failing
//! fast on an unreadable line or a malformed token.

use vstd::prelude::*;
use vstd::seq_lib::lemma_flatten_concat;
use vstd::string::StrSliceExecFns;
use crate::duration::Duration;
use crate::error::Error;
use crate::shift::find_match_from;
use crate::shift::lemma_shift_minutes_bounds;
use crate::shift::parse_error_message;
use crate::shift::spec_parse;
use crate::text::lemma_split_head;
use crate::text::lemma_split_piece_count;
use crate::text::lemma_trim_shortens;
use crate::text::spec_split;
use crate::text::spec_trim;
use crate::text::trim_bounds;

verus! {

/// A comment line: after trimming it starts with `#` or with `//`.
pub open spec fn is_comment(t: Seq<char>) -> bool {
    ||| (t.len() >= 1 && t[0] == '#')
    ||| (t.len() >= 2 && t[0] == '/' && t[1] == '/')
}

/// Each piece trimmed.
pub open spec fn map_trim(pieces: Seq<Seq<char>>) -> Seq<Seq<char>> {
    pieces.map_values(|p: Seq<char>| spec_trim(p))
}

/// The shift tokens of one line: none for a comment, else the `/`-separated
/// pieces of the trimmed line, each trimmed. A blank line yields a single
/// empty token.
pub open spec fn spec_line_tokens(line: Seq<char>) -> Seq<Seq<char>> {
    let t = spec_trim(line);
    if is_comment(t) {
        Seq::empty()
    } else {
        map_trim(spec_split(t, '/'))
    }
}

/// The message reported when a line could not be read.
pub open spec fn read_error_message() -> Seq<char> {
    "Error occurred while trying to read a line from file"@
}

/// What one token contributes: the weekly deduction for an empty token, the
/// parsed shift minutes otherwise, or the parse error for a malformed token.
pub open spec fn spec_token_result(tok: Seq<char>, minutes_per_week: int) -> Result<
    int,
    Seq<char>,
> {
    if tok.len() == 0 {
        Ok(-minutes_per_week)
    } else {
        match spec_parse(tok) {
            Some(minutes) => Ok(minutes),
            None => Err(parse_error_message(tok)),
        }
    }
}

/// Each token's contribution.
pub open spec fn map_token_results(toks: Seq<Seq<char>>, minutes_per_week: int) -> Seq<
    Result<int, Seq<char>>,
> {
    toks.map_values(|tok: Seq<char>| spec_token_result(tok, minutes_per_week))
}

/// What one line contributes, in token order; an unreadable line contributes
/// a single read failure.
pub open spec fn spec_line_results(line: Option<Seq<char>>, minutes_per_week: int) -> Seq<
    Result<int, Seq<char>>,
> {
    match line {
        None => seq![Err::<int, Seq<char>>(read_error_message())],
        Some(l) => map_token_results(spec_line_tokens(l), minutes_per_week),
    }
}

/// Each line's contributions, line by line.
pub open spec fn line_results_seq(lines: Seq<Option<Seq<char>>>, minutes_per_week: int) -> Seq<
    Seq<Result<int, Seq<char>>>,
> {
    lines.map_values(|l: Option<Seq<char>>| spec_line_results(l, minutes_per_week))
}

/// The contributions of all lines, flattened in order.
pub open spec fn results_of(lines: Seq<Option<Seq<char>>>, minutes_per_week: int) -> Seq<
    Result<int, Seq<char>>,
> {
    line_results_seq(lines, minutes_per_week).flatten()
}

/// The contributions of the whole input: every line's, then the final weekly
/// deduction for the still-open last week.
pub open spec fn spec_results(lines: Seq<Option<Seq<char>>>, minutes_per_week: int) -> Seq<
    Result<int, Seq<char>>,
> {
    results_of(lines, minutes_per_week) + seq![Ok::<int, Seq<char>>(-minutes_per_week)]
}

/// Folds contributions left to right from zero, stopping at the first
/// failure.
pub open spec fn spec_sum_results(rs: Seq<Result<int, Seq<char>>>) -> Result<int, Seq<char>>
    decreases rs.len(),
{
    if rs.len() == 0 {
        Ok(0)
    } else {
        match rs[0] {
            Err(message) => Err(message),
            Ok(v) => match spec_sum_results(rs.drop_first()) {
                Err(message) => Err(message),
                Ok(rest) => Ok(v + rest),
            },
        }
    }
}

/// What aggregation yields on the whole input: the net total, or the first
/// failure in line-and-token order.
pub open spec fn spec_aggregate(lines: Seq<Option<Seq<char>>>, minutes_per_week: int) -> Result<
    int,
    Seq<char>,
> {
    spec_sum_results(spec_results(lines, minutes_per_week))
}

/// One more than a line's length: a bound on how many tokens it can yield.
pub open spec fn line_size(line: Option<Seq<char>>) -> int {
    match line {
        Some(l) => l.len() as int + 1,
        None => 1,
    }
}

/// The total size of the input, an upper bound on the number of
/// contributions.
pub open spec fn lines_size(lines: Seq<Option<Seq<char>>>) -> int
    decreases lines.len(),
{
    if lines.len() == 0 {
        0
    } else {
        lines_size(lines.drop_last()) + line_size(lines.last())
    }
}

/// Summing a concatenation: the left part's failure wins, else the right
/// part's, else the totals add.
pub proof fn lemma_sum_results_concat(a: Seq<Result<int, Seq<char>>>, b: Seq<
    Result<int, Seq<char>>,
>)
    ensures
        spec_sum_results(a + b) == match spec_sum_results(a) {
            Err(message) => Err::<int, Seq<char>>(message),
            Ok(v) => match spec_sum_results(b) {
                Err(message) => Err::<int, Seq<char>>(message),
                Ok(w) => Ok::<int, Seq<char>>(v + w),
            },
        },
    decreases a.len(),
{
    if a.len() == 0 {
        assert(a + b =~= b);
    } else {
        assert((a + b)[0] == a[0]);
        assert((a + b).drop_first() =~= a.drop_first() + b);
        lemma_sum_results_concat(a.drop_first(), b);
    }
}

/// The sum of a single clean contribution.
pub proof fn lemma_sum_results_singleton(r: Result<int, Seq<char>>)
    requires
        r is Ok,
    ensures
        spec_sum_results(seq![r]) == r,
{
    assert(seq![r].drop_first() =~= Seq::<Result<int, Seq<char>>>::empty());
    assert(spec_sum_results(Seq::<Result<int, Seq<char>>>::empty()) == Ok::<int, Seq<char>>(0));
}

/// A failure anywhere makes the whole sum fail.
pub proof fn lemma_sum_results_err(rs: Seq<Result<int, Seq<char>>>, j: int)
    requires
        0 <= j < rs.len(),
        rs[j] is Err,
    ensures
        spec_sum_results(rs) is Err,
    decreases rs.len(),
{
    if !(rs[0] is Err) {
        lemma_sum_results_err(rs.drop_first(), j - 1);
    }
}

/// A failure at `j`, after a prefix that sums cleanly, fails the whole sum
/// with that failure's message.
pub proof fn lemma_sum_results_err_value(rs: Seq<Result<int, Seq<char>>>, j: int)
    requires
        0 <= j < rs.len(),
        spec_sum_results(rs.take(j)) is Ok,
        rs[j] is Err,
    ensures
        spec_sum_results(rs) == Err::<int, Seq<char>>(rs[j]->Err_0),
{
    assert(rs =~= rs.take(j) + (seq![rs[j]] + rs.skip(j + 1)));
    lemma_sum_results_concat(rs.take(j), seq![rs[j]] + rs.skip(j + 1));
    assert((seq![rs[j]] + rs.skip(j + 1))[0] == rs[j]);
}

/// The contributions of concatenated inputs concatenate.
pub proof fn lemma_results_concat(a: Seq<Option<Seq<char>>>, b: Seq<Option<Seq<char>>>, mpw: int)
    ensures
        results_of(a + b, mpw) == results_of(a, mpw) + results_of(b, mpw),
{
    assert(line_results_seq(a + b, mpw) =~= line_results_seq(a, mpw) + line_results_seq(b, mpw));
    lemma_flatten_concat(line_results_seq(a, mpw), line_results_seq(b, mpw));
}

/// The contributions of a single line.
pub proof fn lemma_results_singleton(l: Option<Seq<char>>, mpw: int)
    ensures
        results_of(seq![l], mpw) == spec_line_results(l, mpw),
{
    let mapped = line_results_seq(seq![l], mpw);
    assert(mapped =~= seq![spec_line_results(l, mpw)]);
    assert(mapped.drop_first() =~= Seq::<Seq<Result<int, Seq<char>>>>::empty());
    assert(Seq::<Seq<Result<int, Seq<char>>>>::empty().flatten() =~= Seq::<
        Result<int, Seq<char>>,
    >::empty());
    assert(mapped.flatten() =~= spec_line_results(l, mpw));
}

/// The contributions split around any one line.
pub proof fn lemma_results_split(lines: Seq<Option<Seq<char>>>, mpw: int, i: int)
    requires
        0 <= i < lines.len(),
    ensures
        results_of(lines, mpw) == results_of(lines.take(i), mpw) + spec_line_results(
            lines[i],
            mpw,
        ) + results_of(lines.skip(i + 1), mpw),
{
    assert(lines =~= (lines.take(i) + seq![lines[i]]) + lines.skip(i + 1));
    lemma_results_concat(lines.take(i) + seq![lines[i]], lines.skip(i + 1), mpw);
    lemma_results_concat(lines.take(i), seq![lines[i]], mpw);
    lemma_results_singleton(lines[i], mpw);
}

/// Growing the processed prefix by one line appends that line's
/// contributions.
pub proof fn lemma_results_take_step(lines: Seq<Option<Seq<char>>>, mpw: int, i: int)
    requires
        0 <= i < lines.len(),
    ensures
        results_of(lines.take(i + 1), mpw) == results_of(lines.take(i), mpw) + spec_line_results(
            lines[i],
            mpw,
        ),
{
    assert(lines.take(i + 1) =~= lines.take(i) + seq![lines[i]]);
    lemma_results_concat(lines.take(i), seq![lines[i]], mpw);
    lemma_results_singleton(lines[i], mpw);
}

/// A line contributes at most `line_size` entries.
pub proof fn lemma_line_results_count(l: Option<Seq<char>>, mpw: int)
    ensures
        spec_line_results(l, mpw).len() <= line_size(l),
{
    if l is Some {
        let s = l->Some_0;
        lemma_trim_shortens(s);
        lemma_split_piece_count(spec_trim(s), '/');
    }
}

/// The input size is never negative.
pub proof fn lemma_lines_size_nonneg(lines: Seq<Option<Seq<char>>>)
    ensures
        lines_size(lines) >= 0,
    decreases lines.len(),
{
    if lines.len() > 0 {
        lemma_lines_size_nonneg(lines.drop_last());
    }
}

/// A prefix of the input has at most the whole input's size.
pub proof fn lemma_lines_size_take(lines: Seq<Option<Seq<char>>>, i: int)
    requires
        0 <= i <= lines.len(),
    ensures
        lines_size(lines.take(i)) <= lines_size(lines),
    decreases lines.len() - i,
{
    if i == lines.len() {
        assert(lines.take(i) =~= lines);
    } else {
        assert(lines.take(i + 1).drop_last() =~= lines.take(i));
        assert(lines.take(i + 1).last() == lines[i]);
        lemma_lines_size_take(lines, i + 1);
    }
}

/// Growing the prefix by one line adds that line's size.
pub proof fn lemma_lines_size_take_step(lines: Seq<Option<Seq<char>>>, i: int)
    requires
        0 <= i < lines.len(),
    ensures
        lines_size(lines.take(i + 1)) == lines_size(lines.take(i)) + line_size(lines[i]),
{
    assert(lines.take(i + 1).drop_last() =~= lines.take(i));
    assert(lines.take(i + 1).last() == lines[i]);
}

/// The shift tokens of one line of input, or the fixed read failure for a
/// line that could not be read. A comment line yields no tokens; any other
/// line yields its `/`-separated pieces, trimmed, a blank line yielding one
/// empty token.
pub fn shifts_from_line(line: Option<&str>) -> (r: Result<Vec<String>, Error>)
    ensures
        line is None ==> (r matches Err(e) && e@ == read_error_message()),
        line matches Some(l) ==> (r matches Ok(tokens) && tokens.deep_view() == spec_line_tokens(
            l@,
        )),
{
    let raw = match line {
        None => {
            return Err(Error("Error occurred while trying to read a line from file".to_owned()));
        },
        Some(l) => l,
    };
    let n = raw.unicode_len();
    let (lo, hi) = trim_bounds(raw, n, 0, n);
    proof {
        assert(raw@.subrange(0, n as int) =~= raw@);
    }
    let ghost trimmed = raw@.subrange(lo as int, hi as int);
    if hi > lo {
        let c0 = raw.get_char(lo);
        if c0 == '#' {
            return Ok(Vec::new());
        }
        if c0 == '/' && hi > lo + 1 && raw.get_char(lo + 1) == '/' {
            return Ok(Vec::new());
        }
    }
    proof {
        assert(!is_comment(trimmed));
    }
    let mut tokens: Vec<String> = Vec::new();
    let mut start = lo;
    let mut i = lo;
    while i < hi
        invariant
            n == raw@.len(),
            lo <= start <= i <= hi <= n,
            trimmed == raw@.subrange(lo as int, hi as int),
            trimmed == spec_trim(raw@),
            !is_comment(trimmed),
            forall|j: int| start <= j < i ==> raw@[j] != '/',
            spec_line_tokens(raw@) == tokens.deep_view() + map_trim(
                spec_split(raw@.subrange(start as int, hi as int), '/'),
            ),
        decreases hi - i,
    {
        if raw.get_char(i) == '/' {
            let ghost old_tokens = tokens.deep_view();
            let ghost suffix = raw@.subrange(start as int, hi as int);
            let (a, b) = trim_bounds(raw, n, start, i);
            let piece = raw.substring_char(a, b);
            tokens.push(piece.to_owned());
            proof {
                lemma_split_head(suffix, '/', i - start);
                assert(suffix.subrange(0, i - start) =~= raw@.subrange(start as int, i as int));
                assert(suffix.subrange(i - start + 1, suffix.len() as int) =~= raw@.subrange(
                    i as int + 1,
                    hi as int,
                ));
                let rest = spec_split(raw@.subrange(i as int + 1, hi as int), '/');
                assert(spec_trim(raw@.subrange(start as int, i as int)) == raw@.subrange(
                    a as int,
                    b as int,
                ));
                assert(map_trim(spec_split(suffix, '/')) =~= seq![
                    raw@.subrange(a as int, b as int),
                ] + map_trim(rest));
                assert(tokens.deep_view() =~= old_tokens.push(raw@.subrange(a as int, b as int)));
                assert(spec_line_tokens(raw@) =~~= tokens.deep_view() + map_trim(rest));
            }
            start = i + 1;
        }
        i += 1;
    }
    let ghost old_tokens = tokens.deep_view();
    let ghost suffix = raw@.subrange(start as int, hi as int);
    let (a, b) = trim_bounds(raw, n, start, hi);
    let piece = raw.substring_char(a, b);
    tokens.push(piece.to_owned());
    proof {
        lemma_split_head(suffix, '/', hi - start);
        assert(suffix.subrange(0, suffix.len() as int) =~= suffix);
        assert(spec_trim(suffix) == raw@.subrange(a as int, b as int));
        assert(map_trim(spec_split(suffix, '/')) =~= seq![raw@.subrange(a as int, b as int)]);
        assert(tokens.deep_view() =~= old_tokens.push(raw@.subrange(a as int, b as int)));
        assert(tokens.deep_view() =~~= spec_line_tokens(raw@));
    }
    Ok(tokens)
}

/// The net overtime of a whole input: every shift's minutes summed, the
/// weekly deduction applied at each blank-line boundary and once at the end,
/// failing fast on an unreadable line (`None`) or a malformed token. The size
/// bounds only keep the running total inside `i64`.
pub fn total_time_from_buffer(lines: &Vec<Option<String>>, minutes_per_week: i64) -> (r: Result<
    Duration,
    Error,
>)
    requires
        -0x8000_0000 <= minutes_per_week <= 0x8000_0000,
        lines_size(lines.deep_view()) <= 0x7fff_ffff,
    ensures
        match r {
            Ok(d) => spec_aggregate(lines.deep_view(), minutes_per_week as int) == Ok::<
                int,
                Seq<char>,
            >(d@),
            Err(e) => spec_aggregate(lines.deep_view(), minutes_per_week as int) == Err::<
                int,
                Seq<char>,
            >(e@),
        },
{
    let ghost lv = lines.deep_view();
    let ghost mpw = minutes_per_week as int;
    let mut total: i64 = 0;
    let mut li: usize = 0;
    proof {
        assert(lv.take(0) =~= Seq::<Option<Seq<char>>>::empty());
        assert(line_results_seq(lv.take(0), mpw) =~= Seq::<Seq<Result<int, Seq<char>>>>::empty());
        assert(results_of(lv.take(0), mpw) =~= Seq::<Result<int, Seq<char>>>::empty());
        assert(spec_sum_results(Seq::<Result<int, Seq<char>>>::empty()) == Ok::<int, Seq<char>>(
            0,
        ));
        lemma_lines_size_nonneg(lv.take(0));
    }
    while li < lines.len()
        invariant
            lv == lines.deep_view(),
            mpw == minutes_per_week as int,
            -0x8000_0000 <= minutes_per_week <= 0x8000_0000,
            lines_size(lv) <= 0x7fff_ffff,
            li <= lines.len(),
            lv.len() == lines.len(),
            spec_sum_results(results_of(lv.take(li as int), mpw)) == Ok::<int, Seq<char>>(
                total as int,
            ),
            results_of(lv.take(li as int), mpw).len() <= lines_size(lv.take(li as int)),
            lines_size(lv.take(li as int)) >= 0,
            -results_of(lv.take(li as int), mpw).len() * 0x8000_0000 <= total as int
                <= results_of(lv.take(li as int), mpw).len() * 0x8000_0000,
        decreases lines.len() - li,
    {
        let ghost base = results_of(lv.take(li as int), mpw);
        proof {
            assert(lv[li as int] == lines@[li as int].deep_view());
            lemma_lines_size_take(lv, li as int + 1);
            lemma_lines_size_take_step(lv, li as int);
            lemma_line_results_count(lv[li as int], mpw);
        }
        let shifts = match &lines[li] {
            None => shifts_from_line(None),
            Some(l) => shifts_from_line(Some(l.as_str())),
        };
        let ghost cur = spec_line_results(lv[li as int], mpw);
        let tokens = match shifts {
            Ok(tokens) => tokens,
            Err(e) => {
                proof {
                    assert(cur[0] == Err::<int, Seq<char>>(e@));
                    lemma_results_split(lv, mpw, li as int);
                    assert(spec_results(lv, mpw).take(base.len() as int) =~= base);
                    assert(spec_results(lv, mpw)[base.len() as int] == Err::<int, Seq<char>>(e@));
                    lemma_sum_results_err_value(spec_results(lv, mpw), base.len() as int);
                }
                return Err(e);
            },
        };
        let ghost token_views = tokens.deep_view();
        proof {
            assert(cur =~= map_token_results(token_views, mpw));
        }
        let mut ti: usize = 0;
        while ti < tokens.len()
            invariant
                lv == lines.deep_view(),
                mpw == minutes_per_week as int,
                -0x8000_0000 <= minutes_per_week <= 0x8000_0000,
                lines_size(lv) <= 0x7fff_ffff,
                li < lines.len(),
                lv.len() == lines.len(),
                ti <= tokens.len(),
                token_views == tokens.deep_view(),
                cur == spec_line_results(lv[li as int], mpw),
                cur == map_token_results(token_views, mpw),
                cur.len() == tokens.len(),
                cur.len() <= line_size(lv[li as int]),
                base == results_of(lv.take(li as int), mpw),
                base.len() <= lines_size(lv.take(li as int)),
                lines_size(lv.take(li as int)) >= 0,
                lines_size(lv.take(li as int)) + line_size(lv[li as int]) <= lines_size(lv),
                spec_sum_results(base + cur.take(ti as int)) == Ok::<int, Seq<char>>(total as int),
                -(base.len() + ti as int) * 0x8000_0000 <= total as int <= (base.len()
                    + ti as int) * 0x8000_0000,
            decreases tokens.len() - ti,
        {
            let tok = &tokens[ti];
            proof {
                assert(token_views[ti as int] == tok@);
                assert(cur[ti as int] == spec_token_result(tok@, mpw));
            }
            let value: i64;
            if tok.as_str().is_empty() {
                value = -minutes_per_week;
            } else {
                match Duration::parse(tok.as_str()) {
                    Ok(d) => {
                        proof {
                            let m = choose|m: int| find_match_from(tok@, 0) == Some(m);
                            lemma_find_match_position(tok@, 0, m);
                            lemma_shift_minutes_bounds(tok@, m);
                        }
                        value = d.minutes();
                    },
                    Err(e) => {
                        proof {
                            assert(cur[ti as int] == Err::<int, Seq<char>>(e@));
                            lemma_results_split(lv, mpw, li as int);
                            assert(spec_results(lv, mpw).take(base.len() + ti as int) =~= base
                                + cur.take(ti as int));
                            assert(spec_results(lv, mpw)[base.len() + ti as int] == Err::<
                                int,
                                Seq<char>,
                            >(e@));
                            lemma_sum_results_err_value(spec_results(lv, mpw), base.len() + ti as int);
                        }
                        return Err(e);
                    },
                }
            }
            proof {
                assert(cur[ti as int] == Ok::<int, Seq<char>>(value as int));
                let before = base + cur.take(ti as int);
                assert(before + seq![cur[ti as int]] =~= base + cur.take(ti as int + 1));
                lemma_sum_results_concat(before, seq![cur[ti as int]]);
                lemma_sum_results_singleton(cur[ti as int]);
            }
            total = total + value;
            ti += 1;
        }
        proof {
            assert(cur.take(ti as int) =~= cur);
            lemma_results_take_step(lv, mpw, li as int);
        }
        li += 1;
    }
    proof {
        assert(lv.take(li as int) =~= lv);
        lemma_sum_results_concat(results_of(lv, mpw), seq![Ok::<int, Seq<char>>(-mpw)]);
        lemma_sum_results_singleton(Ok::<int, Seq<char>>(-mpw));
    }
    let net = total - minutes_per_week;
    Ok(Duration::from_minutes(net))
}

/// Wherever the leftmost match is reported, there really is a match.
proof fn lemma_find_match_position(s: Seq<char>, from: int, i: int)
    requires
        0 <= from <= s.len(),
        find_match_from(s, from) == Some(i),
    ensures
        from <= i < s.len(),
        crate::shift::match_at(s, i),
    decreases s.len() - from,
{
    if from < s.len() && !crate::shift::match_at(s, from) {
        lemma_find_match_position(s, from + 1, i);
    }
}

/// Law: a comment line is fully inert; inserting one anywhere leaves the
/// aggregate of any input unchanged.
pub proof fn lemma_comment_lines_inert(
    lines: Seq<Option<Seq<char>>>,
    i: int,
    line: Seq<char>,
    mpw: int,
)
    requires
        0 <= i <= lines.len(),
        is_comment(spec_trim(line)),
    ensures
        spec_aggregate(lines.insert(i, Some(line)), mpw) == spec_aggregate(lines, mpw),
{
    let inserted = lines.insert(i, Some(line));
    assert(inserted =~= (lines.take(i) + seq![Some(line)]) + lines.skip(i));
    lemma_results_concat(lines.take(i) + seq![Some(line)], lines.skip(i), mpw);
    lemma_results_concat(lines.take(i), seq![Some(line)], mpw);
    lemma_results_singleton(Some(line), mpw);
    assert(spec_line_results(Some(line), mpw) =~= Seq::<Result<int, Seq<char>>>::empty());
    assert(lines =~= lines.take(i) + lines.skip(i));
    lemma_results_concat(lines.take(i), lines.skip(i), mpw);
    assert(results_of(inserted, mpw) =~= results_of(lines, mpw));
}

/// Law: an unreadable line anywhere makes the whole aggregation fail; no
/// partial total is returned.
pub proof fn lemma_unreadable_line_aborts(lines: Seq<Option<Seq<char>>>, mpw: int, i: int)
    requires
        0 <= i < lines.len(),
        lines[i] is None,
    ensures
        spec_aggregate(lines, mpw) is Err,
{
    lemma_results_split(lines, mpw, i);
    let base = results_of(lines.take(i), mpw);
    assert(spec_results(lines, mpw)[base.len() as int] == Err::<int, Seq<char>>(
        read_error_message(),
    ));
    lemma_sum_results_err(spec_results(lines, mpw), base.len() as int);
}

/// Law: a malformed, non-empty token anywhere makes the whole aggregation
/// fail; no partial total is returned.
pub proof fn lemma_malformed_token_aborts(
    lines: Seq<Option<Seq<char>>>,
    mpw: int,
    i: int,
    j: int,
)
    requires
        0 <= i < lines.len(),
        lines[i] is Some,
        0 <= j < spec_line_tokens(lines[i]->Some_0).len(),
        spec_line_tokens(lines[i]->Some_0)[j].len() > 0,
        spec_parse(spec_line_tokens(lines[i]->Some_0)[j]) is None,
    ensures
        spec_aggregate(lines, mpw) is Err,
{
    lemma_results_split(lines, mpw, i);
    let base = results_of(lines.take(i), mpw);
    let cur = spec_line_results(lines[i], mpw);
    assert(cur[j] is Err);
    assert(spec_results(lines, mpw)[base.len() + j] == cur[j]);
    lemma_sum_results_err(spec_results(lines, mpw), base.len() + j);
}

} // verus!
