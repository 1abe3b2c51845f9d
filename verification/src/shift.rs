//! The `HH:MM-HH:MM` shift grammar and the parser that turns a shift token
//! into a signed `Duration`.
//!
//! A token matches when it contains, anywhere inside it, one or two digits,
//! `:`, one or two digits, `-`, one or two digits, `:`, one or two digits;
//! each group greedily takes a second digit when one follows. The leftmost
//! match wins; the digit values are read with no range check, and an end hour
//! smaller than the start hour is taken as a single midnight crossing.

use vstd::prelude::*;
use vstd::string::StrSliceExecFns;
use vstd::string::StringExecFns;
use crate::duration::Duration;
use crate::error::Error;

verus! {

/// The decimal digits.
pub open spec fn is_digit(c: char) -> bool {
    '0' <= c && c <= '9'
}

/// The numeric value of a decimal digit.
pub open spec fn digit_value(c: char) -> int {
    c as u32 - 48
}

/// How many digits the group starting at `i` takes: two when a second digit
/// follows, else one.
pub open spec fn group_len(s: Seq<char>, i: int) -> int {
    if i + 1 < s.len() && is_digit(s[i + 1]) {
        2
    } else {
        1
    }
}

/// A group of one or two digits starting at `i`, followed by the separator
/// `sep`.
pub open spec fn group_ok(s: Seq<char>, i: int, sep: char) -> bool {
    &&& 0 <= i < s.len()
    &&& is_digit(s[i])
    &&& i + group_len(s, i) < s.len()
    &&& s[i + group_len(s, i)] == sep
}

/// The numeric value of the group starting at `i`.
pub open spec fn group_value(s: Seq<char>, i: int) -> int {
    if group_len(s, i) == 2 {
        10 * digit_value(s[i]) + digit_value(s[i + 1])
    } else {
        digit_value(s[i])
    }
}

/// A trailing group of one or two digits starting at `i`, with nothing
/// required after it.
pub open spec fn tail_group_ok(s: Seq<char>, i: int) -> bool {
    0 <= i < s.len() && is_digit(s[i])
}

/// Where the start-minutes group begins for a match starting at `i`.
pub open spec fn start_minutes_pos(s: Seq<char>, i: int) -> int {
    i + group_len(s, i) + 1
}

/// Where the end-hours group begins for a match starting at `i`.
pub open spec fn end_hours_pos(s: Seq<char>, i: int) -> int {
    start_minutes_pos(s, i) + group_len(s, start_minutes_pos(s, i)) + 1
}

/// Where the end-minutes group begins for a match starting at `i`.
pub open spec fn end_minutes_pos(s: Seq<char>, i: int) -> int {
    end_hours_pos(s, i) + group_len(s, end_hours_pos(s, i)) + 1
}

/// Whether the shift pattern matches in `s` starting at position `i`.
pub open spec fn match_at(s: Seq<char>, i: int) -> bool {
    &&& group_ok(s, i, ':')
    &&& group_ok(s, start_minutes_pos(s, i), '-')
    &&& group_ok(s, end_hours_pos(s, i), ':')
    &&& tail_group_ok(s, end_minutes_pos(s, i))
}

/// The start-hours value of the match starting at `i`.
pub open spec fn start_hours_of(s: Seq<char>, i: int) -> int {
    group_value(s, i)
}

/// The start-minutes value of the match starting at `i`.
pub open spec fn start_minutes_of(s: Seq<char>, i: int) -> int {
    group_value(s, start_minutes_pos(s, i))
}

/// The end-hours value of the match starting at `i`.
pub open spec fn end_hours_of(s: Seq<char>, i: int) -> int {
    group_value(s, end_hours_pos(s, i))
}

/// The end-minutes value of the match starting at `i`.
pub open spec fn end_minutes_of(s: Seq<char>, i: int) -> int {
    group_value(s, end_minutes_pos(s, i))
}

/// The minutes of the shift whose match starts at `i`: the end-to-start
/// difference, with 24 added to the end hour when it is smaller than the
/// start hour (one midnight crossing).
pub open spec fn shift_minutes_at(s: Seq<char>, i: int) -> int {
    let start_hours = start_hours_of(s, i);
    let end_hours_raw = end_hours_of(s, i);
    let end_hours = if start_hours > end_hours_raw {
        end_hours_raw + 24
    } else {
        end_hours_raw
    };
    (end_hours - start_hours) * 60 + (end_minutes_of(s, i) - start_minutes_of(s, i))
}

/// The position of the leftmost match at or after `i`, if any.
pub open spec fn find_match_from(s: Seq<char>, i: int) -> Option<int>
    decreases s.len() - i when i <= s.len()
{
    if i >= s.len() {
        None
    } else if match_at(s, i) {
        Some(i)
    } else {
        find_match_from(s, i + 1)
    }
}

/// What parsing a token yields: the minutes of the leftmost match, or
/// nothing when the token is malformed.
pub open spec fn spec_parse(s: Seq<char>) -> Option<int> {
    match find_match_from(s, 0) {
        Some(i) => Some(shift_minutes_at(s, i)),
        None => None,
    }
}

/// The message reported for a malformed token.
pub open spec fn parse_error_message(s: Seq<char>) -> Seq<char> {
    "Expected shift: "@ + s + " to be formated like 12:30-17:00"@
}

/// Every group value lies in 0..=99, so a parsed shift lies in a small range.
pub proof fn lemma_shift_minutes_bounds(s: Seq<char>, i: int)
    requires
        match_at(s, i),
    ensures
        0 <= start_hours_of(s, i) <= 99,
        0 <= start_minutes_of(s, i) <= 99,
        0 <= end_hours_of(s, i) <= 99,
        0 <= end_minutes_of(s, i) <= 99,
        -6039 <= shift_minutes_at(s, i) <= 7479,
{
}

/// Reads a group of one or two digits at `i` followed by `sep`, returning its
/// value and the position just past the separator.
fn read_group(text: &str, n: usize, i: usize, sep: char) -> (r: Option<(i64, usize)>)
    requires
        n == text@.len(),
    ensures
        match r {
            Some(g) => {
                &&& group_ok(text@, i as int, sep)
                &&& g.0 == group_value(text@, i as int)
                &&& 0 <= g.0 <= 99
                &&& g.1 == i + group_len(text@, i as int) + 1
                &&& g.1 <= n
            },
            None => !group_ok(text@, i as int, sep),
        },
{
    if i >= n {
        return None;
    }
    let c0 = text.get_char(i);
    if !(c0 >= '0' && c0 <= '9') {
        return None;
    }
    let d0 = (c0 as u32 - 48) as i64;
    let mut value: i64 = d0;
    let mut len: usize = 1;
    if i + 1 < n {
        let c1 = text.get_char(i + 1);
        if c1 >= '0' && c1 <= '9' {
            len = 2;
            value = 10 * d0 + (c1 as u32 - 48) as i64;
        }
    }
    let sep_pos = i + len;
    if sep_pos < n && text.get_char(sep_pos) == sep {
        Some((value, sep_pos + 1))
    } else {
        None
    }
}

/// Reads a trailing group of one or two digits at `i`.
fn read_tail_group(text: &str, n: usize, i: usize) -> (r: Option<i64>)
    requires
        n == text@.len(),
    ensures
        match r {
            Some(v) => {
                &&& tail_group_ok(text@, i as int)
                &&& v == group_value(text@, i as int)
                &&& 0 <= v <= 99
            },
            None => !tail_group_ok(text@, i as int),
        },
{
    if i >= n {
        return None;
    }
    let c0 = text.get_char(i);
    if !(c0 >= '0' && c0 <= '9') {
        return None;
    }
    let d0 = (c0 as u32 - 48) as i64;
    let mut value: i64 = d0;
    if i + 1 < n {
        let c1 = text.get_char(i + 1);
        if c1 >= '0' && c1 <= '9' {
            value = 10 * d0 + (c1 as u32 - 48) as i64;
        }
    }
    Some(value)
}

/// Tries the whole pattern at position `i`, returning the four group values.
fn match_shift_at(text: &str, n: usize, i: usize) -> (r: Option<(i64, i64, i64, i64)>)
    requires
        n == text@.len(),
    ensures
        match r {
            Some(g) => {
                &&& match_at(text@, i as int)
                &&& g.0 == start_hours_of(text@, i as int)
                &&& g.1 == start_minutes_of(text@, i as int)
                &&& g.2 == end_hours_of(text@, i as int)
                &&& g.3 == end_minutes_of(text@, i as int)
            },
            None => !match_at(text@, i as int),
        },
{
    let first = read_group(text, n, i, ':');
    if first.is_none() {
        return None;
    }
    let (start_hours, p1) = first.unwrap();
    let second = read_group(text, n, p1, '-');
    if second.is_none() {
        return None;
    }
    let (start_minutes, p2) = second.unwrap();
    let third = read_group(text, n, p2, ':');
    if third.is_none() {
        return None;
    }
    let (end_hours, p3) = third.unwrap();
    match read_tail_group(text, n, p3) {
        Some(end_minutes) => Some((start_hours, start_minutes, end_hours, end_minutes)),
        None => None,
    }
}

impl Duration {
    /// Parses a `"HH:MM-HH:MM"` shift token into its duration in minutes, or
    /// reports a message naming the malformed token. A match anywhere inside
    /// the token is accepted; when the end hour is smaller than the start
    /// hour the range is taken to cross midnight once.
    pub fn parse(text: &str) -> (r: Result<Duration, Error>)
        ensures
            match r {
                Ok(d) => spec_parse(text@) == Some(d@),
                Err(e) => spec_parse(text@) is None && e@ == parse_error_message(text@),
            },
    {
        let n = text.unicode_len();
        let mut i: usize = 0;
        while i < n
            invariant
                n == text@.len(),
                i <= n,
                find_match_from(text@, 0) == find_match_from(text@, i as int),
            decreases n - i,
        {
            match match_shift_at(text, n, i) {
                Some((start_hours, start_minutes, end_hours_raw, end_minutes)) => {
                    proof {
                        lemma_shift_minutes_bounds(text@, i as int);
                        assert(find_match_from(text@, i as int) == Some(i as int));
                    }
                    let end_hours = if start_hours > end_hours_raw {
                        end_hours_raw + 24
                    } else {
                        end_hours_raw
                    };
                    return Ok(
                        Duration::from_start_to_end(
                            (start_hours, start_minutes),
                            (end_hours, end_minutes),
                        ),
                    );
                },
                None => {},
            }
            proof {
                assert(find_match_from(text@, i as int) == find_match_from(text@, i as int + 1));
            }
            i += 1;
        }
        proof {
            assert(find_match_from(text@, i as int) is None);
        }
        let mut message = "Expected shift: ".to_owned();
        message.append(text);
        message.append(" to be formated like 12:30-17:00");
        Err(Error(message))
    }
}

/// Law: for a valid token whose end hour is at least its start hour, parsing
/// yields exactly the direct start-to-end difference, the value
/// `Duration::from_start_to_end` computes from the four group values.
pub proof fn lemma_parse_without_crossing(s: Seq<char>, i: int)
    requires
        find_match_from(s, 0) == Some(i),
        end_hours_of(s, i) >= start_hours_of(s, i),
    ensures
        spec_parse(s) == Some(
            (end_hours_of(s, i) - start_hours_of(s, i)) * 60 + (end_minutes_of(s, i)
                - start_minutes_of(s, i)),
        ),
{
}

} // verus!
