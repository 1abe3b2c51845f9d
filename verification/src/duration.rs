//! A signed span of minutes and its arithmetic: construction from an
//! hours/minutes range or a raw count, in-place accumulation, and reduction of
//! a sequence of spans to one total.

use vstd::prelude::*;
use vstd::seq_lib::commutative_foldl;
use vstd::seq_lib::lemma_fold_left_permutation;

verus! {

/// Minutes per hour.
pub const HOURS_TO_MINUTES: i64 = 60;

/// A signed count of minutes. Negative values represent deductions, so the
/// whole signed range is meaningful; the value is a relative span, not a
/// wall-clock time.
#[derive(Debug, Clone, Copy, PartialEq, Eq, Structural)]
pub struct Duration {
    minutes: i64,
}

impl View for Duration {
    type V = int;

    closed spec fn view(&self) -> int {
        self.minutes as int
    }
}

/// The minute counts of a sequence of durations.
pub open spec fn minutes_of(durations: Seq<Duration>) -> Seq<int> {
    durations.map_values(|d: Duration| d@)
}

/// The left-to-right sum of a sequence of minute counts, from zero.
pub open spec fn spec_sum(values: Seq<int>) -> int {
    values.fold_left(0, |acc: int, v: int| acc + v)
}

impl Duration {
    /// The span from a start `(hours, minutes)` pair to an end pair:
    /// `(end.hours - start.hours) * 60 + (end.minutes - start.minutes)`.
    /// An internal building block: it performs no midnight adjustment and may
    /// yield a negative span. The bounds only keep the arithmetic inside
    /// `i64`.
    pub fn from_start_to_end(start: (i64, i64), end: (i64, i64)) -> (r: Self)
        requires
            i64::MIN <= end.0 - start.0 <= i64::MAX,
            i64::MIN <= (end.0 - start.0) * 60 <= i64::MAX,
            i64::MIN <= end.1 - start.1 <= i64::MAX,
            i64::MIN <= (end.0 - start.0) * 60 + (end.1 - start.1) <= i64::MAX,
        ensures
            r@ == (end.0 - start.0) * 60 + (end.1 - start.1),
    {
        Duration { minutes: (end.0 - start.0) * HOURS_TO_MINUTES + (end.1 - start.1) }
    }

    /// A duration from a raw minute count.
    pub fn from_minutes(minutes: i64) -> (r: Self)
        ensures
            r@ == minutes,
    {
        Duration { minutes }
    }

    /// The minute count.
    pub fn minutes(&self) -> (r: i64)
        ensures
            r == self@,
    {
        self.minutes
    }

    /// In-place additive accumulation: adds `other`'s minutes into `self`.
    pub fn add_assign(&mut self, other: Duration)
        requires
            i64::MIN <= old(self)@ + other@ <= i64::MAX,
        ensures
            final(self)@ == old(self)@ + other@,
    {
        self.minutes = self.minutes + other.minutes;
    }

    /// Folds an ordered sequence of durations into one, starting from a
    /// zero-valued duration and accumulating left to right.
    pub fn sum(durations: &Vec<Duration>) -> (r: Self)
        requires
            forall|i: int|
                0 <= i <= durations@.len() ==> i64::MIN <= spec_sum(
                    #[trigger] minutes_of(durations@).take(i),
                ) <= i64::MAX,
        ensures
            r@ == spec_sum(minutes_of(durations@)),
    {
        let ghost values = minutes_of(durations@);
        let mut total = Duration { minutes: 0 };
        let mut idx: usize = 0;
        proof {
            assert(values.take(0) =~= Seq::<int>::empty());
        }
        while idx < durations.len()
            invariant
                idx <= durations@.len(),
                values == minutes_of(durations@),
                total@ == spec_sum(values.take(idx as int)),
                forall|i: int|
                    0 <= i <= durations@.len() ==> i64::MIN <= spec_sum(
                        #[trigger] values.take(i),
                    ) <= i64::MAX,
            decreases durations@.len() - idx,
        {
            let d = durations[idx];
            proof {
                let prefix = values.take(idx as int + 1);
                assert(prefix.drop_last() =~= values.take(idx as int));
                assert(prefix.last() == d@);
            }
            total.add_assign(d);
            idx += 1;
        }
        proof {
            assert(values.take(durations@.len() as int) =~= values);
        }
        total
    }
}

/// Law: the additive accumulation is commutative; accumulating `a` then `b`
/// onto any running total equals accumulating `b` then `a`.
pub proof fn lemma_accumulation_commutative(total: int, a: int, b: int)
    ensures
        (total + a) + b == (total + b) + a,
{
}

/// Law: the additive accumulation is associative; combining `a` with `b`
/// first, or `b` with `c` first, yields the same sum.
pub proof fn lemma_accumulation_associative(a: int, b: int, c: int)
    ensures
        (a + b) + c == a + (b + c),
{
}

/// Law: the sum of a sequence of minute counts depends only on which counts
/// appear, not on their order; any permutation sums to the same total.
pub proof fn lemma_sum_permutation(a: Seq<int>, b: Seq<int>)
    requires
        a.to_multiset() == b.to_multiset(),
    ensures
        spec_sum(a) == spec_sum(b),
{
    let f = |acc: int, v: int| acc + v;
    assert forall|x: int, y: int, acc: int| #[trigger] f(f(acc, x), y) == f(f(acc, y), x) by {
    }
    assert(commutative_foldl(f));
    lemma_fold_left_permutation(a, b, f, 0);
}

} // verus!
