//! Combining the values that oracle members report: the median of the
//! values that have not expired.
use vstd::prelude::*;

verus! {

/// A reported value with the moment it was reported.
#[derive(Clone, Copy, Debug, PartialEq, Eq)]
pub struct TimestampedValue {
    pub value: u128,
    pub timestamp: u64,
}

/// Whether a value reported at `timestamp` is still valid at `now`: its
/// moment plus `expires_in` (saturating) is later than `now`.
pub open spec fn is_fresh(timestamp: u64, now: u64, expires_in: u64) -> bool {
    if timestamp + expires_in > u64::MAX {
        u64::MAX > now
    } else {
        timestamp + expires_in > now
    }
}

/// The values of `vs` that are still valid, in order.
pub open spec fn fresh_values(vs: Seq<TimestampedValue>, now: u64, expires_in: u64) -> Seq<
    TimestampedValue,
> {
    vs.filter(|x: TimestampedValue| is_fresh(x.timestamp, now, expires_in))
}

/// How many of the first `n` values are below `v`.
pub open spec fn count_below(s: Seq<TimestampedValue>, v: u128, n: int) -> int
    decreases n,
{
    if n <= 0 {
        0
    } else {
        count_below(s, v, n - 1) + if s[n - 1].value < v {
            1int
        } else {
            0int
        }
    }
}

/// How many of the first `n` values are at most `v`.
pub open spec fn count_at_most(s: Seq<TimestampedValue>, v: u128, n: int) -> int
    decreases n,
{
    if n <= 0 {
        0
    } else {
        count_at_most(s, v, n - 1) + if s[n - 1].value <= v {
            1int
        } else {
            0int
        }
    }
}

/// `x` is the value at position `k` once `s` is sorted by value: fewer than
/// `k + 1` values are below it and more than `k` are at most it.
pub open spec fn is_kth(s: Seq<TimestampedValue>, x: TimestampedValue, k: int) -> bool {
    &&& count_below(s, x.value, s.len() as int) <= k
    &&& k < count_at_most(s, x.value, s.len() as int)
}

proof fn lemma_none_below_min(s: Seq<TimestampedValue>, m: u128, n: int)
    requires
        0 <= n <= s.len(),
        forall|i: int| 0 <= i < s.len() ==> #[trigger] s[i].value >= m,
    ensures
        count_below(s, m, n) == 0,
    decreases n,
{
    if n > 0 {
        lemma_none_below_min(s, m, n - 1);
    }
}

proof fn lemma_some_above(s: Seq<TimestampedValue>, v: u128, n: int)
    requires
        0 <= n <= s.len(),
        count_at_most(s, v, n) < n,
    ensures
        exists|i: int| 0 <= i < n && #[trigger] s[i].value > v,
    decreases n,
{
    if s[n - 1].value > v {
        assert(0 <= n - 1 < n && s[n - 1].value > v);
    } else {
        lemma_some_above(s, v, n - 1);
        let i = choose|i: int| 0 <= i < n - 1 && #[trigger] s[i].value > v;
        assert(0 <= i < n && s[i].value > v);
    }
}

proof fn lemma_next_value(s: Seq<TimestampedValue>, v: u128, w: u128, n: int)
    requires
        0 <= n <= s.len(),
        v < w,
        forall|i: int| 0 <= i < s.len() ==> !(v < #[trigger] s[i].value && s[i].value < w),
    ensures
        count_below(s, w, n) == count_at_most(s, v, n),
    decreases n,
{
    if n > 0 {
        lemma_next_value(s, v, w, n - 1);
    }
}

proof fn lemma_present_counts(s: Seq<TimestampedValue>, v: u128, n: int)
    requires
        0 <= n <= s.len(),
    ensures
        count_below(s, v, n) <= count_at_most(s, v, n),
        count_at_most(s, v, n) <= n,
        (exists|i: int| 0 <= i < n && #[trigger] s[i].value == v) ==> count_below(s, v, n) + 1
            <= count_at_most(s, v, n),
    decreases n,
{
    if n > 0 {
        lemma_present_counts(s, v, n - 1);
        if exists|i: int| 0 <= i < n && #[trigger] s[i].value == v {
            let i = choose|i: int| 0 <= i < n && #[trigger] s[i].value == v;
            if i < n - 1 {
                assert(exists|i: int| 0 <= i < n - 1 && #[trigger] s[i].value == v);
            }
        }
    }
}

/// The values of `values` still valid at `now`.
fn keep_fresh(values: &Vec<TimestampedValue>, now: u64, expires_in: u64) -> (r: Vec<TimestampedValue>)
    ensures
        r@ == fresh_values(values@, now, expires_in),
{
    let mut r: Vec<TimestampedValue> = Vec::new();
    let mut i: usize = 0;
    while i < values.len()
        invariant
            i <= values@.len(),
            r@ == fresh_values(values@.take(i as int), now, expires_in),
        decreases values@.len() - i,
    {
        let x = values[i];
        proof {
            reveal(Seq::filter);
            assert(values@.take(i as int + 1) =~= values@.take(i as int).push(x));
            assert(values@.take(i as int + 1).drop_last() =~= values@.take(i as int));
        }
        if x.timestamp.saturating_add(expires_in) > now {
            r.push(x);
        }
        i = i + 1;
    }
    proof {
        assert(values@.take(values@.len() as int) =~= values@);
    }
    r
}

/// The number of values of `s` below `v`.
fn below(s: &Vec<TimestampedValue>, v: u128) -> (r: usize)
    ensures
        r == count_below(s@, v, s@.len() as int),
{
    let mut c: usize = 0;
    let mut i: usize = 0;
    while i < s.len()
        invariant
            i <= s@.len(),
            c <= i,
            c == count_below(s@, v, i as int),
        decreases s@.len() - i,
    {
        if s[i].value < v {
            c = c + 1;
        }
        i = i + 1;
    }
    c
}

/// The number of values of `s` at most `v`.
fn at_most(s: &Vec<TimestampedValue>, v: u128) -> (r: usize)
    ensures
        r == count_at_most(s@, v, s@.len() as int),
{
    let mut c: usize = 0;
    let mut i: usize = 0;
    while i < s.len()
        invariant
            i <= s@.len(),
            c <= i,
            c == count_at_most(s@, v, i as int),
        decreases s@.len() - i,
    {
        if s[i].value <= v {
            c = c + 1;
        }
        i = i + 1;
    }
    c
}

/// The median combination, with its settings: how many valid values it
/// needs and how long a value stays valid.
#[derive(Clone, Copy, Debug, PartialEq, Eq)]
pub struct DefaultCombineData {
    pub minimum_count: u32,
    pub expires_in: u64,
}

impl DefaultCombineData {
    /// Combines the reported `values` into one: drops those that have
    /// expired by `now`; where fewer than the minimum count, or none, are
    /// left, the previous value stands; else the result is the median of
    /// those left by value (the upper one of an even number), one of them.
    /// Which of several values equal to the median is returned is not fixed.
    pub fn combine_data(
        &self,
        values: Vec<TimestampedValue>,
        prev_value: Option<TimestampedValue>,
        now: u64,
    ) -> (r: Option<TimestampedValue>)
        requires
            values@.len() <= u32::MAX,
        ensures
            ({
                let fresh = fresh_values(values@, now, self.expires_in);
                if fresh.len() < self.minimum_count || fresh.len() == 0 {
                    r == prev_value
                } else {
                    r matches Some(x) && fresh.contains(x) && is_kth(fresh, x, (fresh.len() / 2) as int)
                }
            }),
    {
        median_or_previous(values, prev_value, now, self.expires_in, self.minimum_count)
    }
}

/// The median of the values still valid at `now`, or `prev_value` where
/// fewer than `minimum_count`, or none, are.
fn median_or_previous(
    values: Vec<TimestampedValue>,
    prev_value: Option<TimestampedValue>,
    now: u64,
    expires_in: u64,
    minimum_count: u32,
) -> (r: Option<TimestampedValue>)
    requires
        values@.len() <= u32::MAX,
    ensures
        ({
            let fresh = fresh_values(values@, now, expires_in);
            if fresh.len() < minimum_count || fresh.len() == 0 {
                r == prev_value
            } else {
                r matches Some(x) && fresh.contains(x) && is_kth(fresh, x, (fresh.len() / 2) as int)
            }
        }),
{
    let fresh = keep_fresh(&values, now, expires_in);
    let count = fresh.len();
    if count < minimum_count as usize || count == 0 {
        return prev_value;
    }
    let mid = count / 2;
    let ghost s = fresh@;
    // Start from a least value.
    let mut cur: usize = 0;
    let mut i: usize = 1;
    while i < count
        invariant
            count == s.len(),
            fresh@ == s,
            cur < count,
            1 <= i <= count,
            forall|j: int| 0 <= j < i ==> s[cur as int].value <= #[trigger] s[j].value,
        decreases count - i,
    {
        if fresh[i].value < fresh[cur].value {
            cur = i;
        }
        i = i + 1;
    }
    proof {
        lemma_none_below_min(s, s[cur as int].value, count as int);
    }
    // Move up value by value while too few values are at most the current one.
    let mut le = at_most(&fresh, fresh[cur].value);
    proof {
        lemma_present_counts(s, s[cur as int].value, count as int);
    }
    while le <= mid
        invariant
            count == s.len(),
            fresh@ == s,
            mid == count / 2,
            cur < count,
            count_below(s, s[cur as int].value, count as int) <= mid,
            le == count_at_most(s, s[cur as int].value, count as int),
            le <= count,
        decreases count - le,
    {
        let v = fresh[cur].value;
        proof {
            lemma_some_above(s, v, count as int);
            lemma_present_counts(s, v, count as int);
        }
        // The least value above `v`.
        let mut next: usize = count;
        let mut j: usize = 0;
        while j < count
            invariant
                count == s.len(),
                fresh@ == s,
                j <= count,
                v == s[cur as int].value,
                next == count || (next < count && s[next as int].value > v),
                next == count ==> forall|k: int| 0 <= k < j ==> #[trigger] s[k].value <= v,
                next < count ==> forall|k: int|
                    0 <= k < j && #[trigger] s[k].value > v ==> s[next as int].value <= s[k].value,
            decreases count - j,
        {
            if fresh[j].value > v && (next == count || fresh[j].value < fresh[next].value) {
                next = j;
            }
            j = j + 1;
        }
        assert(next < count) by {
            let k = choose|k: int| 0 <= k < count && #[trigger] s[k].value > v;
        }
        let w = fresh[next].value;
        proof {
            lemma_next_value(s, v, w, count as int);
            assert(0 <= next < count && s[next as int].value == w);
            lemma_present_counts(s, w, count as int);
        }
        let ghost le0 = le;
        cur = next;
        le = at_most(&fresh, w);
        assert(le > le0);
    }
    proof {
        assert(s.contains(s[cur as int]));
    }
    Some(fresh[cur])
}

} // verus!
