//! Statistics of a profiling run.

use vstd::prelude::*;
use vstd::relations::{sorted_by, total_ordering};
use vstd::seq_lib::lemma_sorted_unique;
use crate::record::RequestRecord;
use crate::response::OK_STATUS_CODE;

verus! {

/// The order of `u64` values.
pub open spec fn leq_u64() -> spec_fn(u64, u64) -> bool {
    |a: u64, b: u64| a <= b
}

/// The elapsed times of the records, in the order of the records.
pub open spec fn elapsed_times(s: Seq<RequestRecord>) -> Seq<u64> {
    s.map_values(|r: RequestRecord| r.elapsed_millis)
}

/// The elapsed times of the records, sorted ascending.
pub open spec fn sorted_times(s: Seq<RequestRecord>) -> Seq<u64> {
    elapsed_times(s).sort_by(leq_u64())
}

/// Twice the median of the ascending sequence `t`: twice its middle value for
/// an odd length, the sum of its two middle values for an even one.
pub open spec fn median_twice(t: Seq<u64>) -> int {
    let n = t.len() as int;
    if n % 2 == 1 {
        2 * t[n / 2]
    } else {
        t[n / 2 - 1] + t[n / 2]
    }
}

/// The sum of the elapsed times.
pub open spec fn total_millis(s: Seq<RequestRecord>) -> int
    decreases s.len(),
{
    if s.len() == 0 {
        0
    } else {
        total_millis(s.drop_last()) + s.last().elapsed_millis
    }
}

/// The number of records that succeeded.
pub open spec fn success_count(s: Seq<RequestRecord>) -> int
    decreases s.len(),
{
    if s.len() == 0 {
        0
    } else {
        success_count(s.drop_last()) + if s.last().succeeded { 1int } else { 0int }
    }
}

/// The status codes other than 200, each once, in the order in which they
/// first appear among the records.
pub open spec fn failure_codes(s: Seq<RequestRecord>) -> Seq<u16>
    decreases s.len(),
{
    if s.len() == 0 {
        Seq::empty()
    } else {
        let d = failure_codes(s.drop_last());
        let c = s.last().status_code;
        if c != 200 && !d.contains(c) {
            d.push(c)
        } else {
            d
        }
    }
}

/// The statistics of a profiling run. Times are in milliseconds.
#[derive(Debug)]
pub struct ProfileStats {
    /// The number of requests.
    pub count: usize,
    /// The shortest elapsed time.
    pub fastest_millis: u64,
    /// The longest elapsed time.
    pub slowest_millis: u64,
    /// The sum of the elapsed times; the mean is this over `count`.
    pub total_millis: u128,
    /// Twice the median elapsed time, which stays whole for an even count.
    pub median_twice_millis: u128,
    /// The number of requests that succeeded.
    pub successes: usize,
    /// The status codes other than 200, each once, in order of first appearance.
    pub failure_codes: Vec<u16>,
    /// The smallest body size.
    pub smallest_body_bytes: usize,
    /// The largest body size.
    pub largest_body_bytes: usize,
}

/// Sorts `v` ascending.
/// Relies on `slice::sort_unstable`: the result is ascending and holds the
/// same values.
#[verifier::external_body]
fn sort_ascending(v: &mut Vec<u64>)
    ensures
        final(v)@.to_multiset() == old(v)@.to_multiset(),
        sorted_by(final(v)@, leq_u64()),
{
    v.sort_unstable();
}

/// `v` holds `c`.
fn contains_code(v: &Vec<u16>, c: u16) -> (b: bool)
    ensures
        b == v@.contains(c),
{
    let mut i: usize = 0;
    while i < v.len()
        invariant
            i <= v@.len(),
            forall|j: int| 0 <= j < i ==> v@[j] != c,
        decreases v.len() - i,
    {
        if v[i] == c {
            return true;
        }
        i = i + 1;
    }
    false
}

/// `leq_u64` is a total order.
pub proof fn lemma_leq_u64_total()
    ensures
        total_ordering(leq_u64()),
{
}

impl ProfileStats {
    /// The statistics of a non-empty sequence of records.
    pub fn from_records(records: &Vec<RequestRecord>) -> (st: ProfileStats)
        requires
            records@.len() >= 1,
        ensures
            st.count == records@.len(),
            forall|i: int| 0 <= i < records@.len() ==> st.fastest_millis <= #[trigger] records@[i].elapsed_millis,
            exists|i: int| 0 <= i < records@.len() && st.fastest_millis == #[trigger] records@[i].elapsed_millis,
            forall|i: int| 0 <= i < records@.len() ==> st.slowest_millis >= #[trigger] records@[i].elapsed_millis,
            exists|i: int| 0 <= i < records@.len() && st.slowest_millis == #[trigger] records@[i].elapsed_millis,
            st.total_millis == total_millis(records@),
            st.median_twice_millis == median_twice(sorted_times(records@)),
            st.successes == success_count(records@),
            st.failure_codes@ == failure_codes(records@),
            forall|i: int| 0 <= i < records@.len() ==> st.smallest_body_bytes <= #[trigger] records@[i].body_size_bytes,
            exists|i: int| 0 <= i < records@.len() && st.smallest_body_bytes == #[trigger] records@[i].body_size_bytes,
            forall|i: int| 0 <= i < records@.len() ==> st.largest_body_bytes >= #[trigger] records@[i].body_size_bytes,
            exists|i: int| 0 <= i < records@.len() && st.largest_body_bytes == #[trigger] records@[i].body_size_bytes,
    {
        let ghost s = records@;
        let n = records.len();
        let first = records[0];
        let mut fastest = first.elapsed_millis;
        let mut slowest = first.elapsed_millis;
        let mut smallest = first.body_size_bytes;
        let mut largest = first.body_size_bytes;
        let mut total: u128 = 0;
        let mut successes: usize = 0;
        let mut codes: Vec<u16> = Vec::new();
        let mut times: Vec<u64> = Vec::new();
        let mut i: usize = 0;
        while i < n
            invariant
                n == s.len(),
                s == records@,
                n >= 1,
                i <= n,
                forall|j: int| 0 <= j < i ==> fastest <= #[trigger] s[j].elapsed_millis,
                exists|j: int| 0 <= j < n && fastest == #[trigger] s[j].elapsed_millis,
                forall|j: int| 0 <= j < i ==> slowest >= #[trigger] s[j].elapsed_millis,
                exists|j: int| 0 <= j < n && slowest == #[trigger] s[j].elapsed_millis,
                forall|j: int| 0 <= j < i ==> smallest <= #[trigger] s[j].body_size_bytes,
                exists|j: int| 0 <= j < n && smallest == #[trigger] s[j].body_size_bytes,
                forall|j: int| 0 <= j < i ==> largest >= #[trigger] s[j].body_size_bytes,
                exists|j: int| 0 <= j < n && largest == #[trigger] s[j].body_size_bytes,
                total == total_millis(s.subrange(0, i as int)),
                total <= i * 0xffff_ffff_ffff_ffffu128,
                successes == success_count(s.subrange(0, i as int)),
                successes <= i,
                codes@ == failure_codes(s.subrange(0, i as int)),
                times@ == elapsed_times(s.subrange(0, i as int)),
            decreases n - i,
        {
            let r = records[i];
            let ghost p = s.subrange(0, i as int);
            let ghost q = s.subrange(0, i + 1);
            assert(q.drop_last() =~= p);
            assert(q.last() == r);
            if r.elapsed_millis < fastest {
                fastest = r.elapsed_millis;
            }
            if r.elapsed_millis > slowest {
                slowest = r.elapsed_millis;
            }
            if r.body_size_bytes < smallest {
                smallest = r.body_size_bytes;
            }
            if r.body_size_bytes > largest {
                largest = r.body_size_bytes;
            }
            assert(total + r.elapsed_millis <= (i + 1) * 0xffff_ffff_ffff_ffffu128) by (nonlinear_arith)
                requires
                    total <= i * 0xffff_ffff_ffff_ffffu128,
                    r.elapsed_millis <= 0xffff_ffff_ffff_ffffu64,
            ;
            assert((i + 1) * 0xffff_ffff_ffff_ffffu128 <= 0xffff_ffff_ffff_ffff_ffff_ffff_ffff_ffffu128) by (nonlinear_arith)
                requires
                    i + 1 <= 0xffff_ffff_ffff_ffffu128,
            ;
            total = total + r.elapsed_millis as u128;
            if r.succeeded {
                successes = successes + 1;
            }
            if r.status_code != OK_STATUS_CODE && !contains_code(&codes, r.status_code) {
                codes.push(r.status_code);
            }
            times.push(r.elapsed_millis);
            assert(times@ =~= elapsed_times(q));
            i = i + 1;
        }
        assert(s.subrange(0, n as int) =~= s);
        let ghost unsorted = times@;
        sort_ascending(&mut times);
        proof {
            broadcast use vstd::seq_lib::group_to_multiset_ensures;
            assert(unsorted.to_multiset().len() == times@.to_multiset().len());
            elapsed_times(s).lemma_sort_by_ensures(leq_u64());
            lemma_leq_u64_total();
            lemma_sorted_unique(times@, sorted_times(s), leq_u64());
        }
        let mid = n / 2;
        let median_twice_millis: u128 = if n % 2 == 1 {
            2 * (times[mid] as u128)
        } else {
            times[mid - 1] as u128 + times[mid] as u128
        };
        ProfileStats {
            count: n,
            fastest_millis: fastest,
            slowest_millis: slowest,
            total_millis: total,
            median_twice_millis,
            successes,
            failure_codes: codes,
            smallest_body_bytes: smallest,
            largest_body_bytes: largest,
        }
    }
}

/// When every record succeeded, the number of successes is the number of
/// records: the success rate is 100 percent.
pub proof fn lemma_all_succeeded_full_rate(s: Seq<RequestRecord>)
    requires
        forall|i: int| 0 <= i < s.len() ==> #[trigger] s[i].succeeded,
    ensures
        success_count(s) == s.len(),
    decreases s.len(),
{
    if s.len() > 0 {
        let t = s.drop_last();
        assert forall|i: int| 0 <= i < t.len() implies #[trigger] t[i].succeeded by {
            assert(t[i] == s[i]);
        }
        lemma_all_succeeded_full_rate(t);
    }
}

} // verus!
