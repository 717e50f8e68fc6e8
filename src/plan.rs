//! How many exchanges a run makes.

use vstd::prelude::*;
use crate::response::{all_digits, digits_value, lemma_digits_value_prefix};

verus! {

/// What a run does.
#[derive(Clone, Copy, Debug, PartialEq, Eq, Structural)]
pub enum RunMode {
    /// One exchange, whose body is shown, and no statistics.
    Single,
    /// This many exchanges, one after another, then their statistics.
    Profile(u32),
}

/// The mode that a requested profile count gives: profiling for a positive
/// count, a single exchange for none, zero or a negative count.
pub open spec fn mode_of(profile: Option<i32>) -> RunMode {
    match profile {
        Some(n) => if n > 0 {
            RunMode::Profile(n as u32)
        } else {
            RunMode::Single
        },
        None => RunMode::Single,
    }
}

/// The mode that a requested profile count gives.
pub fn run_mode(profile: Option<i32>) -> (m: RunMode)
    ensures
        m == mode_of(profile),
{
    match profile {
        Some(n) => if n > 0 {
            RunMode::Profile(n as u32)
        } else {
            RunMode::Single
        },
        None => RunMode::Single,
    }
}

/// A signed 32-bit number written in decimal, with an optional leading `+`
/// or `-`.
pub open spec fn decimal_i32(t: Seq<u8>) -> Option<i32> {
    let neg = t.len() > 0 && t[0] == 45u8;
    let d = if t.len() > 0 && (t[0] == 43u8 || t[0] == 45u8) { t.drop_first() } else { t };
    if d.len() > 0 && all_digits(d) {
        if neg && digits_value(d) <= 0x8000_0000 {
            Some((0 - digits_value(d)) as i32)
        } else if !neg && digits_value(d) <= 0x7fff_ffff {
            Some(digits_value(d) as i32)
        } else {
            None
        }
    } else {
        None
    }
}

/// Reads a profile count written in decimal.
pub fn parse_profile_count(t: &[u8]) -> (r: Option<i32>)
    ensures
        r == decimal_i32(t@),
{
    let neg = t.len() > 0 && t[0] == 45;
    let mut start: usize = 0;
    if t.len() > 0 && (t[0] == 43 || t[0] == 45) {
        start = 1;
    }
    let ghost d = t@.subrange(start as int, t@.len() as int);
    assert(d =~= (if t@.len() > 0 && (t@[0] == 43u8 || t@[0] == 45u8) { t@.drop_first() } else { t@ }));
    if start == t.len() {
        return None;
    }
    let mut k = start;
    let mut v: u64 = 0;
    while k < t.len()
        invariant
            start <= k <= t@.len(),
            d == t@.subrange(start as int, t@.len() as int),
            d == (if t@.len() > 0 && (t@[0] == 43u8 || t@[0] == 45u8) { t@.drop_first() } else { t@ }),
            all_digits(t@.subrange(start as int, k as int)),
            v <= 0x8000_0000,
            v == digits_value(t@.subrange(start as int, k as int)),
        decreases t.len() - k,
    {
        let b = t[k];
        if b < 48 || b > 57 {
            assert(d[k - start] == b);
            assert(!all_digits(d));
            return None;
        }
        let ghost p = t@.subrange(start as int, k as int);
        let ghost q = t@.subrange(start as int, k + 1);
        assert(q.drop_last() =~= p);
        assert(all_digits(q)) by {
            assert forall|j: int| 0 <= j < q.len() implies 48u8 <= #[trigger] q[j] && q[j] <= 57u8 by {
                if j < p.len() {
                    assert(q[j] == p[j]);
                }
            }
        }
        let nv = v * 10 + (b - 48) as u64;
        assert(q.last() == b);
        assert(nv == digits_value(q));
        if nv > 0x8000_0000 {
            proof {
                if all_digits(d) {
                    lemma_digits_value_prefix(d, (k + 1 - start) as int);
                    assert(d.subrange(0, (k + 1 - start) as int) =~= q);
                }
            }
            return None;
        }
        v = nv;
        k = k + 1;
    }
    assert(t@.subrange(start as int, k as int) =~= d);
    if neg {
        Some((0 - v as i64) as i32)
    } else if v <= 0x7fff_ffff {
        Some(v as i32)
    } else {
        None
    }
}

/// The number of exchanges a run in mode `m` makes.
pub open spec fn exchanges_of(m: RunMode) -> nat {
    match m {
        RunMode::Single => 1,
        RunMode::Profile(n) => n as nat,
    }
}

impl RunMode {
    /// The number of exchanges the run makes.
    pub fn exchange_count(&self) -> (n: u32)
        ensures
            n == exchanges_of(*self),
    {
        match self {
            RunMode::Single => 1,
            RunMode::Profile(n) => *n,
        }
    }

    /// The run ends with a statistics report.
    pub fn reports_stats(&self) -> (b: bool)
        ensures
            b == (*self matches RunMode::Profile(_)),
    {
        match self {
            RunMode::Single => false,
            RunMode::Profile(_) => true,
        }
    }
}

/// Without a positive profile count a run makes exactly one exchange and
/// reports no statistics.
pub proof fn lemma_no_count_single_exchange(profile: Option<i32>)
    requires
        profile matches Some(n) ==> n <= 0,
    ensures
        mode_of(profile) == RunMode::Single,
        exchanges_of(mode_of(profile)) == 1,
{
}

/// A positive profile count makes that many exchanges, then a report.
pub proof fn lemma_count_profiles(n: i32)
    requires
        n > 0,
    ensures
        mode_of(Some(n)) == RunMode::Profile(n as u32),
        exchanges_of(mode_of(Some(n))) == n,
{
}

} // verus!
