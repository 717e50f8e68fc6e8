//! Choosing the address to connect to among those a name lookup gave.

use vstd::prelude::*;

verus! {

/// One address that a name lookup gave.
#[derive(Clone, Copy, Debug, PartialEq, Eq, Structural)]
pub enum Candidate {
    /// An IPv4 address, by its four octets.
    V4(u8, u8, u8, u8),
    /// An IPv6 address, which is not used.
    V6,
}

/// Why no address could be chosen.
#[derive(Clone, Copy, Debug, PartialEq, Eq, Structural)]
pub enum ResolveError {
    /// The lookup gave no IPv4 address.
    NoIpv4Address,
}

/// The octets of the first IPv4 address among `c`, if any.
pub open spec fn first_ipv4_of(c: Seq<Candidate>) -> Option<(u8, u8, u8, u8)>
    decreases c.len(),
{
    if c.len() == 0 {
        None
    } else {
        match c[0] {
            Candidate::V4(a, b, x, d) => Some((a, b, x, d)),
            Candidate::V6 => first_ipv4_of(c.drop_first()),
        }
    }
}

/// The first IPv4 address among the candidates, in the order the lookup gave
/// them.
pub fn first_ipv4(candidates: &Vec<Candidate>) -> (r: Result<(u8, u8, u8, u8), ResolveError>)
    ensures
        match first_ipv4_of(candidates@) {
            Some(a) => r == Ok::<(u8, u8, u8, u8), ResolveError>(a),
            None => r == Err::<(u8, u8, u8, u8), ResolveError>(ResolveError::NoIpv4Address),
        },
{
    let mut i: usize = 0;
    assert(candidates@.subrange(0, candidates@.len() as int) =~= candidates@);
    while i < candidates.len()
        invariant
            i <= candidates@.len(),
            first_ipv4_of(candidates@) == first_ipv4_of(candidates@.subrange(i as int, candidates@.len() as int)),
        decreases candidates.len() - i,
    {
        let ghost rest = candidates@.subrange(i as int, candidates@.len() as int);
        assert(rest.drop_first() =~= candidates@.subrange(i + 1, candidates@.len() as int));
        match candidates[i] {
            Candidate::V4(a, b, c, d) => {
                return Ok((a, b, c, d));
            },
            Candidate::V6 => {},
        }
        i = i + 1;
    }
    Err(ResolveError::NoIpv4Address)
}

} // verus!
