//! Free-port selection: scan an inclusive range of candidate ports in
//! increasing order and take the first that was observed bindable on both
//! the IPv4 and the IPv6 unspecified address; fall back to a port the
//! operating system assigned, and finally to the literal start of the
//! range. The function never fails: it always yields a port number.
//!
//! Opening and closing the probe sockets is the caller's; the choice made
//! from the probe results is verified here.

use vstd::prelude::*;

verus! {

/// First index of a `true` in `s`, if any.
pub open spec fn first_free(s: Seq<bool>) -> Option<int>
    decreases s.len(),
{
    if s.len() == 0 {
        None
    } else if s[0] {
        Some(0int)
    } else {
        match first_free(s.skip(1)) {
            Some(i) => Some(i + 1),
            None => None,
        }
    }
}

proof fn lemma_first_free_some(s: Seq<bool>, i: int)
    requires
        0 <= i < s.len(),
        s[i],
        forall|j: int| 0 <= j < i ==> !s[j],
    ensures
        first_free(s) == Some(i),
    decreases i,
{
    if i > 0 {
        assert(forall|j: int| 0 <= j < i - 1 ==> s.skip(1)[j] == s[j + 1]);
        lemma_first_free_some(s.skip(1), i - 1);
    }
}

proof fn lemma_first_free_none(s: Seq<bool>)
    requires
        forall|j: int| 0 <= j < s.len() ==> !s[j],
    ensures
        first_free(s) is None,
    decreases s.len(),
{
    if s.len() > 0 {
        assert(forall|j: int| 0 <= j < s.skip(1).len() ==> s.skip(1)[j] == s[j + 1]);
        lemma_first_free_none(s.skip(1));
    }
}

/// When some candidate in the range is free, a free candidate is chosen.
pub proof fn lemma_some_candidate_is_chosen(s: Seq<bool>)
    requires
        exists|i: int| 0 <= i < s.len() && s[i],
    ensures
        first_free(s) is Some,
        0 <= first_free(s).unwrap() < s.len(),
        s[first_free(s).unwrap()],
    decreases s.len(),
{
    if s[0] {
    } else {
        assert(forall|j: int| 0 <= j < s.skip(1).len() ==> s.skip(1)[j] == s[j + 1]);
        let i = choose|i: int| 0 <= i < s.len() && s[i];
        assert(s.skip(1)[i - 1]);
        lemma_some_candidate_is_chosen(s.skip(1));
    }
}

/// When the range holds at least one free candidate, the chosen port lies
/// within the inclusive range and was observed free.
pub proof fn lemma_picked_port_in_range(
    starting_at: u16,
    try_consecutive: u16,
    free: Seq<bool>,
    port: u16,
)
    requires
        starting_at + try_consecutive <= u16::MAX,
        free.len() == try_consecutive + 1,
        exists|i: int| 0 <= i < free.len() && free[i],
        port == starting_at + first_free(free).unwrap(),
    ensures
        starting_at <= port <= starting_at + try_consecutive,
        free[port - starting_at],
{
    lemma_some_candidate_is_chosen(free);
}

/// Pick a port from the inclusive range `[starting_at, starting_at +
/// try_consecutive]`. `free[i]` reports whether the candidate
/// `starting_at + i` was bindable on both protocol families; `os_port` is
/// the port the operating system offered when asked for any free one. The
/// first free candidate wins; with none, the OS's offer; with none of
/// that either, `starting_at` itself.
pub fn pick_free_port(
    starting_at: u16,
    try_consecutive: u16,
    free: &Vec<bool>,
    os_port: Option<u16>,
) -> (port: u16)
    requires
        starting_at + try_consecutive <= u16::MAX,
        free@.len() == try_consecutive + 1,
    ensures
        match first_free(free@) {
            Some(i) => port == starting_at + i,
            None => match os_port {
                Some(p) => port == p,
                None => port == starting_at,
            },
        },
{
    let n = free.len();
    let mut i: usize = 0;
    while i < n
        invariant
            n == free@.len(),
            n == try_consecutive + 1,
            starting_at + try_consecutive <= u16::MAX,
            i <= n,
            forall|j: int| 0 <= j < i ==> !free@[j],
        decreases n - i,
    {
        if free[i] {
            proof {
                lemma_first_free_some(free@, i as int);
            }
            return starting_at + (i as u16);
        }
        i += 1;
    }
    proof {
        lemma_first_free_none(free@);
    }
    match os_port {
        Some(p) => p,
        None => starting_at,
    }
}

} // verus!

