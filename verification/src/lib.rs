//! Management core for hybrid-GPU machines: discovers the graphics
//! controllers a PCI bus presents, classifies them by vendor, transitions
//! the discrete GPU between powered-off (removed) and powered-on
//! (bus-attached), and persists the boot-time driver preference. The
//! kernel-owned resources are modelled as explicit state
//! ([`kernel::KernelState`]); every operation is specified and verified
//! against that model, and a thin unverified shell performs the decided
//! writes against the live system.

use vstd::prelude::*;
use vstd::string::StrSliceExecFns;

pub mod cpufreq;
pub mod kernel;
pub mod graphics;
pub mod laws;

verus! {

/// Content-level equality of two string slices.
pub fn str_eq(a: &str, b: &str) -> (r: bool)
    ensures
        r == (a@ == b@),
{
    let sa: String = a.to_owned();
    let sb: String = b.to_owned();
    sa == sb
}

/// Index of the first occurrence of `c`, or the length when there is none.
pub open spec fn first_at(s: Seq<char>, c: char) -> int
    decreases s.len(),
{
    if s.len() == 0 {
        0
    } else if s[0] == c {
        0
    } else {
        1 + first_at(s.drop_first(), c)
    }
}

pub proof fn lemma_first_at_is(s: Seq<char>, c: char, i: int)
    requires
        0 <= i <= s.len(),
        forall|j: int| 0 <= j < i ==> s[j] != c,
        i == s.len() || s[i] == c,
    ensures
        first_at(s, c) == i,
    decreases s.len(),
{
    if i != 0 {
        let t = s.drop_first();
        assert forall|j: int| 0 <= j < i - 1 implies t[j] != c by {
            assert(t[j] == s[j + 1]);
        }
        lemma_first_at_is(t, c, i - 1);
    }
}

/// Index of the first occurrence of `c` in a string slice, or its length.
pub fn find_at(s: &str, c: char) -> (i: usize)
    ensures
        i as int == first_at(s@, c),
        i <= s@.len(),
{
    let n = s.unicode_len();
    let mut j: usize = 0;
    while j < n
        invariant
            n == s@.len(),
            j <= n,
            forall|t: int| 0 <= t < j ==> s@[t] != c,
        decreases n - j,
    {
        if s.get_char(j) == c {
            proof {
                lemma_first_at_is(s@, c, j as int);
            }
            return j;
        }
        j += 1;
    }
    proof {
        lemma_first_at_is(s@, c, n as int);
    }
    n
}

} // verus!
