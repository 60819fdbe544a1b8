//! Laws relating the cursor operations to one another.

use vstd::prelude::*;

use crate::text::Text;

verus! {

/// `n` is the length of the maximal leading run of `s` on which `p` holds:
/// `p` holds up to `n`, and at `n` the stream either ends or `p` fails.
pub open spec fn is_max_run(s: Seq<char>, p: spec_fn(char) -> bool, n: int) -> bool {
    &&& 0 <= n <= s.len()
    &&& forall|i: int| 0 <= i < n ==> p(s[i])
    &&& n < s.len() ==> !p(s[n])
}

/// The executable predicate `f` computes the mathematical predicate `p`:
/// whatever a call of `f` may return agrees with `p`.
pub open spec fn obeys<F: Fn(char) -> bool>(f: F, p: spec_fn(char) -> bool) -> bool {
    forall|c: char, b: bool| #[trigger] call_ensures(f, (c,), b) ==> b == p(c)
}

/// Marking and immediately rewinding, with no consumption in between, is a
/// no-op: the cursor afterwards is exactly the cursor before the mark.
pub proof fn lemma_mark_rewind_noop(t: Text)
    requires
        t.wf(),
    ensures
        t.rewound(t.marker_at()) == t,
{
}

/// What `take` and `skip` observe of a predicate that computes `p` is
/// exactly that the consumed run is the maximal run of `p`.
pub proof fn lemma_observed_run_is_max<F: Fn(char) -> bool>(
    f: F,
    p: spec_fn(char) -> bool,
    s: Seq<char>,
    n: int,
)
    requires
        obeys(f, p),
        0 <= n <= s.len(),
        forall|i: int| 0 <= i < n ==> call_ensures(f, (s[i],), true),
        n < s.len() ==> call_ensures(f, (s[n],), false),
    ensures
        is_max_run(s, p, n),
{
}

/// skip/take consistency: the maximal run of a predicate from a given
/// position is unique, so the count `skip` reports equals the length of the
/// run `take` would have consumed with the same predicate from the same
/// position.
pub proof fn lemma_skip_take_consistency(
    s: Seq<char>,
    p: spec_fn(char) -> bool,
    take_len: int,
    skip_count: int,
)
    requires
        is_max_run(s, p, take_len),
        is_max_run(s, p, skip_count),
    ensures
        take_len == skip_count,
{
    if take_len < skip_count {
        assert(p(s[take_len]));
    }
    if skip_count < take_len {
        assert(p(s[skip_count]));
    }
}

} // verus!
