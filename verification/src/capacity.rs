//! The growth policy of the container: buffer capacities start at 4 slots
//! and double, so the capacity reached after `n` appends is the smallest
//! value of the form `4 * 2^k` that is at least `n` (and 0 when `n == 0`).

use vstd::prelude::*;

verus! {

/// The first capacity a buffer is given when the container leaves the
/// empty state.
pub const INITIAL_CAPACITY: usize = 4;

/// The capacity reached by doubling `c` until it is at least `n`.
/// Unspecified for `c == 0`, which doubling would never leave.
pub open spec fn grow_from(c: nat, n: nat) -> nat
    decreases (if n > c { n - c } else { 0 })
        when c >= 1
{
    if n <= c {
        c
    } else {
        grow_from(2 * c, n)
    }
}

/// The capacity a container holds once `n` values have been appended to
/// it, starting from the empty container: 0 before the first append, then
/// 4 doubled as often as needed.
pub open spec fn cap_for(n: nat) -> nat {
    if n == 0 {
        0
    } else {
        grow_from(INITIAL_CAPACITY as nat, n)
    }
}

/// Holds when `m` is `base * 2^k` for some `k >= 0`.
pub open spec fn doubled_from(base: nat, m: nat) -> bool
    decreases m,
{
    m == base || (m > base && m % 2 == 0 && doubled_from(base, m / 2))
}

/// Holds when `m` is one of the capacities a buffer can have:
/// `4, 8, 16, 32, ...`, that is `4 * 2^k` for some `k >= 0`.
pub open spec fn is_buffer_capacity(m: nat) -> bool {
    doubled_from(INITIAL_CAPACITY as nat, m)
}

proof fn lemma_grow_from_bounds(c: nat, n: nat)
    requires
        c >= 1,
    ensures
        grow_from(c, n) >= c,
        grow_from(c, n) >= n,
    decreases (if n > c { n - c } else { 0 }),
{
    if n <= c {
    } else {
        lemma_grow_from_bounds(2 * c, n);
    }
}

/// The capacity covers the length: after `n` appends the buffer holds at
/// least `n` slots.
pub proof fn lemma_cap_for_at_least(n: nat)
    ensures
        cap_for(n) >= n,
        n > 0 ==> cap_for(n) >= INITIAL_CAPACITY,
{
    if n > 0 {
        lemma_grow_from_bounds(INITIAL_CAPACITY as nat, n);
    }
}

proof fn lemma_grow_from_succ_within(c: nat, n: nat)
    requires
        c >= 1,
        n < grow_from(c, n),
    ensures
        grow_from(c, n + 1) == grow_from(c, n),
    decreases (if n > c { n - c } else { 0 }),
{
    if n <= c {
    } else {
        lemma_grow_from_succ_within(2 * c, n);
    }
}

proof fn lemma_grow_from_succ_at(c: nat, n: nat)
    requires
        c >= 1,
        n == grow_from(c, n),
    ensures
        grow_from(c, n + 1) == 2 * n,
    decreases (if n > c { n - c } else { 0 }),
{
    if n <= c {
        lemma_grow_from_bounds(c, n);
        assert(n == c);
        assert(grow_from(2 * c, n + 1) == 2 * c);
        assert(grow_from(c, n + 1) == grow_from(2 * c, n + 1));
    } else {
        lemma_grow_from_succ_at(2 * c, n);
    }
}

/// An append into spare room keeps the capacity: while the length stays
/// under the capacity the buffer is not touched.
pub proof fn lemma_cap_for_succ_within(n: nat)
    requires
        n < cap_for(n),
    ensures
        cap_for((n + 1) as nat) == cap_for(n),
{
    if n == 0 {
        assert(cap_for(0) == 0);
    } else {
        lemma_grow_from_succ_within(INITIAL_CAPACITY as nat, n);
    }
}

/// An append into a full buffer doubles the capacity, and the very first
/// append brings it to `INITIAL_CAPACITY`.
pub proof fn lemma_cap_for_succ_full(n: nat)
    requires
        n == cap_for(n),
    ensures
        n == 0 ==> cap_for((n + 1) as nat) == INITIAL_CAPACITY,
        n > 0 ==> cap_for((n + 1) as nat) == 2 * n,
{
    if n > 0 {
        lemma_grow_from_succ_at(INITIAL_CAPACITY as nat, n);
    }
}

proof fn lemma_doubled_from_ge(c: nat, m: nat)
    requires
        doubled_from(c, m),
    ensures
        m >= c,
{
}

proof fn lemma_doubled_from_raise(c: nat, m: nat)
    requires
        c >= 1,
        doubled_from(c, m),
        m > c,
    ensures
        doubled_from(2 * c, m),
    decreases m,
{
    assert(m % 2 == 0 && doubled_from(c, m / 2));
    if m / 2 == c {
        assert(m == 2 * c);
    } else {
        lemma_doubled_from_ge(c, m / 2);
        assert(m / 2 > c);
        lemma_doubled_from_raise(c, m / 2);
        assert(m > 2 * c);
    }
}

proof fn lemma_doubled_from_lower(c: nat, m: nat)
    requires
        c >= 1,
        doubled_from(2 * c, m),
    ensures
        doubled_from(c, m),
    decreases m,
{
    if m == 2 * c {
        assert(doubled_from(c, m / 2));
    } else {
        lemma_doubled_from_lower(c, m / 2);
        assert(m / 2 > c);
    }
}

proof fn lemma_grow_from_shape(c: nat, n: nat)
    requires
        c >= 1,
    ensures
        doubled_from(c, grow_from(c, n)),
    decreases (if n > c { n - c } else { 0 }),
{
    if n <= c {
    } else {
        lemma_grow_from_shape(2 * c, n);
        lemma_grow_from_bounds(2 * c, n);
        lemma_doubled_from_lower(c, grow_from(2 * c, n));
    }
}

proof fn lemma_grow_from_exact(c: nat, n: nat)
    requires
        c >= 1,
        doubled_from(c, n),
    ensures
        grow_from(c, n) == n,
    decreases (if n > c { n - c } else { 0 }),
{
    if n == c {
    } else {
        assert(n > c);
        lemma_doubled_from_raise(c, n);
        lemma_grow_from_exact(2 * c, n);
    }
}

proof fn lemma_grow_from_minimal(c: nat, n: nat, m: nat)
    requires
        c >= 1,
        doubled_from(c, m),
        m >= n,
    ensures
        grow_from(c, n) <= m,
    decreases (if n > c { n - c } else { 0 }),
{
    if n <= c {
    } else {
        assert(m > c);
        lemma_doubled_from_raise(c, m);
        lemma_grow_from_minimal(2 * c, n, m);
    }
}

/// After `n > 0` appends the capacity is the smallest value of the form
/// `4 * 2^k` that is at least `n`.
pub proof fn lemma_cap_for_minimal(n: nat)
    requires
        n > 0,
    ensures
        is_buffer_capacity(cap_for(n)),
        cap_for(n) >= n,
        forall|m: nat| is_buffer_capacity(m) && m >= n ==> m >= cap_for(n),
{
    lemma_grow_from_shape(INITIAL_CAPACITY as nat, n);
    lemma_grow_from_bounds(INITIAL_CAPACITY as nat, n);
    assert forall|m: nat| is_buffer_capacity(m) && m >= n implies m >= cap_for(n) by {
        lemma_grow_from_minimal(INITIAL_CAPACITY as nat, n, m);
    }
}

/// The lengths at which an append finds the buffer full, and so grows it,
/// are exactly `4, 8, 16, 32, ...`.
pub proof fn lemma_growth_points(n: nat)
    requires
        n > 0,
    ensures
        n == cap_for(n) <==> is_buffer_capacity(n),
{
    if n == cap_for(n) {
        lemma_grow_from_shape(INITIAL_CAPACITY as nat, n);
    }
    if is_buffer_capacity(n) {
        lemma_grow_from_exact(INITIAL_CAPACITY as nat, n);
    }
}

} // verus!
