//! Capacity policy: how much a buffer grows when it runs out of room, and when
//! and how far it shrinks. Everything here is a pure function of the current
//! capacity, the request and the element size in bytes.
use vstd::prelude::*;

verus! {

/// Smallest non-zero capacity the policy hands out.
pub const MIN_NON_ZERO_CAP: usize = 8;

/// Elements of at most this many bytes are small: their buffers double.
pub const SMALL_ELEM_BYTES: usize = 128;

/// Elements of more than this many bytes are large: their buffers grow by a quarter.
pub const LARGE_ELEM_BYTES: usize = 1024;

/// Most bytes that rounding a small-element capacity up to a power of two may waste.
pub const MAX_ROUNDING_WASTE_BYTES: usize = 16 * 1024;

/// Wasted bytes beyond which a buffer that is more than a quarter empty is shrunk.
pub const MAX_EXCESS_BYTES: usize = 1024 * 1024;

pub open spec fn min_nat(a: nat, b: nat) -> nat {
    if a <= b { a } else { b }
}

pub open spec fn max_nat(a: nat, b: nat) -> nat {
    if a >= b { a } else { b }
}

/// Largest capacity any buffer may reach on this platform: 2^48 slots where
/// `usize` has 64 bits, 2^30 where it has 32.
pub open spec fn spec_max_capacity() -> nat {
    if usize::MAX > 0xffff_ffff {
        0x1_0000_0000_0000
    } else {
        0x4000_0000
    }
}

pub fn max_capacity() -> (r: usize)
    ensures
        r == spec_max_capacity(),
{
    if usize::MAX > 0xffff_ffff {
        0x1_0000usize * 0x1_0000usize * 0x1_0000usize
    } else {
        0x4000_0000usize
    }
}

/// Most elements of `size` bytes that one buffer may hold: the platform
/// maximum, and no more than `isize::MAX` bytes. Zero-sized elements are
/// unbounded.
pub open spec fn max_elements(size: nat) -> nat {
    if size == 0 {
        usize::MAX as nat
    } else {
        min_nat(isize::MAX as nat / size, spec_max_capacity())
    }
}

/// The capacity limit for elements of `size` bytes.
pub fn max_elements_for(size: usize) -> (r: usize)
    ensures
        r == max_elements(size as nat),
{
    if size == 0 {
        usize::MAX
    } else {
        let by_bytes = (isize::MAX as usize) / size;
        let platform = max_capacity();
        if by_bytes < platform {
            by_bytes
        } else {
            platform
        }
    }
}

/// `pow2_from(p, n)`: keep doubling `p` until it reaches `n`.
pub open spec fn pow2_from(p: nat, n: nat) -> nat
    decreases if p < n { n - p } else { 0 },
{
    if p == 0 || p >= n {
        p
    } else {
        pow2_from(2 * p, n)
    }
}

/// The smallest power of two that is at least `n` (one for zero).
pub open spec fn next_pow2(n: nat) -> nat {
    pow2_from(1, n)
}

pub proof fn lemma_pow2_from(p: nat, n: nat)
    requires
        p >= 1,
    ensures
        pow2_from(p, n) >= n,
        pow2_from(p, n) >= p,
        p >= n ==> pow2_from(p, n) == p,
        p < n ==> pow2_from(p, n) < 2 * n,
    decreases if p < n { n - p } else { 0 },
{
    if p < n {
        lemma_pow2_from(2 * p, n);
    }
}

/// The smallest power of two that is at least `n` is below `2 * n` once `n > 1`.
pub proof fn lemma_next_pow2(n: nat)
    ensures
        next_pow2(n) >= n,
        next_pow2(n) >= 1,
        n <= 1 ==> next_pow2(n) == 1,
        n > 1 ==> next_pow2(n) < 2 * n,
{
    lemma_pow2_from(1, n);
}

/// Smallest power of two at least `n`, as `usize::next_power_of_two` gives it.
pub fn next_power_of_two(n: usize) -> (r: usize)
    requires
        n <= usize::MAX / 2 + 1,
    ensures
        r == next_pow2(n as nat),
{
    let mut p: usize = 1;
    while p < n
        invariant
            1 <= p,
            n <= usize::MAX / 2 + 1,
            pow2_from(p as nat, n as nat) == next_pow2(n as nat),
        decreases usize::MAX - p,
    {
        p = p * 2;
    }
    p
}

/// Whether a small-element capacity `c` is rounded up to the next power of two:
/// only where that adds at most an eighth and at most
/// `MAX_ROUNDING_WASTE_BYTES` of unused memory.
pub open spec fn rounds_up(c: nat, size: nat) -> bool {
    &&& next_pow2(c) <= c + c / 8
    &&& (next_pow2(c) - c) * size <= MAX_ROUNDING_WASTE_BYTES
}

/// The capacity a non-empty buffer of capacity `cap` grows to when `required`
/// slots are asked for: small elements double (at least to `required`, maybe
/// rounded up); medium ones grow by half and large ones by a quarter, and
/// where that is not enough, to exactly `required` with no rounding; never
/// beyond the platform maximum.
pub open spec fn growth_capacity(cap: nat, required: nat, size: nat) -> nat {
    let grown = if size > LARGE_ELEM_BYTES {
        max_nat(cap + cap / 4, required)
    } else if size > SMALL_ELEM_BYTES {
        max_nat(cap + cap / 2, required)
    } else {
        let c = max_nat(2 * cap, required);
        if rounds_up(c, size) {
            next_pow2(c)
        } else {
            c
        }
    };
    min_nat(grown, spec_max_capacity())
}

/// The capacity a buffer of capacity `cap` has after a request for
/// `additional` more slots: unchanged where the request (capped at the limit)
/// already fits; from empty, the next power of two of the request and at least
/// `MIN_NON_ZERO_CAP`; otherwise `growth_capacity`; never beyond
/// `max_elements`. Zero-sized elements stay unbounded.
pub open spec fn reserve_capacity(cap: nat, additional: nat, size: nat) -> nat {
    if size == 0 {
        usize::MAX as nat
    } else {
        let required = if cap + additional > usize::MAX {
            spec_max_capacity()
        } else {
            cap + additional
        };
        let capped = min_nat(required, max_elements(size));
        if capped <= cap {
            cap
        } else {
            let target = if cap == 0 {
                next_pow2(max_nat(capped, MIN_NON_ZERO_CAP as nat))
            } else {
                growth_capacity(cap, capped, size)
            };
            max_nat(cap, min_nat(target, max_elements(size)))
        }
    }
}

/// The capacity after a container that needs `needed` slots asks for
/// `additional` more: unchanged where `needed` slots are there already.
pub open spec fn ensured_capacity(cap: nat, additional: nat, needed: nat, size: nat) -> nat {
    if needed <= cap {
        cap
    } else {
        reserve_capacity(cap, additional, size)
    }
}

/// A request for `additional` more slots ends with at least that many beyond
/// the old capacity, or with the element type's limit; a request for none
/// changes nothing.
pub proof fn lemma_reserve_covers_request(cap: nat, additional: nat, size: nat)
    requires
        size == 0 ==> cap == usize::MAX,
        size != 0 ==> cap <= max_elements(size),
    ensures
        reserve_capacity(cap, additional, size) >= min_nat(cap + additional, max_elements(size)),
        reserve_capacity(cap, additional, size) <= max_nat(cap, max_elements(size)),
        additional == 0 ==> reserve_capacity(cap, additional, size) == cap,
{
    lemma_next_pow2(max_nat(min_nat(cap + additional, max_elements(size)), MIN_NON_ZERO_CAP as nat));
    if size != 0 && cap > 0 {
        let capped = min_nat(
            if cap + additional > usize::MAX { spec_max_capacity() } else { cap + additional },
            max_elements(size),
        );
        lemma_next_pow2(max_nat(2 * cap, capped));
    }
}

/// Whether a buffer of capacity `cap` holding `len` elements of `size` bytes
/// is worth shrinking: less than a quarter used, or more than
/// `MAX_EXCESS_BYTES` wasted while more than a quarter is unused.
pub open spec fn should_shrink_spec(cap: nat, len: nat, size: nat) -> bool {
    let waste = cap - len;
    size != 0 && ((waste * size > MAX_EXCESS_BYTES && 4 * waste > cap) || 4 * len < cap)
}

/// The capacity after shrinking a buffer of capacity `cap` that holds `len`
/// elements: the next power of two of `len`, at least `MIN_NON_ZERO_CAP`,
/// where that is smaller and the buffer is worth shrinking; else unchanged.
pub open spec fn shrink_capacity(cap: nat, len: nat, size: nat) -> nat {
    if size == 0 {
        usize::MAX as nat
    } else if len >= cap - cap / 4 || !should_shrink_spec(cap, len, size) {
        cap
    } else {
        let target = max_nat(next_pow2(len), MIN_NON_ZERO_CAP as nat);
        if target < cap {
            target
        } else {
            cap
        }
    }
}

/// Shrinking never raises the capacity nor takes it below the length, and
/// it strictly lowers the capacity of a buffer less than a quarter used,
/// unless that buffer already has no more than `MIN_NON_ZERO_CAP` slots or
/// holds zero-sized elements.
pub proof fn lemma_shrink_law(cap: nat, len: nat, size: nat)
    requires
        len <= cap,
        size == 0 ==> cap == usize::MAX,
    ensures
        shrink_capacity(cap, len, size) <= cap,
        shrink_capacity(cap, len, size) >= len,
        size != 0 && 4 * len < cap && cap > MIN_NON_ZERO_CAP ==> shrink_capacity(cap, len, size)
            < cap,
{
    lemma_next_pow2(len);
}

/// A growth request never lowers the capacity, and one that asks for at
/// least what is `needed` (within the limit) ends with it.
pub proof fn lemma_growth_never_shrinks(cap: nat, additional: nat, needed: nat, size: nat)
    requires
        size == 0 ==> cap == usize::MAX,
        size != 0 ==> cap <= max_elements(size),
        needed <= cap + additional,
        needed <= max_elements(size),
    ensures
        reserve_capacity(cap, additional, size) >= cap,
        ensured_capacity(cap, additional, needed, size) >= cap,
        ensured_capacity(cap, additional, needed, size) >= needed,
{
    lemma_reserve_covers_request(cap, additional, size);
}

/// When a full container of small elements grows to make room for one more,
/// the new capacity is between 1.2 and 2 times the old one. Left out: a limit
/// that leaves no room for 1.2 times the capacity, and a doubled capacity
/// that the policy rounds up to a larger power of two.
pub proof fn lemma_push_growth_ratio(cap: nat, size: nat)
    requires
        size <= SMALL_ELEM_BYTES,
        size == 0 ==> cap == usize::MAX,
        0 < cap,
        6 * cap <= 5 * max_elements(size),
        !(rounds_up(2 * cap, size) && next_pow2(2 * cap) > 2 * cap),
    ensures
        5 * ensured_capacity(cap, 1, cap + 1, size) >= 6 * cap,
        ensured_capacity(cap, 1, cap + 1, size) <= 2 * cap,
{
    lemma_next_pow2(2 * cap);
}

} // verus!
