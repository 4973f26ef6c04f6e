//! Modular arithmetic on the identifier ring.
//!
//! Positions live on a ring of size `max_value`; an arc from `a` to `b`
//! wraps past zero when `b` lies before `a`. `is_in_wraparound_range`
//! decides membership of `c` on that arc, with a flag for each end.

use vstd::prelude::*;

verus! {

/// Whether `c` lies on the arc from `a` to `b` on a ring of size `m`,
/// all three reduced modulo `m`. Ties are decided by the inclusivity
/// flags: `c == a` yields `a_inclusive`, then `c == b` yields
/// `b_inclusive`; an arc with `a == b` and `c` elsewhere is empty.
pub open spec fn wraparound_range_contains(
    a: u32,
    b: u32,
    c: u32,
    max_value: u32,
    a_inclusive: bool,
    b_inclusive: bool,
) -> bool
    recommends
        max_value > 0,
{
    let ra = a % max_value;
    let rb = b % max_value;
    let rc = c % max_value;
    if rc == ra {
        a_inclusive
    } else if rc == rb {
        b_inclusive
    } else if ra == rb {
        false
    } else if ra < rb {
        ra < rc && rc < rb
    } else {
        rc > ra || rc < rb
    }
}

/// Decides whether `c` lies on the arc from `a` to `b` on a ring of
/// size `max_value`, respecting the two inclusivity flags.
pub fn is_in_wraparound_range(
    a: u32,
    b: u32,
    c: u32,
    max_value: u32,
    a_inclusive: bool,
    b_inclusive: bool,
) -> (r: bool)
    requires
        max_value > 0,
    ensures
        r == wraparound_range_contains(a, b, c, max_value, a_inclusive, b_inclusive),
{
    let a: u32 = a % max_value;
    let b: u32 = b % max_value;
    let c: u32 = c % max_value;

    if c == a {
        return a_inclusive;
    }
    if c == b {
        return b_inclusive;
    }

    if a == b {
        return false;
    }

    if a < b {
        c > a && c < b
    } else {
        c > a || c < b
    }
}


/// A value below the modulus is its own remainder.
proof fn lemma_mod_small_u32(x: u32, m: u32)
    requires
        0 < m,
        x < m,
    ensures
        x % m == x,
{
    assert(x % m == x) by (nonlinear_arith)
        requires
            0 < m,
            x < m,
    ;
}

/// The arc from a point to itself, inclusive at the left end, holds
/// exactly that point.
pub proof fn lemma_range_self_to_self(a: u32, c: u32, max_value: u32, b_inclusive: bool)
    requires
        max_value > 0,
        a < max_value,
        c < max_value,
    ensures
        wraparound_range_contains(a, a, c, max_value, true, b_inclusive) == (c == a),
{
    lemma_mod_small_u32(a, max_value);
    lemma_mod_small_u32(c, max_value);
}

/// The left endpoint itself lies on the arc exactly when the left end
/// is inclusive.
pub proof fn lemma_range_left_endpoint(
    a: u32,
    b: u32,
    max_value: u32,
    a_inclusive: bool,
    b_inclusive: bool,
)
    requires
        max_value > 0,
    ensures
        wraparound_range_contains(a, b, a, max_value, a_inclusive, b_inclusive) == a_inclusive,
{
}

/// The right endpoint itself lies on a proper arc exactly when the
/// right end is inclusive. The arc must be proper: when the two ends
/// coincide modulo the ring size, the left flag decides instead.
pub proof fn lemma_range_right_endpoint(
    a: u32,
    b: u32,
    max_value: u32,
    a_inclusive: bool,
    b_inclusive: bool,
)
    requires
        max_value > 0,
        a % max_value != b % max_value,
    ensures
        wraparound_range_contains(a, b, b, max_value, a_inclusive, b_inclusive) == b_inclusive,
{
}

/// On an arc that does not wrap, membership is the ordinary interval
/// test, with each endpoint decided by its flag.
pub proof fn lemma_range_no_wrap(
    a: u32,
    b: u32,
    c: u32,
    max_value: u32,
    a_inclusive: bool,
    b_inclusive: bool,
)
    requires
        max_value > 0,
        a < b,
        b < max_value,
        c < max_value,
    ensures
        wraparound_range_contains(a, b, c, max_value, a_inclusive, b_inclusive) == ((c == a
            && a_inclusive) || (c == b && b_inclusive) || (a < c && c < b)),
{
    lemma_mod_small_u32(a, max_value);
    lemma_mod_small_u32(b, max_value);
    lemma_mod_small_u32(c, max_value);
}

/// Membership on the arc from `a` to `b` when all three points are
/// already reduced: the tie rules first, then the plain or the
/// wrapped interval test.
pub open spec fn arc_contains(a: u32, b: u32, c: u32, a_inclusive: bool, b_inclusive: bool) -> bool {
    if c == a {
        a_inclusive
    } else if c == b {
        b_inclusive
    } else if a == b {
        false
    } else if a < b {
        a < c && c < b
    } else {
        c > a || c < b
    }
}

/// Decides arc membership for points already below the ring size.
pub fn arc_contains_exec(a: u32, b: u32, c: u32, a_inclusive: bool, b_inclusive: bool) -> (r:
    bool)
    ensures
        r == arc_contains(a, b, c, a_inclusive, b_inclusive),
{
    if c == a {
        a_inclusive
    } else if c == b {
        b_inclusive
    } else if a == b {
        false
    } else if a < b {
        c > a && c < b
    } else {
        c > a || c < b
    }
}

/// On points already below the ring size, the reduced test and the
/// reducing one agree.
pub proof fn lemma_arc_contains_matches(
    a: u32,
    b: u32,
    c: u32,
    max_value: u32,
    a_inclusive: bool,
    b_inclusive: bool,
)
    requires
        max_value > 0,
        a < max_value,
        b < max_value,
        c < max_value,
    ensures
        arc_contains(a, b, c, a_inclusive, b_inclusive) == wraparound_range_contains(
            a,
            b,
            c,
            max_value,
            a_inclusive,
            b_inclusive,
        ),
{
    lemma_mod_small_u32(a, max_value);
    lemma_mod_small_u32(b, max_value);
    lemma_mod_small_u32(c, max_value);
}

} // verus!
