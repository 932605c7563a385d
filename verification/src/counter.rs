//! Arithmetic of position and sequence counters: machine words that only
//! increase and wrap at their natural width.

use vstd::prelude::*;
use vstd::arithmetic::div_mod::{
    lemma_add_mod_noop, lemma_add_mod_noop_right, lemma_mod_equivalence, lemma_mod_mod,
    lemma_small_mod, lemma_sub_mod_noop, lemma_sub_mod_noop_right,
};

verus! {

/// The number of values a counter can take.
pub open spec fn span() -> int {
    usize::MAX + 1
}

/// The value a counter holds at the unbounded position `p`.
pub open spec fn wrap(p: int) -> usize {
    (p % span()) as usize
}

/// The signed value of the low eight bits of `d`, in `-128..=127`.
pub open spec fn narrow(d: int) -> int {
    let r = d % 256;
    if r < 128 {
        r
    } else {
        r - 256
    }
}

/// A counter is 32 or 64 bits wide.
pub proof fn lemma_span()
    ensures
        span() == 0x1_0000_0000 || span() == 0x1_0000_0000_0000_0000,
{
    assert(usize::BITS == 32 || usize::BITS == 64);
}

/// A counter value stands for itself.
pub proof fn lemma_wrap_value(x: usize)
    ensures
        wrap(x as int) == x,
{
    lemma_small_mod(x as nat, span() as nat);
}

/// The machine's wrapping addition is addition of positions.
pub proof fn lemma_wrapping_add(x: usize, y: usize)
    ensures
        vstd::wrapping::usize_specs::wrapping_add(x, y) == wrap(x + y),
{
    if x + y > usize::MAX {
        lemma_small_mod((x + y - span()) as nat, span() as nat);
        vstd::arithmetic::div_mod::lemma_mod_sub_multiples_vanish(x + y, span());
    } else {
        lemma_small_mod((x + y) as nat, span() as nat);
    }
}

/// Wrapping once at the end is the same as wrapping on the way.
pub proof fn lemma_wrap_add(a: int, b: int)
    ensures
        wrap(wrap(a) + b) == wrap(a + b),
{
    lemma_add_mod_noop(a, b, span());
    lemma_add_mod_noop(a % span(), b, span());
    vstd::arithmetic::div_mod::lemma_mod_twice(a, span());
}

/// A counter that wraps loses nothing that a divisor of its span can see.
pub proof fn lemma_wrap_mod(p: int, m: int)
    requires
        0 < m,
        span() % m == 0,
    ensures
        (wrap(p) as int) % m == p % m,
{
    let k = span() / m;
    vstd::arithmetic::div_mod::lemma_fundamental_div_mod(span(), m);
    assert(span() == m * k);
    assert(0 < k) by (nonlinear_arith)
        requires
            span() == m * k,
            0 < m,
            0 < span(),
    ;
    lemma_mod_mod(p, m, k);
}

/// The eight-bit difference of two counters is that of their positions.
pub proof fn lemma_narrow_wrap(a: int, b: int)
    ensures
        narrow(wrap(a) - wrap(b)) == narrow(a - b),
{
    lemma_span();
    lemma_wrap_mod(a, 256);
    lemma_wrap_mod(b, 256);
    lemma_sub_mod_noop(wrap(a) as int, wrap(b) as int, 256);
    lemma_sub_mod_noop(a, b, 256);
}

/// The distance from counter `from` up to counter `to`, counted round the
/// counter's span.
pub open spec fn distance(from: usize, to: usize) -> int {
    (to - from) % span()
}

/// A counter lies its distance past the counter it is measured from.
pub proof fn lemma_distance_reaches(from: usize, to: usize)
    ensures
        0 <= distance(from, to) < span(),
        to == wrap(from + distance(from, to)),
{
    lemma_add_mod_noop_right(from as int, to - from, span());
    lemma_wrap_value(to);
}

/// Advancing the far counter by one lengthens the distance by one.
pub proof fn lemma_distance_grows(from: usize, to: usize)
    requires
        distance(from, to) + 1 < span(),
    ensures
        distance(from, wrap(to + 1)) == distance(from, to) + 1,
{
    // (wrap(to + 1) - from) % span == (to + 1 - from) % span
    lemma_add_mod_noop_right(-(from as int), to + 1, span());
    // (to - from + 1) % span == ((to - from) % span + 1) % span
    lemma_add_mod_noop_right(1, to - from, span());
    lemma_small_mod((distance(from, to) + 1) as nat, span() as nat);
}

/// Advancing the near counter by one shortens the distance by one.
pub proof fn lemma_distance_shrinks(from: usize, to: usize)
    requires
        distance(from, to) >= 1,
    ensures
        distance(wrap(from + 1), to) == distance(from, to) - 1,
{
    lemma_sub_mod_noop_right(to as int, from + 1, span());
    lemma_add_mod_noop_right(-1, to - from, span());
    lemma_small_mod((distance(from, to) - 1) as nat, span() as nat);
}

/// Adding to a wrapped counter and reducing by a divisor of the span is the
/// same as reducing the sum of the positions.
pub proof fn lemma_wrap_add_mod(p: int, k: int, m: int)
    requires
        0 < m,
        span() % m == 0,
    ensures
        (wrap(p) + k) % m == (p + k) % m,
{
    lemma_wrap_mod(p, m);
    lemma_add_mod_noop(wrap(p) as int, k, m);
    lemma_add_mod_noop(p, k, m);
}

/// Fewer than `m` consecutive positions fall on different remainders.
pub proof fn lemma_remainders_differ(d: int, j: int, k: int, m: int)
    requires
        0 <= j < m,
        0 <= k < m,
        j != k,
    ensures
        (d + j) % m != (d + k) % m,
{
    if (d + j) % m == (d + k) % m {
        if j > k {
            lemma_mod_equivalence(d + j, d + k, m);
            lemma_small_mod((j - k) as nat, m as nat);
        } else {
            lemma_mod_equivalence(d + k, d + j, m);
            lemma_small_mod((k - j) as nat, m as nat);
        }
    }
}

} // verus!
