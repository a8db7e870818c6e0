//! Facts about 64-bit bitboards, one bit per square.
use vstd::prelude::*;

verus! {

/// The single-square mask of square `i`.
pub open spec fn sq(i: u64) -> u64 {
    1u64 << i
}

/// Whether bitboard `b` has square `i` set.
pub open spec fn is_set(b: u64, i: u64) -> bool {
    b & (1u64 << i) != 0
}

/// How `|`, `&`, `^` and `!` act on single squares, and that a bitboard is fixed by its squares.
pub proof fn lemma_bit_ops(a: u64, b: u64, i: u64)
    by (bit_vector)
    requires
        i < 64,
    ensures
        is_set(a | b, i) == (is_set(a, i) || is_set(b, i)),
        is_set(a & b, i) == (is_set(a, i) && is_set(b, i)),
        is_set(a ^ b, i) == (is_set(a, i) != is_set(b, i)),
        is_set(!a, i) == !is_set(a, i),
        is_set(a & !b, i) == (is_set(a, i) && !is_set(b, i)),
{
}

/// A single-square mask holds exactly that square.
pub proof fn lemma_sq(i: u64, j: u64)
    by (bit_vector)
    requires
        i < 64,
        j < 64,
    ensures
        is_set(1u64 << j, i) == (i == j),
        (1u64 << j) != 0,
{
}

/// Two bitboards that agree on every square are equal.
pub proof fn lemma_bits_ext(a: u64, b: u64)
    requires
        forall|i: u64| i < 64 ==> #[trigger] is_set(a, i) == is_set(b, i),
    ensures
        a == b,
{
    assert(a ^ b == 0) by {
        assert forall|i: u64| i < 64 implies !is_set(a ^ b, i) by {
            lemma_bit_ops(a, b, i);
        }
        lemma_zero_iff_no_bits(a ^ b);
    }
    lemma_xor_zero(a, b);
}

proof fn lemma_xor_zero(a: u64, b: u64)
    by (bit_vector)
    requires
        a ^ b == 0,
    ensures
        a == b,
{
}

/// A bitboard is zero exactly when it holds no square.
pub proof fn lemma_zero_iff_no_bits(a: u64)
    ensures
        a == 0 <==> forall|i: u64| i < 64 ==> !#[trigger] is_set(a, i),
{
    if a != 0 {
        let t = lemma_nonzero_has_bit(a);
        assert(is_set(a, t));
    } else {
        assert forall|i: u64| i < 64 implies !#[trigger] is_set(a, i) by {
            lemma_zero_has_none(i);
        }
    }
}

proof fn lemma_zero_has_none(i: u64)
    by (bit_vector)
    requires
        i < 64,
    ensures
        0u64 & (1u64 << i) == 0,
{
}

proof fn lemma_nonzero_has_bit(a: u64) -> (t: u64)
    requires
        a != 0,
    ensures
        t < 64,
        is_set(a, t),
{
    let t = vstd::std_specs::bits::u64_trailing_zeros(a);
    vstd::std_specs::bits::axiom_u64_trailing_zeros(a);
    lemma_trailing(a, t as u64);
    t as u64
}

proof fn lemma_trailing(a: u64, t: u64)
    by (bit_vector)
    requires
        t < 64,
        (a >> t) & 1u64 == 1u64,
    ensures
        a & (1u64 << t) != 0,
{
}

/// `&` does not depend on the order of its operands.
pub proof fn lemma_and_comm(a: u64, b: u64)
    by (bit_vector)
    ensures
        a & b == b & a,
{
}

/// How many of the first `n` squares of `b` are set.
pub open spec fn bit_count(b: u64, n: nat) -> nat
    decreases n,
{
    if n == 0 {
        0
    } else {
        bit_count(b, (n - 1) as nat) + if is_set(b, (n - 1) as u64) { 1nat } else { 0nat }
    }
}

/// At most `n` of the first `n` squares are set.
pub proof fn lemma_bit_count_bound(b: u64, n: nat)
    ensures
        bit_count(b, n) <= n,
    decreases n,
{
    if n > 0 {
        lemma_bit_count_bound(b, (n - 1) as nat);
    }
}

/// Shifting up by `s` moves each square `s` squares up and clears the lowest `s`; a bitboard
/// whose top `s` squares are clear loses none of its squares.
proof fn lemma_shift_square(x: u64, s: u64, i: u64)
    by (bit_vector)
    requires
        0 < s < 64,
        i < 64,
    ensures
        i < s ==> !is_set(x << s, i),
        i >= s ==> is_set(x << s, i) == is_set(x, (i - s) as u64),
        x >> ((64 - s) as u64) == 0 && i >= 64 - s ==> !is_set(x, i),
{
}

/// A bitboard with none of its first `n` squares set counts 0 there.
proof fn lemma_count_none_set(b: u64, n: nat)
    requires
        forall|i: u64| i < n ==> !#[trigger] is_set(b, i),
    ensures
        bit_count(b, n) == 0,
    decreases n,
{
    if n > 0 {
        lemma_count_none_set(b, (n - 1) as nat);
    }
}

/// The first `n + s` squares of `x` shifted up by `s` count as the first `n` of `x`.
proof fn lemma_count_shifted(x: u64, s: u64, n: nat)
    requires
        0 < s < 64,
        n + s <= 64,
    ensures
        bit_count(x << s, (n + s) as nat) == bit_count(x, n),
    decreases n,
{
    if n == 0 {
        assert forall|i: u64| i < s implies !#[trigger] is_set(x << s, i) by {
            lemma_shift_square(x, s, i);
        }
        lemma_count_none_set(x << s, s as nat);
    } else {
        lemma_count_shifted(x, s, (n - 1) as nat);
        lemma_shift_square(x, s, (n - 1 + s) as u64);
        assert((n + s - 1) as nat == (n - 1 + s) as nat);
    }
}

/// A bitboard with its squares from `n` on clear counts on all 64 as on the first `n`.
proof fn lemma_count_high_clear(x: u64, n: nat)
    requires
        n <= 64,
        forall|i: u64| n <= i < 64 ==> !#[trigger] is_set(x, i),
    ensures
        bit_count(x, 64) == bit_count(x, n),
    decreases 64 - n,
{
    if n < 64 {
        lemma_count_high_clear(x, n + 1);
    }
}

/// Shifting a bitboard up by `s` squares, where its top `s` squares are clear, keeps its count.
pub proof fn lemma_count_shift(x: u64, s: u64)
    requires
        0 < s < 64,
        x >> ((64 - s) as u64) == 0,
    ensures
        bit_count(x << s, 64) == bit_count(x, 64),
{
    lemma_count_shifted(x, s, (64 - s) as nat);
    assert forall|i: u64| 64 - s <= i < 64 implies !#[trigger] is_set(x, i) by {
        lemma_shift_square(x, s, i);
    }
    lemma_count_high_clear(x, (64 - s) as nat);
}

/// Setting square `i` of `x` adds one to the count of the first `n` squares when `i` is
/// among them and was clear.
proof fn lemma_count_add_upto(x: u64, i: u64, n: nat)
    requires
        i < 64,
        n <= 64,
        !is_set(x, i),
    ensures
        bit_count(x | (1u64 << i), n) == bit_count(x, n) + (if i < n { 1int } else { 0int }),
    decreases n,
{
    if n > 0 {
        lemma_count_add_upto(x, i, (n - 1) as nat);
        let j = (n - 1) as u64;
        lemma_bit_ops(x, 1u64 << i, j);
        lemma_sq(j, i);
    }
}

/// Setting a clear square adds one to a bitboard's count.
pub proof fn lemma_count_add_square(x: u64, i: u64)
    requires
        i < 64,
        !is_set(x, i),
    ensures
        bit_count(x | (1u64 << i), 64) == bit_count(x, 64) + 1,
{
    lemma_count_add_upto(x, i, 64);
}

/// The number of set squares of `b`.
pub fn count_ones(b: u64) -> (r: u32)
    ensures
        r == bit_count(b, 64),
{
    let mut count: u32 = 0;
    let mut i: u64 = 0;
    while i < 64
        invariant
            i <= 64,
            count == bit_count(b, i as nat),
            count <= i,
        decreases 64 - i,
    {
        if b & (1u64 << i) != 0 {
            count += 1;
        }
        i += 1;
    }
    count
}

} // verus!
