//! The Luby restart sequence.

use vstd::prelude::*;

verus! {

/// The first terms of the sequence of exponents: `luby_prefix(k + 1)` is
/// `luby_prefix(k)` twice, then `k + 1`. So 0 0 1 0 0 1 2 ...
pub open spec fn luby_prefix(k: nat) -> Seq<nat>
    decreases k,
{
    if k == 0 {
        seq![0]
    } else {
        let half = luby_prefix((k - 1) as nat);
        half + half + seq![k]
    }
}

/// The term at `x` of the sequence of exponents.
pub open spec fn luby_exponent(x: nat) -> nat {
    luby_prefix(x)[x as int]
}

/// Two to the power of `k`.
pub open spec fn power_of_two(k: nat) -> nat
    decreases k,
{
    if k == 0 {
        1
    } else {
        2 * power_of_two((k - 1) as nat)
    }
}

/// The longer row starts with the shorter one.
proof fn lemma_prefix_extends(j: nat, k: nat, x: int)
    requires
        j <= k,
        0 <= x < luby_prefix(j).len(),
    ensures
        x < luby_prefix(k).len(),
        luby_prefix(k)[x] == luby_prefix(j)[x],
    decreases k,
{
    if j < k {
        lemma_prefix_extends(j, (k - 1) as nat, x);
    }
}

/// A row has more terms than its index.
proof fn lemma_prefix_is_long(k: nat)
    ensures
        luby_prefix(k).len() > k,
    decreases k,
{
    if k > 0 {
        lemma_prefix_is_long((k - 1) as nat);
    }
}

/// Every row that reaches `x` has the same term there.
pub proof fn law_luby_rows_agree(k: nat, x: nat)
    requires
        x < luby_prefix(k).len(),
    ensures
        luby_prefix(k)[x as int] == luby_exponent(x),
{
    lemma_prefix_is_long(x);
    if k <= x {
        lemma_prefix_extends(k, x, x as int);
    } else {
        lemma_prefix_extends(x, k, x as int);
    }
}

/// The exponent of the restart sequence at `x`.
pub fn luby(x: usize) -> (r: u32)
    requires
        x < usize::MAX,
    ensures
        r == luby_exponent(x as nat),
        r < 64,
{
    let ghost target = luby_exponent(x as nat);
    let mut x: usize = x;
    let mut size: usize = 1;
    let mut seq: u32 = 0;
    assert(power_of_two(1) == 2) by {
        reveal_with_fuel(power_of_two, 2);
    }
    while size < x + 1
        invariant
            x < usize::MAX,
            size == luby_prefix(seq as nat).len(),
            size + 1 == power_of_two((seq + 1) as nat),
            seq < 64,
        decreases 64 - seq,
    {
        proof {
            lemma_below_word((seq + 1) as nat);
        }
        seq = seq + 1;
        size = 2 * size + 1;
    }
    proof {
        law_luby_rows_agree(seq as nat, x as nat);
    }
    while size - 1 != x
        invariant
            x < size,
            size == luby_prefix(seq as nat).len(),
            luby_prefix(seq as nat)[x as int] == target,
            seq < 64,
        decreases size,
    {
        assert(seq > 0);
        size = (size - 1) / 2;
        seq = seq - 1;
        if x >= size {
            x = x - size;
        }
    }
    seq
}

/// A power of two that a word can hold can be doubled, less one.
proof fn lemma_below_word(k: nat)
    requires
        power_of_two(k) <= usize::MAX,
    ensures
        k < 64,
        2 * power_of_two(k) - 1 <= usize::MAX,
{
    lemma_words();
    if usize::MAX == 0xffff_ffff {
        if k >= 32 {
            lemma_power_monotone(32, k);
        }
        lemma_power_monotone(k + 1, 32);
    } else {
        assert(usize::MAX == 0xffff_ffff_ffff_ffff);
        if k >= 64 {
            lemma_power_monotone(64, k);
        }
        lemma_power_monotone(k + 1, 64);
    }
    assert(power_of_two(k + 1) == 2 * power_of_two(k));
}

/// The powers of two just past the two word sizes.
proof fn lemma_words()
    ensures
        power_of_two(32) == 0x1_0000_0000,
        power_of_two(64) == 0x1_0000_0000_0000_0000,
{
    reveal_with_fuel(power_of_two, 65);
}

/// Higher powers of two are larger.
pub proof fn lemma_power_monotone(j: nat, k: nat)
    requires
        j <= k,
    ensures
        0 < power_of_two(j) <= power_of_two(k),
    decreases k,
{
    if j < k {
        lemma_power_monotone(j, (k - 1) as nat);
    } else if j > 0 {
        lemma_power_monotone((j - 1) as nat, (k - 1) as nat);
    }
}

/// The number of blocked obligations after which the attempt numbered
/// `restart` gives up: a hundred times two to the power of the restart
/// sequence.
pub fn restart_limit(restart: usize) -> (r: u128)
    requires
        restart < usize::MAX,
    ensures
        r == 100 * power_of_two(luby_exponent(restart as nat)),
{
    let exponent: u32 = luby(restart);
    let mut limit: u128 = 100;
    let mut i: u32 = 0;
    proof {
        lemma_words();
    }
    while i < exponent
        invariant
            i <= exponent < 64,
            limit == 100 * power_of_two(i as nat),
            power_of_two(64) == 0x1_0000_0000_0000_0000,
        decreases exponent - i,
    {
        proof {
            lemma_power_monotone((i + 1) as nat, 64);
        }
        limit = limit * 2;
        i = i + 1;
    }
    limit
}

/// Two to the power of a sum is the product of the powers.
pub proof fn law_powers_multiply(j: nat, k: nat)
    ensures
        power_of_two(0) == 1,
        power_of_two(1) == 2,
        power_of_two(j + k) == power_of_two(j) * power_of_two(k),
    decreases k,
{
    reveal_with_fuel(power_of_two, 2);
    if k > 0 {
        law_powers_multiply(j, (k - 1) as nat);
        let a = power_of_two(j);
        let b = power_of_two((k - 1) as nat);
        assert(j + k - 1 == j + (k - 1) as nat);
        assert(a * (2 * b) == 2 * (a * b)) by (nonlinear_arith);
    } else {
        assert(power_of_two(j) * 1 == power_of_two(j));
    }
}

proof fn lemma_row_length(k: nat)
    ensures
        luby_prefix(k).len() + 1 == power_of_two(k + 1),
    decreases k,
{
    if k > 0 {
        lemma_row_length((k - 1) as nat);
        assert(power_of_two(k + 1) == 2 * power_of_two(k));
    } else {
        reveal_with_fuel(power_of_two, 2);
    }
}

/// The sequence repeats itself: up to the place before two to the power of
/// `k + 1` less one it is what came before, once more, and there it reaches
/// `k` for the first time.
pub proof fn law_restart_sequence_repeats_itself(k: nat, x: nat)
    ensures
        power_of_two(k + 1) >= 2,
        luby_exponent((power_of_two(k + 1) - 2) as nat) == k,
        power_of_two(k) - 1 <= x < power_of_two(k + 1) - 2 ==> luby_exponent(x)
            == luby_exponent((x - (power_of_two(k) - 1)) as nat),
        x < power_of_two(k + 1) - 2 ==> luby_exponent(x) < k,
    decreases k,
{
    lemma_row_length(k);
    lemma_power_monotone(0, k);
    assert(power_of_two(k + 1) == 2 * power_of_two(k));
    assert(luby_prefix(k).last() == k);
    law_luby_rows_agree(k, (power_of_two(k + 1) - 2) as nat);
    if x < power_of_two(k + 1) - 2 {
        law_luby_rows_agree(k, x);
        lemma_row_length((k - 1) as nat);
        let half = luby_prefix((k - 1) as nat);
        let y = if x < half.len() {
            x
        } else {
            (x - half.len()) as nat
        };
        assert(luby_prefix(k)[x as int] == half[y as int]);
        law_luby_rows_agree((k - 1) as nat, y);
        law_restart_sequence_repeats_itself((k - 1) as nat, y);
    }
}

} // verus!
