//! The halving schedule and exact satoshi arithmetic.

use vstd::arithmetic::power2::pow2;
use vstd::bits::lemma_u64_shr_is_div;
use vstd::prelude::*;
use vstd::string::StrSliceExecFns;

verus! {

/// Number of blocks between two halvings.
pub const HALVING_INTERVAL: u64 = 210_000;

/// Reward of the first block, in satoshis: fifty coins of 10^8 satoshis.
pub const INITIAL_SUBSIDY: u64 = 5_000_000_000;

/// Index of the halving epoch that a height falls in.
pub open spec fn halving_epoch(height: u64) -> nat {
    (height as nat) / (HALVING_INTERVAL as nat)
}

/// The reward of the block at `height`: the initial reward halved, rounding
/// down, once for every completed epoch; zero once the halvings have
/// used up the width of the value.
pub open spec fn subsidy_spec(height: u64) -> nat {
    if halving_epoch(height) >= 64 {
        0
    } else {
        (INITIAL_SUBSIDY as nat) / pow2(halving_epoch(height))
    }
}

/// Newly minted satoshis of the block at `height`.
pub fn subsidy(height: u64) -> (reward: u64)
    ensures
        reward as nat == subsidy_spec(height),
        reward <= INITIAL_SUBSIDY,
{
    let epoch: u64 = height / HALVING_INTERVAL;
    if epoch >= 64 {
        0
    } else {
        proof {
            lemma_u64_shr_is_div(INITIAL_SUBSIDY, epoch);
            vstd::arithmetic::power2::lemma_pow2_pos(epoch as nat);
            vstd::arithmetic::div_mod::lemma_div_is_ordered_by_denominator(
                INITIAL_SUBSIDY as int,
                1,
                pow2(epoch as nat) as int,
            );
        }
        INITIAL_SUBSIDY >> epoch
    }
}

/// The first ordinal that a block mints: zero for the genesis block, which
/// has no predecessor, else the supply through the block before it.
pub open spec fn first_ordinal_spec(height: u64, supply_through_previous: u64) -> nat {
    if height == 0 {
        0
    } else {
        supply_through_previous as nat
    }
}

/// The first ordinal that the block at `height` mints, given the supply
/// accumulated through the block before it, which is not read for the
/// genesis block.
pub fn first_ordinal(height: u64, supply_through_previous: u64) -> (first: u64)
    ensures
        first as nat == first_ordinal_spec(height, supply_through_previous),
{
    if height == 0 {
        0
    } else {
        supply_through_previous
    }
}

/// Satoshis in one coin.
pub const SATS_PER_BTC: u64 = 100_000_000;

/// Largest number of whole coins whose satoshis may still fit 64 bits.
pub const MAX_WHOLE_BTC: u64 = 184_467_440_737;

/// Value of a decimal digit, if the character is one.
pub open spec fn digit_of(c: char) -> Option<nat> {
    if '0' <= c && c <= '9' {
        Some((c as u32 - '0' as u32) as nat)
    } else {
        None
    }
}

/// Every character is a decimal digit.
pub open spec fn all_digits(text: Seq<char>) -> bool {
    forall|i: int| 0 <= i < text.len() ==> (#[trigger] digit_of(text[i])) is Some
}

/// The number that a string of decimal digits stands for.
pub open spec fn digits_value(text: Seq<char>) -> nat
    decreases text.len(),
{
    if text.len() == 0 {
        0
    } else {
        10 * digits_value(text.drop_last()) + match digit_of(text.last()) {
            Some(d) => d,
            None => 0,
        }
    }
}

/// `10^k`.
pub open spec fn pow10(k: nat) -> nat
    decreases k,
{
    if k == 0 {
        1
    } else {
        10 * pow10((k - 1) as nat)
    }
}

/// Number of characters before the first decimal point, or in all where
/// there is none.
pub open spec fn whole_len(text: Seq<char>) -> nat
    decreases text.len(),
{
    if text.len() == 0 || text[0] == '.' {
        0
    } else {
        1 + whole_len(text.drop_first())
    }
}

/// The digits after the first decimal point; none where there is no
/// point.
pub open spec fn fraction_of(text: Seq<char>) -> Seq<char> {
    if whole_len(text) < text.len() {
        text.skip(whole_len(text) as int + 1)
    } else {
        Seq::empty()
    }
}

/// The exact number of satoshis that an amount of coins written in decimal
/// stands for: at least one digit of whole coins, then optionally a point
/// and up to eight digits of fraction. `None` for any other text.
pub open spec fn sats_of_text(text: Seq<char>) -> Option<nat> {
    let whole = text.take(whole_len(text) as int);
    let fraction = fraction_of(text);
    if whole.len() > 0 && all_digits(whole) && all_digits(fraction) && fraction.len() <= 8 {
        Some(
            digits_value(whole) * (SATS_PER_BTC as nat) + digits_value(fraction) * pow10(
                (8 - fraction.len()) as nat,
            ),
        )
    } else {
        None
    }
}

/// The characters before `i` hold no decimal point, and `i` is the end or
/// holds one: then `i` characters stand before the first point.
pub proof fn lemma_whole_len_at(text: Seq<char>, i: int)
    requires
        0 <= i <= text.len(),
        forall|j: int| 0 <= j < i ==> text[j] != '.',
        i < text.len() ==> text[i] == '.',
    ensures
        whole_len(text) == i,
    decreases text.len(),
{
    if i > 0 {
        lemma_whole_len_at(text.drop_first(), i - 1);
    }
}

/// The characters before `i` hold no decimal point: then at least `i`
/// characters stand before the first point.
pub proof fn lemma_whole_len_at_least(text: Seq<char>, i: int)
    requires
        0 <= i <= text.len(),
        forall|j: int| 0 <= j < i ==> text[j] != '.',
    ensures
        i <= whole_len(text) <= text.len(),
    decreases text.len(),
{
    if text.len() > 0 && text[0] != '.' {
        if i > 0 {
            lemma_whole_len_at_least(text.drop_first(), i - 1);
        } else {
            lemma_whole_len_at_least(text.drop_first(), 0);
        }
    }
}

/// A string of digits stands for no less than any of its beginnings.
pub proof fn lemma_digits_value_grows(text: Seq<char>, i: int)
    requires
        0 <= i <= text.len(),
    ensures
        digits_value(text.take(i)) <= digits_value(text),
    decreases text.len(),
{
    if i == text.len() {
        assert(text.take(i) =~= text);
    } else {
        lemma_digits_value_grows(text.drop_last(), i);
        assert(text.drop_last().take(i) =~= text.take(i));
    }
}

/// A string of `k` digits stands for less than `10^k`.
pub proof fn lemma_digits_value_bound(text: Seq<char>)
    ensures
        digits_value(text) < pow10(text.len()),
    decreases text.len(),
{
    if text.len() > 0 {
        lemma_digits_value_bound(text.drop_last());
    }
}

/// Value of a decimal digit; `None` for any other character.
pub fn digit_value(c: char) -> (d: Option<u64>)
    ensures
        match digit_of(c) {
            Some(value) => d == Some(value as u64) && value <= 9,
            None => d is None,
        },
{
    if '0' <= c && c <= '9' {
        Some((c as u32 - '0' as u32) as u64)
    } else {
        None
    }
}

/// Converts an amount of coins written in decimal, with up to eight digits
/// after the point, to satoshis, exactly. `None` where the text is no such
/// amount or the satoshis do not fit 64 bits.
pub fn btc_to_sats(text: &str) -> (sats: Option<u64>)
    ensures
        sats == match sats_of_text(text@) {
            Some(value) => if value <= u64::MAX {
                Some(value as u64)
            } else {
                None
            },
            None => None,
        },
{
    let n: usize = text.unicode_len();
    let mut whole: u64 = 0;
    let mut i: usize = 0;
    let mut at_point = false;
    while i < n && !at_point
        invariant
            i <= n,
            n == text@.len(),
            whole <= MAX_WHOLE_BTC,
            at_point ==> i < n && text@[i as int] == '.',
            forall|j: int| 0 <= j < i ==> text@[j] != '.',
            all_digits(text@.take(i as int)),
            whole as nat == digits_value(text@.take(i as int)),
        decreases n - i + if at_point { 0int } else { 1int },
    {
        let c = text.get_char(i);
        if c == '.' {
            at_point = true;
        } else {
            let ghost next = text@.take(i as int + 1);
            proof {
                assert(next.drop_last() =~= text@.take(i as int));
                assert(next.last() == c);
                lemma_whole_len_at_least(text@, i as int + 1);
            }
            match digit_value(c) {
                None => {
                    proof {
                        let w = whole_len(text@) as int;
                        assert(text@.take(w)[i as int] == c);
                    }
                    return None;
                },
                Some(d) => {
                    whole = whole * 10 + d;
                    proof {
                        assert forall|j: int| 0 <= j < next.len() implies (#[trigger] digit_of(
                            next[j],
                        )) is Some by {
                            if j < i {
                                assert(text@.take(i as int)[j] == next[j]);
                            }
                        }
                    }
                    if whole > MAX_WHOLE_BTC {
                        proof {
                            let w = whole_len(text@) as int;
                            let all = text@.take(w);
                            lemma_digits_value_grows(all, i as int + 1);
                            assert(all.take(i as int + 1) =~= next);
                            assert(digits_value(all) * (SATS_PER_BTC as nat) > u64::MAX)
                                by (nonlinear_arith)
                                requires
                                    digits_value(all) > 184_467_440_737,
                                    SATS_PER_BTC == 100_000_000,
                            ;
                        }
                        return None;
                    }
                    i = i + 1;
                },
            }
        }
    }
    proof {
        lemma_whole_len_at(text@, i as int);
    }
    if i == 0 {
        return None;
    }
    let ghost fraction = fraction_of(text@);
    let mut part: u64 = 0;
    let mut k: usize = 0;
    if i < n {
        let start: usize = i + 1;
        proof {
            reveal_with_fuel(pow10, 10);
            assert(fraction.take(0) =~= Seq::empty());
        }
        while start + k < n
            invariant
                start == i + 1,
                start + k <= n,
                n == text@.len(),
                whole_len(text@) == i,
                fraction == text@.skip(start as int),
                k <= 8,
                all_digits(fraction.take(k as int)),
                part as nat == digits_value(fraction.take(k as int)),
                part < pow10(k as nat),
                pow10(k as nat) <= pow10(8),
            decreases n - (start + k),
        {
            let c = text.get_char(start + k);
            let ghost next = fraction.take(k as int + 1);
            proof {
                reveal_with_fuel(pow10, 10);
                assert(fraction[k as int] == c);
                assert(next.drop_last() =~= fraction.take(k as int));
                assert(next.last() == c);
            }
            match digit_value(c) {
                None => {
                    return None;
                },
                Some(d) => {
                    if k == 8 {
                        return None;
                    }
                    part = part * 10 + d;
                    proof {
                        assert forall|j: int| 0 <= j < next.len() implies (#[trigger] digit_of(
                            next[j],
                        )) is Some by {
                            if j < k {
                                assert(fraction.take(k as int)[j] == next[j]);
                            }
                        }
                        lemma_digits_value_bound(next);
                    }
                    k = k + 1;
                },
            }
        }
        proof {
            assert(fraction.take(k as int) =~= fraction);
        }
    } else {
        proof {
            assert(fraction.take(0) =~= fraction);
        }
    }
    let mut scaled: u64 = part;
    let mut j: usize = k;
    proof {
        reveal_with_fuel(pow10, 10);
        assert(pow10(0) == 1);
        assert(part as nat * 1 == part as nat);
    }
    while j < 8
        invariant
            k <= j <= 8,
            part < pow10(k as nat),
            scaled as nat == part * pow10((j - k) as nat),
            scaled < pow10(j as nat),
        decreases 8 - j,
    {
        proof {
            reveal_with_fuel(pow10, 10);
            assert(part * pow10((j + 1 - k) as nat) == 10 * (part * pow10((j - k) as nat)))
                by (nonlinear_arith)
                requires
                    pow10((j + 1 - k) as nat) == 10 * pow10((j - k) as nat),
            ;
        }
        scaled = scaled * 10;
        j = j + 1;
    }
    proof {
        reveal_with_fuel(pow10, 10);
        assert(text@.take(i as int).len() == i);
    }
    let base: u64 = whole * SATS_PER_BTC;
    if scaled > u64::MAX - base {
        None
    } else {
        Some(base + scaled)
    }
}

} // verus!
