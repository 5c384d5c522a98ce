use ordinals::models::{OrdinalsAssignment, OrdinalsBlock, OrdinalsTransfer};
use ordinals::sats_utils::{
    btc_to_sats, digit_value, first_ordinal, subsidy, HALVING_INTERVAL, INITIAL_SUBSIDY,
};

#[test]
fn subsidy_of_the_first_block() {
    assert_eq!(subsidy(0), 5_000_000_000);
    assert_eq!(INITIAL_SUBSIDY, 5_000_000_000);
}

#[test]
fn subsidy_after_the_first_halving() {
    assert_eq!(HALVING_INTERVAL, 210_000);
    assert_eq!(subsidy(209_999), 5_000_000_000);
    assert_eq!(subsidy(210_000), 2_500_000_000);
    assert_eq!(subsidy(419_999), 2_500_000_000);
    assert_eq!(subsidy(420_000), 1_250_000_000);
}

#[test]
fn subsidy_rounds_down() {
    assert_eq!(subsidy(210_000 * 9), 9_765_625);
    assert_eq!(subsidy(210_000 * 10), 4_882_812);
    assert_eq!(subsidy(210_000 * 32), 1);
    assert_eq!(subsidy(210_000 * 33), 0);
}

#[test]
fn subsidy_is_zero_once_the_shift_exceeds_the_width() {
    assert_eq!(subsidy(210_000 * 63), 0);
    assert_eq!(subsidy(210_000 * 64), 0);
    assert_eq!(subsidy(210_000 * 64 + 1), 0);
    assert_eq!(subsidy(u64::MAX), 0);
}

#[test]
fn first_ordinal_of_the_genesis_block_is_zero() {
    assert_eq!(first_ordinal(0, 0), 0);
    assert_eq!(first_ordinal(0, 123), 0);
    assert_eq!(first_ordinal(1, 5_000_000_000), 5_000_000_000);
}

#[test]
fn new_range_has_the_asked_length() {
    let range = OrdinalsBlock::new(10, 5);
    assert_eq!(range, OrdinalsBlock { start: 10, size: 14 });
    assert_eq!(range.len(), 5);
    assert_eq!(OrdinalsBlock::new(0, 0).len(), 0);
}

#[test]
fn len_counts_both_ends() {
    assert_eq!(OrdinalsBlock { start: 0, size: 0 }.len(), 1);
    assert_eq!(OrdinalsBlock { start: 7, size: 6 }.len(), 0);
    assert_eq!(
        OrdinalsBlock { start: 0, size: 4_999_999_999 }.len(),
        5_000_000_000
    );
}

#[test]
fn consume_splits_off_the_low_end() {
    let mut range = OrdinalsBlock { start: 100, size: 199 };
    let taken = range.consume(30);
    assert_eq!(taken, OrdinalsBlock { start: 100, size: 129 });
    assert_eq!(range, OrdinalsBlock { start: 130, size: 199 });
    assert_eq!(taken.len(), 30);
    assert_eq!(range.len(), 70);
    assert_eq!(taken.size + 1, range.start);
}

#[test]
fn consume_nothing_leaves_the_range() {
    let mut range = OrdinalsBlock { start: 0, size: 9 };
    let taken = range.consume(0);
    assert_eq!(taken.len(), 0);
    assert_eq!(taken.start, 0);
    assert_eq!(range, OrdinalsBlock { start: 0, size: 9 });
}

#[test]
fn consume_everything_empties_the_range() {
    let mut range = OrdinalsBlock { start: 5, size: 9 };
    let taken = range.consume(5);
    assert_eq!(taken, OrdinalsBlock { start: 5, size: 9 });
    assert_eq!(range.len(), 0);
    assert_eq!(range.start, 10);
    assert_eq!(range.size, 9);
}

#[test]
fn consume_in_turn_walks_the_range() {
    let mut range = OrdinalsBlock::new(5_000_000_000, 5_000_000_000);
    let a = range.consume(1_000);
    let b = range.consume(4_999_999_000);
    assert_eq!(a, OrdinalsBlock { start: 5_000_000_000, size: 5_000_000_999 });
    assert_eq!(b, OrdinalsBlock { start: 5_000_001_000, size: 9_999_999_999 });
    assert_eq!(range.len(), 0);
}

#[test]
fn assignment_and_transfer_hold_a_range() {
    let assignment = OrdinalsAssignment {
        utxo: "t:0".to_string(),
        ordinals: OrdinalsBlock { start: 1, size: 2 },
    };
    let transfer = OrdinalsTransfer {
        input_utxo: "a:1".to_string(),
        output_utxo: "b:0".to_string(),
        relative_ordinals: OrdinalsBlock { start: 0, size: 9 },
    };
    assert_eq!(assignment.ordinals.len(), 2);
    assert_eq!(transfer.relative_ordinals.len(), 10);
    assert_eq!(assignment.clone(), assignment);
    assert_eq!(transfer.clone(), transfer);
}

#[test]
fn whole_coins_are_scaled_by_ten_to_the_eighth() {
    assert_eq!(btc_to_sats("0"), Some(0));
    assert_eq!(btc_to_sats("1"), Some(100_000_000));
    assert_eq!(btc_to_sats("50"), Some(5_000_000_000));
    assert_eq!(btc_to_sats("007"), Some(700_000_000));
    assert_eq!(btc_to_sats("21000000"), Some(2_100_000_000_000_000));
}

#[test]
fn fraction_is_padded_to_eight_digits() {
    assert_eq!(btc_to_sats("0.00000001"), Some(1));
    assert_eq!(btc_to_sats("0.1"), Some(10_000_000));
    assert_eq!(btc_to_sats("0.10000000"), Some(10_000_000));
    assert_eq!(btc_to_sats("12.5"), Some(1_250_000_000));
    assert_eq!(btc_to_sats("0.29"), Some(29_000_000));
    assert_eq!(btc_to_sats("1.15"), Some(115_000_000));
    assert_eq!(btc_to_sats("4.35"), Some(435_000_000));
    assert_eq!(btc_to_sats("0.00000546"), Some(546));
    assert_eq!(btc_to_sats("49.99999999"), Some(4_999_999_999));
    assert_eq!(btc_to_sats("3."), Some(300_000_000));
}

#[test]
fn text_that_is_no_amount_is_refused() {
    assert_eq!(btc_to_sats(""), None);
    assert_eq!(btc_to_sats("."), None);
    assert_eq!(btc_to_sats(".5"), None);
    assert_eq!(btc_to_sats("1.2.3"), None);
    assert_eq!(btc_to_sats("-1"), None);
    assert_eq!(btc_to_sats("+1"), None);
    assert_eq!(btc_to_sats("1e3"), None);
    assert_eq!(btc_to_sats("1,5"), None);
    assert_eq!(btc_to_sats(" 1"), None);
    assert_eq!(btc_to_sats("1.5 "), None);
    assert_eq!(btc_to_sats("\u{661}"), None);
    assert_eq!(btc_to_sats("0.123456789"), None);
    assert_eq!(btc_to_sats("0.000000000"), None);
}

#[test]
fn amount_that_does_not_fit_is_refused() {
    assert_eq!(btc_to_sats("184467440737.09551615"), Some(u64::MAX));
    assert_eq!(btc_to_sats("184467440737.09551616"), None);
    assert_eq!(btc_to_sats("184467440737.1"), None);
    assert_eq!(btc_to_sats("184467440738"), None);
    assert_eq!(btc_to_sats("184467440737"), Some(18_446_744_073_700_000_000));
    assert_eq!(btc_to_sats("99999999999999999999999999"), None);
    assert_eq!(btc_to_sats("99999999999999999999999999.x"), None);
}

#[test]
fn digit_value_reads_decimal_digits_only() {
    assert_eq!(digit_value('0'), Some(0));
    assert_eq!(digit_value('7'), Some(7));
    assert_eq!(digit_value('9'), Some(9));
    assert_eq!(digit_value('a'), None);
    assert_eq!(digit_value('/'), None);
    assert_eq!(digit_value(':'), None);
    assert_eq!(digit_value('\u{662}'), None);
}
