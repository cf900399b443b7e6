use ppmp6::height::bar_rows;

fn rows_for(h: f32, rows: usize) -> Option<usize> {
    bar_rows(h.to_bits(), rows)
}

#[test]
fn zero_gives_no_bar() {
    assert_eq!(rows_for(0.0, 35), Some(0));
    assert_eq!(rows_for(0.0, 0), Some(0));
}

#[test]
fn negative_zero_is_zero() {
    assert_eq!(rows_for(-0.0, 35), Some(0));
}

#[test]
fn one_gives_a_full_bar() {
    assert_eq!(rows_for(1.0, 35), Some(35));
    assert_eq!(rows_for(1.0, 1), Some(1));
    assert_eq!(rows_for(1.0, 0), Some(0));
}

#[test]
fn a_half_of_four_rows_is_two() {
    assert_eq!(rows_for(0.5, 4), Some(2));
}

#[test]
fn a_half_of_five_rows_rounds_up_to_three() {
    assert_eq!(rows_for(0.5, 5), Some(3));
}

#[test]
fn ties_round_up() {
    assert_eq!(rows_for(0.5, 1), Some(1));
    assert_eq!(rows_for(0.25, 2), Some(1));
    assert_eq!(rows_for(0.75, 2), Some(2));
    assert_eq!(rows_for(0.125, 4), Some(1));
    assert_eq!(rows_for(0.5, 35), Some(18));
}

#[test]
fn below_a_tie_rounds_down() {
    // The nearest single-precision number under one half.
    let under_half = f32::from_bits(0.5f32.to_bits() - 1);
    assert_eq!(rows_for(under_half, 5), Some(2));
    assert_eq!(rows_for(under_half, 1), Some(0));
    assert_eq!(rows_for(0.25, 5), Some(1));
    assert_eq!(rows_for(0.2, 7), Some(1));
}

#[test]
fn above_a_tie_rounds_up() {
    let over_half = f32::from_bits(0.5f32.to_bits() + 1);
    assert_eq!(rows_for(over_half, 5), Some(3));
    assert_eq!(rows_for(over_half, 1), Some(1));
    assert_eq!(rows_for(0.75, 5), Some(4));
}

#[test]
fn the_product_is_not_rounded_before_the_bar_is() {
    // As a single-precision number, 0.7 lies under seven tenths, so that
    // five times it lies under three and a half.
    assert_eq!(rows_for(0.7, 5), Some(3));
    // 0.1 lies over one tenth, so that 35 times it lies over three and a half.
    assert_eq!(rows_for(0.1, 35), Some(4));
    assert_eq!(rows_for(0.3, 5), Some(2));
}

#[test]
fn tiny_heights_give_no_bar() {
    assert_eq!(bar_rows(1, 35), Some(0));
    assert_eq!(bar_rows(1, usize::MAX), Some(0));
    assert_eq!(rows_for(f32::MIN_POSITIVE, usize::MAX), Some(0));
    assert_eq!(rows_for(1.0e-30, usize::MAX), Some(0));
    assert_eq!(bar_rows(0x007f_ffff, usize::MAX), Some(0));
}

#[test]
fn very_tall_columns() {
    assert_eq!(rows_for(1.0, usize::MAX), Some(usize::MAX));
    assert_eq!(rows_for(0.5, usize::MAX), Some(usize::MAX / 2 + 1));
    assert_eq!(rows_for(0.25, usize::MAX), Some(usize::MAX / 4 + 1));
    assert_eq!(rows_for(0.5, usize::MAX - 1), Some(usize::MAX / 2));
}

#[test]
fn small_heights_in_very_tall_columns() {
    // Two to the power -64 times a column of 2^64 - 1 rows is just under one.
    let h = f32::from_bits((127 - 64) << 23);
    if usize::BITS == 64 {
        assert_eq!(rows_for(h, usize::MAX), Some(1));
    }
    // Two to the power -66 times the same column is just under a quarter.
    let h = f32::from_bits((127 - 66) << 23);
    assert_eq!(rows_for(h, usize::MAX), Some(0));
}

#[test]
fn heights_above_one_are_refused() {
    assert_eq!(rows_for(1.5, 35), None);
    assert_eq!(rows_for(2.0, 35), None);
    assert_eq!(rows_for(f32::MAX, 35), None);
    let over_one = f32::from_bits(1.0f32.to_bits() + 1);
    assert_eq!(rows_for(over_one, 35), None);
}

#[test]
fn heights_below_zero_are_refused() {
    assert_eq!(rows_for(-0.5, 35), None);
    assert_eq!(rows_for(-1.0, 35), None);
    assert_eq!(rows_for(f32::MIN, 35), None);
    assert_eq!(bar_rows(0x8000_0001, 35), None);
}

#[test]
fn what_is_no_number_is_refused() {
    assert_eq!(rows_for(f32::NAN, 35), None);
    assert_eq!(rows_for(-f32::NAN, 35), None);
    assert_eq!(rows_for(f32::INFINITY, 35), None);
    assert_eq!(rows_for(f32::NEG_INFINITY, 35), None);
    assert_eq!(bar_rows(0x7f80_0001, 35), None);
    assert_eq!(bar_rows(0xffff_ffff, 35), None);
}

#[test]
fn bars_agree_with_exact_rounding() {
    // Every height whose product with the number of rows is exact in double
    // precision: k / 1024 for 40 rows.
    for k in 0..=1024u32 {
        let h = k as f32 / 1024.0;
        let exact = (k as f64 / 1024.0) * 40.0;
        let expected = (exact + 0.5).floor() as usize;
        assert_eq!(rows_for(h, 40), Some(expected), "height {}", h);
    }
}

#[test]
fn bars_never_exceed_the_column() {
    let mut bits: u32 = 0;
    while bits <= 0x3f80_0000 {
        for rows in [0usize, 1, 2, 5, 35, 1000] {
            let n = bar_rows(bits, rows);
            assert!(matches!(n, Some(len) if len <= rows));
        }
        bits += 0x0003_1415;
    }
}
