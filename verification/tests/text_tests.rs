use recibos::text::{decimal_string, display_name, money_string, pad_left, pad_right, row_text, signed_decimal_string};

#[test]
fn decimal_renders_without_leading_zeros() {
    assert_eq!(decimal_string(0), "0");
    assert_eq!(decimal_string(7), "7");
    assert_eq!(decimal_string(1024), "1024");
    assert_eq!(decimal_string(u64::MAX), "18446744073709551615");
}

#[test]
fn signed_decimal_renders_negatives() {
    assert_eq!(signed_decimal_string(-45), "-45");
    assert_eq!(signed_decimal_string(45), "45");
    assert_eq!(signed_decimal_string(i64::MIN), "-9223372036854775808");
}

#[test]
fn money_always_shows_two_cent_digits() {
    assert_eq!(money_string(350), "$3.50");
    assert_eq!(money_string(5), "$0.05");
    assert_eq!(money_string(1200), "$12.00");
    assert_eq!(money_string(99), "$0.99");
}

#[test]
fn padding_fills_with_spaces_and_never_truncates() {
    assert_eq!(pad_left("7", 4), "   7");
    assert_eq!(pad_right("7", 4), "7   ");
    assert_eq!(pad_left("12345", 4), "12345");
    assert_eq!(pad_right("12345", 4), "12345");
}

#[test]
fn short_name_is_rendered_unchanged() {
    let name = "aaaaabbbbbcccccddddd";
    assert_eq!(name.chars().count(), 20);
    assert_eq!(display_name(name), name);
}

#[test]
fn long_name_is_truncated_to_twenty_eight_visible_characters() {
    let name = "aaaaabbbbbcccccdddddeeeeefffff";
    assert_eq!(name.chars().count(), 30);
    let shown = display_name(name);
    assert_eq!(shown, "aaaaabbbbbcccccdddddeeeee...");
    assert_eq!(shown.chars().count(), 28);
}

#[test]
fn twenty_eight_character_name_is_kept_verbatim() {
    let name = "aaaaabbbbbcccccdddddeeeeefff";
    assert_eq!(name.chars().count(), 28);
    assert_eq!(display_name(name), name);
}

#[test]
fn row_lays_out_fixed_width_columns() {
    let row = row_text(1, "Cafe", 2, 350, 700);
    let expected = format!("{:<4} {:<32} {:>4} {:>7} {:>9}", 1, "Cafe", 2, "$3.50", "$7.00");
    assert_eq!(row, expected);
}

#[test]
fn row_keeps_over_wide_columns_intact() {
    let row = row_text(-12345, "Te", 2, 350, 700);
    assert!(row.starts_with("-12345 Te"));
}
