//! Verified text formatting: decimal rendering, space padding,
//! currency formatting, and the fixed-width receipt row layout.

use vstd::prelude::*;

verus! {

/// The character for one decimal digit.
pub open spec fn spec_digit_char(d: int) -> char {
    if d == 0 {
        '0'
    } else if d == 1 {
        '1'
    } else if d == 2 {
        '2'
    } else if d == 3 {
        '3'
    } else if d == 4 {
        '4'
    } else if d == 5 {
        '5'
    } else if d == 6 {
        '6'
    } else if d == 7 {
        '7'
    } else if d == 8 {
        '8'
    } else {
        '9'
    }
}

/// Decimal representation of a non-negative number, most significant
/// digit first, with no leading zeros (a single `'0'` for zero).
pub open spec fn spec_decimal(n: int) -> Seq<char>
    decreases n,
{
    if n < 10 {
        seq![spec_digit_char(n)]
    } else {
        spec_decimal(n / 10).push(spec_digit_char(n % 10))
    }
}

/// Decimal representation of a signed number: a leading `'-'` before
/// the digits of the magnitude when the number is negative.
pub open spec fn spec_signed_decimal(n: int) -> Seq<char> {
    if n >= 0 {
        spec_decimal(n)
    } else {
        seq!['-'] + spec_decimal(-n)
    }
}

/// A run of `k` spaces (empty when `k <= 0`).
pub open spec fn spec_spaces(k: int) -> Seq<char>
    decreases k,
{
    if k <= 0 {
        Seq::empty()
    } else {
        spec_spaces(k - 1).push(' ')
    }
}

/// Left-pad with spaces to width `w`; text already at or over the
/// width is returned unchanged.
pub open spec fn spec_pad_left(s: Seq<char>, w: int) -> Seq<char> {
    if s.len() >= w {
        s
    } else {
        spec_spaces(w - s.len()) + s
    }
}

/// Right-pad with spaces to width `w`; text already at or over the
/// width is returned unchanged.
pub open spec fn spec_pad_right(s: Seq<char>, w: int) -> Seq<char> {
    if s.len() >= w {
        s
    } else {
        s + spec_spaces(w - s.len())
    }
}

/// Currency format: `'$'`, the whole part in decimal, `'.'`, and
/// exactly two digits of cents.
pub open spec fn spec_money(cents: int) -> Seq<char> {
    seq!['$'] + spec_decimal(cents / 100) + seq!['.', spec_digit_char((cents % 100) / 10), spec_digit_char(
        cents % 10,
    )]
}

/// An item name shown on a receipt row: verbatim up to 28 characters,
/// otherwise the first 25 characters followed by a 3-character
/// ellipsis, for a constant 28-character visual budget.
pub open spec fn spec_display_name(name: Seq<char>) -> Seq<char> {
    if name.len() > 28 {
        name.subrange(0, 25) + seq!['.', '.', '.']
    } else {
        name
    }
}

/// One receipt row: id (left, width 4), display name (left, width 32),
/// quantity (right, width 4), unit price (right, width 7), subtotal
/// (right, width 9), separated by single spaces.
pub open spec fn spec_row(
    id: int,
    name: Seq<char>,
    quantity: int,
    unit_price_cents: int,
    subtotal_cents: int,
) -> Seq<char> {
    spec_pad_right(spec_signed_decimal(id), 4) + seq![' '] + spec_pad_right(
        spec_display_name(name),
        32,
    ) + seq![' '] + spec_pad_left(spec_signed_decimal(quantity), 4) + seq![' '] + spec_pad_left(
        spec_money(unit_price_cents),
        7,
    ) + seq![' '] + spec_pad_left(spec_money(subtotal_cents), 9)
}

/// The one-character string for a single decimal digit.
pub fn digit_str(d: u64) -> (r: &'static str)
    requires
        d < 10,
    ensures
        r@ == seq![spec_digit_char(d as int)],
{
    proof {
        reveal_strlit("0");
        reveal_strlit("1");
        reveal_strlit("2");
        reveal_strlit("3");
        reveal_strlit("4");
        reveal_strlit("5");
        reveal_strlit("6");
        reveal_strlit("7");
        reveal_strlit("8");
        reveal_strlit("9");
    }
    let r = if d == 0 {
        "0"
    } else if d == 1 {
        "1"
    } else if d == 2 {
        "2"
    } else if d == 3 {
        "3"
    } else if d == 4 {
        "4"
    } else if d == 5 {
        "5"
    } else if d == 6 {
        "6"
    } else if d == 7 {
        "7"
    } else if d == 8 {
        "8"
    } else {
        "9"
    };
    proof {
        assert(r@ =~= seq![spec_digit_char(d as int)]);
    }
    r
}

/// Renders a non-negative number in decimal.
pub fn decimal_string(n: u64) -> (r: String)
    ensures
        r@ == spec_decimal(n as int),
    decreases n,
{
    if n < 10 {
        String::from_str(digit_str(n))
    } else {
        let mut s = decimal_string(n / 10);
        s.append(digit_str(n % 10));
        proof {
            assert(s@ =~= spec_decimal(n as int));
        }
        s
    }
}

/// Renders a signed number in decimal.
pub fn signed_decimal_string(n: i64) -> (r: String)
    ensures
        r@ == spec_signed_decimal(n as int),
{
    if n >= 0 {
        decimal_string(n as u64)
    } else {
        let magnitude: u64 = if n == i64::MIN {
            9223372036854775808u64
        } else {
            (-n) as u64
        };
        let mut s = String::from_str("-");
        let digits = decimal_string(magnitude);
        s.append(digits.as_str());
        proof {
            reveal_strlit("-");
            assert(s@ =~= spec_signed_decimal(n as int));
        }
        s
    }
}

/// A string of `k` spaces.
pub fn spaces(k: usize) -> (r: String)
    ensures
        r@ == spec_spaces(k as int),
{
    let mut s = String::new();
    let mut i: usize = 0;
    while i < k
        invariant
            i <= k,
            s@ == spec_spaces(i as int),
        decreases k - i,
    {
        s.append(" ");
        proof {
            reveal_strlit(" ");
            assert(s@ =~= spec_spaces(i as int + 1));
        }
        i = i + 1;
    }
    s
}

/// Left-pads `s` with spaces to `w` characters.
pub fn pad_left(s: &str, w: usize) -> (r: String)
    ensures
        r@ == spec_pad_left(s@, w as int),
{
    let n = s.unicode_len();
    if n >= w {
        String::from_str(s)
    } else {
        let mut r = spaces(w - n);
        r.append(s);
        r
    }
}

/// Right-pads `s` with spaces to `w` characters.
pub fn pad_right(s: &str, w: usize) -> (r: String)
    ensures
        r@ == spec_pad_right(s@, w as int),
{
    let n = s.unicode_len();
    if n >= w {
        String::from_str(s)
    } else {
        let mut r = String::from_str(s);
        let tail = spaces(w - n);
        r.append(tail.as_str());
        r
    }
}

/// Formats a cent amount as currency, e.g. `$12.05`.
pub fn money_string(cents: u64) -> (r: String)
    ensures
        r@ == spec_money(cents as int),
{
    let mut r = String::from_str("$");
    let whole = decimal_string(cents / 100);
    r.append(whole.as_str());
    r.append(".");
    r.append(digit_str((cents % 100) / 10));
    r.append(digit_str(cents % 10));
    proof {
        reveal_strlit("$");
        reveal_strlit(".");
        assert(r@ =~= spec_money(cents as int));
    }
    r
}

/// Truncates an over-long item name to the 28-character visual budget.
pub fn display_name(name: &str) -> (r: String)
    ensures
        r@ == spec_display_name(name@),
{
    let n = name.unicode_len();
    if n > 28 {
        let head = name.substring_char(0, 25);
        let mut r = String::from_str(head);
        r.append("...");
        proof {
            reveal_strlit("...");
            assert(r@ =~= spec_display_name(name@));
        }
        r
    } else {
        String::from_str(name)
    }
}

/// Assembles one fixed-width receipt row from its column values.
pub fn row_text(id: i64, name: &str, quantity: i64, unit_price_cents: u64, subtotal_cents: u64) -> (r:
    String)
    ensures
        r@ == spec_row(
            id as int,
            name@,
            quantity as int,
            unit_price_cents as int,
            subtotal_cents as int,
        ),
{
    let id_text = signed_decimal_string(id);
    let mut r = pad_right(id_text.as_str(), 4);
    r.append(" ");
    let shown = display_name(name);
    let name_col = pad_right(shown.as_str(), 32);
    r.append(name_col.as_str());
    r.append(" ");
    let qty_text = signed_decimal_string(quantity);
    let qty_col = pad_left(qty_text.as_str(), 4);
    r.append(qty_col.as_str());
    r.append(" ");
    let price_text = money_string(unit_price_cents);
    let price_col = pad_left(price_text.as_str(), 7);
    r.append(price_col.as_str());
    r.append(" ");
    let sub_text = money_string(subtotal_cents);
    let sub_col = pad_left(sub_text.as_str(), 9);
    r.append(sub_col.as_str());
    proof {
        reveal_strlit(" ");
        assert(r@ =~= spec_row(
            id as int,
            name@,
            quantity as int,
            unit_price_cents as int,
            subtotal_cents as int,
        ));
    }
    r
}

} // verus!
