//! Texts of the transport display.
use vstd::prelude::*;

#[allow(unused_imports)]
use crate::float_order::whole64;
use crate::float_order::whole_part64;

verus! {

/// The character of a decimal digit.
pub open spec fn digit_char(d: nat) -> char {
    if d == 0 {
        '0'
    } else if d == 1 {
        '1'
    } else if d == 2 {
        '2'
    } else if d == 3 {
        '3'
    } else if d == 4 {
        '4'
    } else if d == 5 {
        '5'
    } else if d == 6 {
        '6'
    } else if d == 7 {
        '7'
    } else if d == 8 {
        '8'
    } else {
        '9'
    }
}

/// A number in decimal notation, without leading zeros.
pub open spec fn decimal(n: nat) -> Seq<char>
    decreases n,
{
    if n < 10 {
        seq![digit_char(n)]
    } else {
        decimal(n / 10).push(digit_char(n % 10))
    }
}

/// As many zeros as a text of `len` characters lacks of `width`.
pub open spec fn zeros(len: nat, width: nat) -> Seq<char> {
    Seq::new(
        if len < width {
            (width - len) as nat
        } else {
            0
        },
        |i: int| '0',
    )
}

/// A number in decimal notation, filled up with leading zeros to `width` digits.
pub open spec fn zero_padded(n: nat, width: nat) -> Seq<char> {
    zeros(decimal(n).len(), width) + decimal(n)
}

/// A signed number filled up with zeros to `width` characters, the sign included.
pub open spec fn signed_zero_padded(n: int, width: nat) -> Seq<char> {
    if n < 0 {
        seq!['-'] + zero_padded((-n) as nat, (width - 1) as nat)
    } else {
        zero_padded(n as nat, width)
    }
}

fn push_digit(text: &mut String, digit: u64)
    requires
        digit < 10,
    ensures
        final(text)@ == old(text)@.push(digit_char(digit as nat)),
{
    proof {
        reveal_strlit("0");
        reveal_strlit("1");
        reveal_strlit("2");
        reveal_strlit("3");
        reveal_strlit("4");
        reveal_strlit("5");
        reveal_strlit("6");
        reveal_strlit("7");
        reveal_strlit("8");
        reveal_strlit("9");
    }
    let character: &str = if digit == 0 {
        "0"
    } else if digit == 1 {
        "1"
    } else if digit == 2 {
        "2"
    } else if digit == 3 {
        "3"
    } else if digit == 4 {
        "4"
    } else if digit == 5 {
        "5"
    } else if digit == 6 {
        "6"
    } else if digit == 7 {
        "7"
    } else if digit == 8 {
        "8"
    } else {
        "9"
    };
    text.append(character);
    assert(text@ =~= old(text)@.push(digit_char(digit as nat)));
}

fn push_decimal(text: &mut String, n: u64)
    ensures
        final(text)@ == old(text)@ + decimal(n as nat),
    decreases n,
{
    if n >= 10 {
        push_decimal(text, n / 10);
    }
    push_digit(text, n % 10);
    assert(text@ =~= old(text)@ + decimal(n as nat));
}

/// How many digits a number has, counted up to `limit`.
fn digits_up_to(n: u64, limit: usize) -> (count: usize)
    ensures
        count == (if decimal(n as nat).len() < limit {
            decimal(n as nat).len()
        } else {
            limit as nat
        }),
    decreases n,
{
    if limit == 0 {
        0
    } else if n < 10 {
        1
    } else {
        1 + digits_up_to(n / 10, limit - 1)
    }
}

fn push_zero_padded(text: &mut String, n: u64, width: usize)
    ensures
        final(text)@ == old(text)@ + zero_padded(n as nat, width as nat),
{
    let mut count: usize = digits_up_to(n, width);
    let ghost start = count;
    let ghost all = zeros(decimal(n as nat).len(), width as nat);
    while count < width
        invariant
            start <= count <= width,
            all.len() == width - start,
            forall|i: int| 0 <= i < all.len() ==> all[i] == '0',
            text@ == old(text)@ + all.subrange(0, count - start),
        decreases width - count,
    {
        push_digit(text, 0);
        count += 1;
        assert(text@ =~= old(text)@ + all.subrange(0, count - start));
    }
    assert(text@ =~= old(text)@ + all);
    push_decimal(text, n);
    assert(text@ =~= old(text)@ + zero_padded(n as nat, width as nat));
}

fn push_signed(text: &mut String, n: i32, width: usize)
    requires
        width > 0,
    ensures
        final(text)@ == old(text)@ + signed_zero_padded(n as int, width as nat),
{
    if n < 0 {
        proof {
            reveal_strlit("-");
        }
        text.append("-");
        assert(text@ =~= old(text)@.push('-'));
        let magnitude: i64 = -(n as i64);
        push_zero_padded(text, magnitude as u64, width - 1);
        assert(text@ =~= old(text)@ + signed_zero_padded(n as int, width as nat));
    } else {
        push_zero_padded(text, n as u64, width);
    }
}

/// A number of whole seconds as MM:SS.
pub open spec fn clock(seconds: nat) -> Seq<char> {
    zero_padded(seconds / 60, 2) + seq![':'] + zero_padded(seconds % 60, 2)
}

/// Formats seconds, given as a double, as MM:SS. Fractions are cut off, and what is
/// no positive number counts as 0.
pub fn format_time(seconds: u64) -> (text: String)
    ensures
        text@ == clock(whole64(seconds) as nat),
{
    proof {
        reveal_strlit(":");
    }
    let total: u64 = whole_part64(seconds);
    let mut text = String::new();
    push_zero_padded(&mut text, total / 60, 2);
    text.append(":");
    push_zero_padded(&mut text, total % 60, 2);
    assert(text@ =~= clock(total as nat));
    text
}

/// The text of a position.
pub open spec fn position(order: int, row: int) -> Seq<char> {
    "Ord:"@ + signed_zero_padded(order, 3) + " Row:"@ + signed_zero_padded(row, 3)
}

/// Formats the order and row display.
pub fn format_position(order: i32, row: i32) -> (text: String)
    ensures
        text@ == position(order as int, row as int),
{
    let mut text = String::new();
    text.append("Ord:");
    push_signed(&mut text, order, 3);
    text.append(" Row:");
    push_signed(&mut text, row, 3);
    assert(text@ =~= position(order as int, row as int));
    text
}

/// The number that a text of decimal digits stands for.
pub open spec fn decimal_value(text: Seq<char>) -> int
    decreases text.len(),
{
    if text.len() == 0 {
        0
    } else {
        10 * decimal_value(text.drop_last()) + (text.last() as int - '0' as int)
    }
}

/// Reading a zero-padded number gives the number back.
pub proof fn law_zero_padded_value(n: nat, width: nat)
    ensures
        decimal_value(zero_padded(n, width)) == n,
        zero_padded(n, width).len() >= width,
{
    lemma_padded_value(decimal(n), zeros(decimal(n).len(), width));
    lemma_decimal_value(n);
}

/// The seconds that a clock shows: minutes, a colon and two digits.
pub open spec fn read_clock(text: Seq<char>) -> int {
    let colon = text.len() - 3;
    60 * decimal_value(text.take(colon)) + decimal_value(text.skip(colon + 1))
}

/// A clock shows at least two digits for the minutes and two for the seconds, and
/// reads back as its seconds. So different times look different.
pub proof fn law_clock_reads_back(seconds: nat)
    ensures
        clock(seconds).len() >= 5,
        clock(seconds)[clock(seconds).len() - 3] == ':',
        read_clock(clock(seconds)) == seconds,
        forall|other: nat| #[trigger] clock(other) == clock(seconds) ==> other == seconds,
{
    lemma_read_clock(seconds);
    assert forall|other: nat| #[trigger] clock(other) == clock(seconds) implies other
        == seconds by {
        lemma_read_clock(other);
    }
}

proof fn lemma_read_clock(seconds: nat)
    ensures
        clock(seconds).len() >= 5,
        clock(seconds)[clock(seconds).len() - 3] == ':',
        read_clock(clock(seconds)) == seconds,
{
    let minutes = zero_padded(seconds / 60, 2);
    let rest = zero_padded(seconds % 60, 2);
    law_zero_padded_value(seconds / 60, 2);
    law_zero_padded_value(seconds % 60, 2);
    reveal_with_fuel(decimal, 2);
    assert(rest.len() == 2);
    assert(clock(seconds).take(clock(seconds).len() - 3) =~= minutes);
    assert(clock(seconds).skip(clock(seconds).len() - 2) =~= rest);
}

/// The number that a text of decimal digits stands for, with a minus sign before
/// them or without.
pub open spec fn signed_value(text: Seq<char>) -> int {
    if text.len() > 0 && text[0] == '-' {
        -decimal_value(text.skip(1))
    } else {
        decimal_value(text)
    }
}

/// Reading a signed zero-padded number gives the number back.
pub proof fn law_signed_value(n: int, width: nat)
    requires
        width > 0,
    ensures
        signed_value(signed_zero_padded(n, width)) == n,
        signed_zero_padded(n, width).len() >= width,
{
    if n < 0 {
        let digits = zero_padded((-n) as nat, (width - 1) as nat);
        law_zero_padded_value((-n) as nat, (width - 1) as nat);
        assert(signed_zero_padded(n, width).skip(1) =~= digits);
    } else {
        law_zero_padded_value(n as nat, width);
        lemma_digits(n as nat, width);
    }
}

/// The order and the row that a position shows, on either side of its space.
pub open spec fn read_position(text: Seq<char>) -> (int, int) {
    let space = text.index_of(' ');
    (signed_value(text.subrange(4, space)), signed_value(text.skip(space + 5)))
}

/// A position reads back as its order and row, signs included. So different positions
/// look different.
pub proof fn law_position_reads_back(order: int, row: int)
    ensures
        read_position(position(order, row)) == (order, row),
        forall|other_order: int, other_row: int| #[trigger]
            position(other_order, other_row) == position(order, row) ==> other_order == order
                && other_row == row,
{
    lemma_read_position(order, row);
    assert forall|other_order: int, other_row: int| #[trigger]
        position(other_order, other_row) == position(order, row) implies other_order == order
        && other_row == row by {
        lemma_read_position(other_order, other_row);
    }
}

proof fn lemma_read_position(order: int, row: int)
    ensures
        read_position(position(order, row)) == (order, row),
{
    let text = position(order, row);
    let first = signed_zero_padded(order, 3);
    let second = signed_zero_padded(row, 3);
    reveal_strlit("Ord:");
    reveal_strlit(" Row:");
    law_signed_value(order, 3);
    law_signed_value(row, 3);
    lemma_no_space(order, 3);
    lemma_no_space(row, 3);
    let space: int = 4 + first.len() as int;
    assert(text[space] == ' ');
    assert forall|i: int| 0 <= i < text.len() && text[i] == ' ' implies i == space by {
        if 4 <= i < space {
            assert(text[i] == first[i - 4]);
        } else if i >= space + 5 {
            assert(text[i] == second[i - space - 5]);
        }
    }
    assert(text.index_of(' ') == space);
    assert(text.subrange(4, space) =~= first);
    assert(text.skip(space + 5) =~= second);
}

/// A signed number is written without a space.
proof fn lemma_no_space(n: int, width: nat)
    requires
        width > 0,
    ensures
        forall|i: int|
            0 <= i < signed_zero_padded(n, width).len() ==> #[trigger] signed_zero_padded(
                n,
                width,
            )[i] != ' ',
{
    if n < 0 {
        lemma_digits((-n) as nat, (width - 1) as nat);
    } else {
        lemma_digits(n as nat, width);
    }
}

/// A zero-padded number is written with digits only.
proof fn lemma_digits(n: nat, width: nat)
    ensures
        forall|i: int|
            0 <= i < zero_padded(n, width).len() ==> '0' <= #[trigger] zero_padded(n, width)[i]
                <= '9',
{
    lemma_decimal_digits(n);
}

proof fn lemma_decimal_digits(n: nat)
    ensures
        forall|i: int| 0 <= i < decimal(n).len() ==> '0' <= #[trigger] decimal(n)[i] <= '9',
    decreases n,
{
    if n >= 10 {
        lemma_decimal_digits(n / 10);
        assert forall|i: int| 0 <= i < decimal(n).len() implies '0' <= #[trigger] decimal(n)[i]
            <= '9' by {
            if i < decimal(n / 10).len() {
                assert(decimal(n)[i] == decimal(n / 10)[i]);
            }
        }
    }
}

proof fn lemma_decimal_value(n: nat)
    ensures
        decimal_value(decimal(n)) == n,
    decreases n,
{
    reveal_with_fuel(decimal_value, 2);
    if n >= 10 {
        lemma_decimal_value(n / 10);
        assert(decimal(n).drop_last() =~= decimal(n / 10));
    } else {
        assert(decimal(n).drop_last() =~= seq![]);
    }
}

proof fn lemma_padded_value(digits: Seq<char>, padding: Seq<char>)
    requires
        forall|i: int| 0 <= i < padding.len() ==> padding[i] == '0',
    ensures
        decimal_value(padding + digits) == decimal_value(digits),
    decreases padding.len() + digits.len(),
{
    if digits.len() > 0 {
        assert((padding + digits).drop_last() =~= padding + digits.drop_last());
        lemma_padded_value(digits.drop_last(), padding);
    } else if padding.len() > 0 {
        assert(padding + digits =~= padding);
        assert((padding.drop_last() + digits) =~= padding.drop_last());
        lemma_padded_value(digits, padding.drop_last());
    } else {
        assert(padding + digits =~= digits);
    }
}

/// A number is filled up with zeros only as far as asked for: it is written with digits
/// only, and where it is longer than that, without a zero in front.
pub proof fn law_zero_padded_is_short(n: nat, width: nat)
    ensures
        forall|i: int|
            0 <= i < zero_padded(n, width).len() ==> '0' <= #[trigger] zero_padded(n, width)[i]
                <= '9',
        zero_padded(n, width).len() > width && n > 0 ==> zero_padded(n, width)[0] != '0',
        n == 0 && width > 0 ==> zero_padded(n, width).len() == width,
{
    lemma_digits(n, width);
    lemma_no_leading_zero(n);
    assert(zeros(decimal(n).len(), width).len() + decimal(n).len() == zero_padded(n, width).len());
}

proof fn lemma_no_leading_zero(n: nat)
    ensures
        decimal(n).len() > 0,
        n > 0 ==> decimal(n)[0] != '0',
    decreases n,
{
    if n >= 10 {
        lemma_no_leading_zero(n / 10);
    }
}

/// A negative number is its sign and the digits of its size, and takes the same width.
pub proof fn law_signed_is_sign_and_digits(n: int, width: nat)
    requires
        n < 0,
        width > 0,
    ensures
        signed_zero_padded(n, width)[0] == '-',
        signed_zero_padded(n, width).skip(1) == zero_padded((-n) as nat, (width - 1) as nat),
{
    assert(signed_zero_padded(n, width).skip(1) =~= zero_padded(
        (-n) as nat,
        (width - 1) as nat,
    ));
}

/// A position shows its labels and gives each number at least three characters.
pub proof fn law_position_shows_labels(order: int, row: int)
    ensures
        position(order, row).len() >= 15,
        position(order, row).take(4) == seq!['O', 'r', 'd', ':'],
        ({
            let space = position(order, row).len() - signed_zero_padded(row, 3).len() - 5;
            position(order, row).subrange(space, space + 5) == seq![' ', 'R', 'o', 'w', ':']
        }),
        signed_zero_padded(order, 3).len() >= 3,
        signed_zero_padded(row, 3).len() >= 3,
{
    reveal_strlit("Ord:");
    reveal_strlit(" Row:");
    law_signed_value(order, 3);
    law_signed_value(row, 3);
    let text = position(order, row);
    let space = text.len() - signed_zero_padded(row, 3).len() - 5;
    assert(text.take(4) =~= seq!['O', 'r', 'd', ':']);
    assert(text.subrange(space, space + 5) =~= seq![' ', 'R', 'o', 'w', ':']);
}

} // verus!
