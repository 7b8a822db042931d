//! Numbers and padded fields, written into a `String`.
use vstd::prelude::*;
use vstd::string::*;

verus! {

/// The character for one decimal digit.
pub open spec fn digit(d: nat) -> char
    recommends
        d < 10,
{
    if d == 0 {
        '0'
    } else if d == 1 {
        '1'
    } else if d == 2 {
        '2'
    } else if d == 3 {
        '3'
    } else if d == 4 {
        '4'
    } else if d == 5 {
        '5'
    } else if d == 6 {
        '6'
    } else if d == 7 {
        '7'
    } else if d == 8 {
        '8'
    } else {
        '9'
    }
}

/// `n` in decimal, without leading zeros.
pub open spec fn decimal(n: nat) -> Seq<char>
    decreases n,
{
    if n < 10 {
        seq![digit(n)]
    } else {
        decimal(n / 10).push(digit(n % 10))
    }
}

/// `n` in decimal, with a minus sign in front where it is negative.
pub open spec fn signed_decimal(n: int) -> Seq<char> {
    if n < 0 {
        seq!['-'] + decimal((-n) as nat)
    } else {
        decimal(n as nat)
    }
}

/// `count` copies of `c`.
pub open spec fn repeated(c: char, count: nat) -> Seq<char> {
    Seq::new(count, |i: int| c)
}

/// `item` in a field of at least `width` characters, moved to the right by
/// copies of `fill`. An item longer than the field is left as it is.
pub open spec fn right_aligned(item: Seq<char>, width: nat, fill: char) -> Seq<char> {
    if item.len() >= width {
        item
    } else {
        repeated(fill, (width - item.len()) as nat) + item
    }
}

/// `item` in a field of at least `width` characters, followed by spaces. An
/// item longer than the field is left as it is.
pub open spec fn left_aligned(item: Seq<char>, width: nat) -> Seq<char> {
    if item.len() >= width {
        item
    } else {
        item + repeated(' ', (width - item.len()) as nat)
    }
}

/// A padded field is as wide as asked for, or as wide as its item if that is more.
pub proof fn lemma_aligned_len(item: Seq<char>, width: nat, fill: char)
    ensures
        right_aligned(item, width, fill).len() == if item.len() >= width {
            item.len()
        } else {
            width
        },
        left_aligned(item, width).len() == right_aligned(item, width, fill).len(),
{
}

/// A number's decimal form has at least one digit, and only digits.
pub proof fn lemma_decimal_digits(n: nat)
    ensures
        decimal(n).len() >= 1,
        forall|i: int| 0 <= i < decimal(n).len() ==> '0' <= #[trigger] decimal(n)[i] <= '9',
    decreases n,
{
    if n >= 10 {
        lemma_decimal_digits(n / 10);
    }
}

/// The digit that a character stands for; 0 for a character that is no digit.
pub open spec fn digit_value(c: char) -> nat {
    if c == '1' {
        1
    } else if c == '2' {
        2
    } else if c == '3' {
        3
    } else if c == '4' {
        4
    } else if c == '5' {
        5
    } else if c == '6' {
        6
    } else if c == '7' {
        7
    } else if c == '8' {
        8
    } else if c == '9' {
        9
    } else {
        0
    }
}

/// The number that a row of digits reads as.
pub open spec fn decimal_value(digits: Seq<char>) -> nat
    decreases digits.len(),
{
    if digits.len() == 0 {
        0
    } else {
        decimal_value(digits.drop_last()) * 10 + digit_value(digits.last())
    }
}

/// A number's decimal form reads as that number.
pub proof fn lemma_decimal_reads_back(n: nat)
    ensures
        decimal_value(decimal(n)) == n,
    decreases n,
{
    if n < 10 {
        assert(decimal(n).drop_last() =~= Seq::<char>::empty());
        assert(decimal_value(decimal(n).drop_last()) == 0);
    } else {
        lemma_decimal_reads_back(n / 10);
        assert(decimal(n).drop_last() =~= decimal(n / 10));
    }
}

/// Zeros in front of a row of digits do not change what it reads as.
pub proof fn lemma_leading_zeros_read_as_nothing(count: nat, digits: Seq<char>)
    ensures
        decimal_value(repeated('0', count) + digits) == decimal_value(digits),
    decreases digits.len(), count,
{
    let padded = repeated('0', count) + digits;
    if digits.len() > 0 {
        assert(padded.drop_last() =~= repeated('0', count) + digits.drop_last());
        lemma_leading_zeros_read_as_nothing(count, digits.drop_last());
    } else if count > 0 {
        assert(padded.drop_last() =~= repeated('0', (count - 1) as nat) + digits);
        lemma_leading_zeros_read_as_nothing((count - 1) as nat, digits);
    } else {
        assert(padded =~= digits);
    }
}

/// A number padded with zeros reads as that number.
pub proof fn lemma_zero_padded_reads_back(n: nat, width: nat)
    ensures
        decimal_value(right_aligned(decimal(n), width, '0')) == n,
{
    lemma_decimal_reads_back(n);
    if decimal(n).len() < width {
        lemma_leading_zeros_read_as_nothing((width - decimal(n).len()) as nat, decimal(n));
    }
}

fn digit_str(d: usize) -> (s: &'static str)
    requires
        d < 10,
    ensures
        s@ == seq![digit(d as nat)],
{
    proof {
        reveal_strlit("0");
        reveal_strlit("1");
        reveal_strlit("2");
        reveal_strlit("3");
        reveal_strlit("4");
        reveal_strlit("5");
        reveal_strlit("6");
        reveal_strlit("7");
        reveal_strlit("8");
        reveal_strlit("9");
    }
    let s: &'static str = if d == 0 {
        "0"
    } else if d == 1 {
        "1"
    } else if d == 2 {
        "2"
    } else if d == 3 {
        "3"
    } else if d == 4 {
        "4"
    } else if d == 5 {
        "5"
    } else if d == 6 {
        "6"
    } else if d == 7 {
        "7"
    } else if d == 8 {
        "8"
    } else {
        "9"
    };
    assert(s@ =~= seq![digit(d as nat)]);
    s
}

/// Writes `n` in decimal at the end of `text`.
pub fn append_decimal(text: &mut String, n: usize)
    ensures
        final(text)@ == old(text)@ + decimal(n as nat),
    decreases n,
{
    if n >= 10 {
        append_decimal(text, n / 10);
    }
    text.append(digit_str(n % 10));
    assert(text@ =~= old(text)@ + decimal(n as nat));
}

/// Writes `n` in decimal at the end of `text`, with a minus sign in front
/// where it is negative.
pub fn append_signed_decimal(text: &mut String, n: i32)
    ensures
        final(text)@ == old(text)@ + signed_decimal(n as int),
{
    if n < 0 {
        proof {
            reveal_strlit("-");
        }
        text.append("-");
        let magnitude: i64 = -(n as i64);
        append_decimal(text, magnitude as usize);
        assert(text@ =~= old(text)@ + signed_decimal(n as int));
    } else {
        append_decimal(text, n as usize);
    }
}

/// `n` in decimal.
pub fn decimal_string(n: usize) -> (text: String)
    ensures
        text@ == decimal(n as nat),
{
    let mut text = String::new();
    append_decimal(&mut text, n);
    assert(text@ =~= decimal(n as nat));
    text
}

/// Writes `count` copies of the one character of `fill` at the end of `text`.
fn append_repeated(text: &mut String, fill: &str, count: usize)
    requires
        fill@.len() == 1,
    ensures
        final(text)@ == old(text)@ + repeated(fill@[0], count as nat),
{
    let mut done: usize = 0;
    while done < count
        invariant
            done <= count,
            fill@.len() == 1,
            text@ == old(text)@ + repeated(fill@[0], done as nat),
        decreases count - done,
    {
        text.append(fill);
        done = done + 1;
        assert(text@ =~= old(text)@ + repeated(fill@[0], done as nat));
    }
}

/// Writes `n` at the end of `text`, in a field of at least `width` characters:
/// moved to the right by zeros if `zeros` is set, by spaces if not.
pub fn append_decimal_field(text: &mut String, n: usize, width: usize, zeros: bool)
    ensures
        final(text)@ == old(text)@ + right_aligned(
            decimal(n as nat),
            width as nat,
            if zeros {
                '0'
            } else {
                ' '
            },
        ),
{
    let digits = decimal_string(n);
    let len: usize = digits.as_str().unicode_len();
    proof {
        reveal_strlit("0");
        reveal_strlit(" ");
    }
    if len < width {
        append_repeated(
            text,
            if zeros {
                "0"
            } else {
                " "
            },
            width - len,
        );
    }
    text.append(digits.as_str());
    assert(text@ =~= old(text)@ + right_aligned(
        decimal(n as nat),
        width as nat,
        if zeros {
            '0'
        } else {
            ' '
        },
    ));
}

/// Writes `item` at the end of `text`, in a field of at least `width`
/// characters, followed by spaces.
pub fn append_left_aligned(text: &mut String, item: &str, width: usize)
    ensures
        final(text)@ == old(text)@ + left_aligned(item@, width as nat),
{
    let len: usize = item.unicode_len();
    text.append(item);
    if len < width {
        proof {
            reveal_strlit(" ");
        }
        append_repeated(text, " ", width - len);
    }
    assert(text@ =~= old(text)@ + left_aligned(item@, width as nat));
}

} // verus!
