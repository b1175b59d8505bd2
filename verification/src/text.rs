//! Numbers and strings as text: decimal digits, fixed-point numbers and quoted
//! strings, as they stand in a serialized record.

use crate::metric::SCALE;
use crate::scan::{all_digits, digits_value, is_digit, unsigned_of};
use vstd::prelude::*;

verus! {

/// `String::push` of the standard library: the string afterwards is the string
/// before with the one character added at its end.
pub assume_specification[ String::push ](s: &mut String, c: char)
    ensures
        final(s)@ == old(s)@.push(c),
;

/// The digit `d`, below ten, as a character.
pub open spec fn digit_char(d: int) -> char {
    ((48 + d) as u8) as char
}

/// The number in decimal, without sign or leading zeros.
pub open spec fn decimal(n: nat) -> Seq<char>
    decreases n,
{
    if n < 10 {
        seq![digit_char(n as int)]
    } else {
        decimal(n / 10).push(digit_char((n % 10) as int))
    }
}

/// `count` zeros.
pub open spec fn zeros(count: nat) -> Seq<char> {
    Seq::new(count, |i: int| '0')
}

/// The number in decimal, with zeros in front where it has fewer than `width`
/// digits.
pub open spec fn zero_padded(n: nat, width: nat) -> Seq<char> {
    if decimal(n).len() >= width {
        decimal(n)
    } else {
        zeros((width - decimal(n).len()) as nat) + decimal(n)
    }
}

/// The integer in decimal, with a minus sign in front where it is negative.
pub open spec fn signed_decimal(i: int) -> Seq<char> {
    if i < 0 {
        seq!['-'] + decimal((-i) as nat)
    } else {
        decimal(i as nat)
    }
}

/// A count of millionths as a decimal number: the whole part, a point, and six
/// digits.
pub open spec fn fixed_point(v: int) -> Seq<char> {
    if v < 0 {
        seq!['-'] + decimal(((-v) / (SCALE as int)) as nat) + seq!['.'] + zero_padded(
            ((-v) % (SCALE as int)) as nat,
            6,
        )
    } else {
        decimal((v / (SCALE as int)) as nat) + seq!['.'] + zero_padded(
            (v % (SCALE as int)) as nat,
            6,
        )
    }
}

/// A number written in decimal reads back as itself: what is written is
/// digits only, and they stand for the number.
pub proof fn lemma_decimal_reads_back(n: nat)
    ensures
        decimal(n).len() >= 1,
        all_digits(decimal(n)),
        digits_value(decimal(n)) == n,
        unsigned_of(decimal(n)) == Some(n),
    decreases n,
{
    let text = decimal(n);
    if n < 10 {
        assert(text.drop_last() =~= Seq::<char>::empty());
        assert(digits_value(Seq::<char>::empty()) == 0);
        assert(text.last() == digit_char(n as int));
        assert(digit_char(n as int) as u32 == 48 + n);
        assert(digits_value(text) == n);
    } else {
        lemma_decimal_reads_back(n / 10);
        assert(text.drop_last() =~= decimal(n / 10));
        assert(text.last() == digit_char((n % 10) as int));
        assert(digit_char((n % 10) as int) as u32 == 48 + n % 10);
        assert forall|i: int| 0 <= i < text.len() implies is_digit(#[trigger] text[i]) by {
            if i < text.len() - 1 {
                assert(text[i] == decimal(n / 10)[i]);
            }
        }
    }
    assert(text[0] != '+');
}

/// Zeros in front change nothing of what digits stand for.
pub proof fn lemma_leading_zeros(count: nat, digits: Seq<char>)
    ensures
        digits_value(zeros(count) + digits) == digits_value(digits),
        all_digits(digits) ==> all_digits(zeros(count) + digits),
    decreases digits.len(), count,
{
    let whole = zeros(count) + digits;
    if digits.len() > 0 {
        lemma_leading_zeros(count, digits.drop_last());
        assert(whole.drop_last() =~= zeros(count) + digits.drop_last());
        assert(whole.last() == digits.last());
    } else if count > 0 {
        lemma_leading_zeros((count - 1) as nat, digits);
        assert(whole.drop_last() =~= zeros((count - 1) as nat) + digits);
        assert(whole.last() == '0');
    } else {
        assert(whole =~= digits);
    }
    if all_digits(digits) {
        assert forall|i: int| 0 <= i < whole.len() implies is_digit(#[trigger] whole[i]) by {
            if i >= count {
                assert(whole[i] == digits[i - count]);
            }
        }
    }
}

/// A number written with zeros in front reads back as itself, whatever the
/// width: no two numbers are written alike.
pub proof fn lemma_zero_padded_reads_back(n: nat, width: nat)
    ensures
        zero_padded(n, width).len() >= 1,
        all_digits(zero_padded(n, width)),
        digits_value(zero_padded(n, width)) == n,
{
    lemma_decimal_reads_back(n);
    if decimal(n).len() < width {
        lemma_leading_zeros((width - decimal(n).len()) as nat, decimal(n));
    }
}

fn digit(d: u8) -> (c: char)
    requires
        d < 10,
    ensures
        c == digit_char(d as int),
{
    (48 + d) as char
}

/// The digits of the number in decimal.
pub fn decimal_digits(n: u128) -> (digits: Vec<char>)
    ensures
        digits@ == decimal(n as nat),
    decreases n,
{
    let mut digits: Vec<char> = if n >= 10 {
        decimal_digits(n / 10)
    } else {
        Vec::new()
    };
    let d: u8 = (n % 10) as u8;
    digits.push(digit(d));
    assert(digits@ =~= decimal(n as nat));
    digits
}

/// Appends the characters in their order.
pub fn push_all(out: &mut String, chars: &Vec<char>)
    ensures
        final(out)@ == old(out)@ + chars@,
{
    let mut i: usize = 0;
    while i < chars.len()
        invariant
            i <= chars@.len(),
            out@ == old(out)@ + chars@.take(i as int),
        decreases chars@.len() - i,
    {
        out.push(chars[i]);
        i += 1;
        assert(out@ =~= old(out)@ + chars@.take(i as int));
    }
    assert(chars@.take(chars@.len() as int) =~= chars@);
}

/// Appends the number in decimal.
pub fn push_decimal(out: &mut String, n: u128)
    ensures
        final(out)@ == old(out)@ + decimal(n as nat),
{
    let digits: Vec<char> = decimal_digits(n);
    push_all(out, &digits);
}

/// Appends the number in decimal, with zeros in front where it has fewer than
/// `width` digits.
pub fn push_zero_padded(out: &mut String, n: u128, width: usize)
    ensures
        final(out)@ == old(out)@ + zero_padded(n as nat, width as nat),
{
    let digits: Vec<char> = decimal_digits(n);
    let count: usize = digits.len();
    let mut written: usize = count;
    while written < width
        invariant
            count <= written,
            written <= width || written == count,
            out@ == old(out)@ + zeros((written - count) as nat),
        decreases width - written,
    {
        out.push('0');
        written += 1;
        assert(out@ =~= old(out)@ + zeros((written - count) as nat));
    }
    push_all(out, &digits);
    proof {
        assert(zeros(0) =~= Seq::<char>::empty());
        assert(out@ =~= old(out)@ + zero_padded(n as nat, width as nat));
    }
}

/// Appends the integer in decimal, with its sign where it is negative.
pub fn push_signed(out: &mut String, i: i64)
    ensures
        final(out)@ == old(out)@ + signed_decimal(i as int),
{
    if i < 0 {
        out.push('-');
        let magnitude: u128 = (-(i as i128)) as u128;
        push_decimal(out, magnitude);
        assert(out@ =~= old(out)@ + signed_decimal(i as int));
    } else {
        push_decimal(out, i as u128);
    }
}

/// Appends a count of millionths as a decimal number with six digits after
/// the point.
pub fn push_fixed_point(out: &mut String, v: i64)
    ensures
        final(out)@ == old(out)@ + fixed_point(v as int),
{
    let magnitude: u128 = if v < 0 {
        out.push('-');
        (-(v as i128)) as u128
    } else {
        v as u128
    };
    let scale: u128 = SCALE as u128;
    push_decimal(out, magnitude / scale);
    out.push('.');
    push_zero_padded(out, magnitude % scale, 6);
    assert(out@ =~= old(out)@ + fixed_point(v as int));
}

/// The hexadecimal digit `d`, below sixteen, as a lower-case character.
pub open spec fn hex_char(d: int) -> char {
    if d < 10 {
        digit_char(d)
    } else {
        ((87 + d) as u8) as char
    }
}

/// One character as it stands inside a quoted string: the quote, the
/// backslash and the control characters are escaped, every other character
/// stands for itself.
pub open spec fn escaped_char(c: char) -> Seq<char> {
    if c == '"' {
        seq!['\\', '"']
    } else if c == '\\' {
        seq!['\\', '\\']
    } else if c == '\u{8}' {
        seq!['\\', 'b']
    } else if c == '\u{c}' {
        seq!['\\', 'f']
    } else if c == '\n' {
        seq!['\\', 'n']
    } else if c == '\r' {
        seq!['\\', 'r']
    } else if c == '\t' {
        seq!['\\', 't']
    } else if (c as u32) < 32 {
        seq!['\\', 'u', '0', '0', hex_char((c as u32 / 16) as int), hex_char((c as u32 % 16) as int)]
    } else {
        seq![c]
    }
}

/// The characters of a string as they stand inside a quoted string.
pub open spec fn escaped(s: Seq<char>) -> Seq<char>
    decreases s.len(),
{
    if s.len() == 0 {
        Seq::empty()
    } else {
        escaped(s.drop_last()) + escaped_char(s.last())
    }
}

/// A string between quotes, with what needs it escaped.
pub open spec fn quoted(s: Seq<char>) -> Seq<char> {
    seq!['"'] + escaped(s) + seq!['"']
}

fn hex_digit(d: u8) -> (c: char)
    requires
        d < 16,
    ensures
        c == hex_char(d as int),
{
    if d < 10 {
        (48 + d) as char
    } else {
        (87 + d) as char
    }
}

/// Appends one character as it stands inside a quoted string.
pub fn push_escaped_char(out: &mut String, c: char)
    ensures
        final(out)@ == old(out)@ + escaped_char(c),
{
    if c == '"' {
        out.push('\\');
        out.push('"');
    } else if c == '\\' {
        out.push('\\');
        out.push('\\');
    } else if c == '\u{8}' {
        out.push('\\');
        out.push('b');
    } else if c == '\u{c}' {
        out.push('\\');
        out.push('f');
    } else if c == '\n' {
        out.push('\\');
        out.push('n');
    } else if c == '\r' {
        out.push('\\');
        out.push('r');
    } else if c == '\t' {
        out.push('\\');
        out.push('t');
    } else if (c as u32) < 32 {
        let code: u8 = c as u32 as u8;
        out.push('\\');
        out.push('u');
        out.push('0');
        out.push('0');
        out.push(hex_digit(code / 16));
        out.push(hex_digit(code % 16));
    } else {
        out.push(c);
    }
    assert(out@ =~= old(out)@ + escaped_char(c));
}

/// Appends the string between quotes, with what needs it escaped.
pub fn push_quoted(out: &mut String, s: &str)
    ensures
        final(out)@ == old(out)@ + quoted(s@),
{
    out.push('"');
    assert(s@.take(0) =~= Seq::<char>::empty());
    for c in it: s.chars()
        invariant
            it.seq() == s@,
            out@ == old(out)@ + seq!['"'] + escaped(s@.take(it.index() as int)),
    {
        let ghost done = s@.take(it.index() as int);
        let ghost more = s@.take(it.index() + 1);
        assert(more.drop_last() =~= done);
        assert(more.last() == c);
        push_escaped_char(out, c);
        assert(out@ =~= old(out)@ + seq!['"'] + escaped(more));
    }
    assert(s@.take(s@.len() as int) =~= s@);
    out.push('"');
    assert(out@ =~= old(out)@ + quoted(s@));
}

/// The characters of the string.
pub fn chars_of(s: &str) -> (chars: Vec<char>)
    ensures
        chars@ == s@,
{
    let mut chars: Vec<char> = Vec::new();
    for c in it: s.chars()
        invariant
            it.seq() == s@,
            chars@ == s@.take(it.index() as int),
    {
        chars.push(c);
    }
    assert(s@.take(s@.len() as int) =~= s@);
    chars
}

/// Whether two strings hold the same characters.
pub fn same_text(a: &str, b: &str) -> (same: bool)
    ensures
        same == (a@ == b@),
{
    let left: Vec<char> = chars_of(a);
    let right: Vec<char> = chars_of(b);
    if left.len() != right.len() {
        return false;
    }
    let mut i: usize = 0;
    while i < left.len()
        invariant
            left@ == a@,
            right@ == b@,
            left@.len() == right@.len(),
            i <= left@.len(),
            left@.take(i as int) == right@.take(i as int),
        decreases left@.len() - i,
    {
        if left[i] != right[i] {
            assert(a@[i as int] != b@[i as int]);
            return false;
        }
        i += 1;
        assert(left@.take(i as int) =~= left@.take(i - 1).push(left@[i - 1]));
        assert(right@.take(i as int) =~= right@.take(i - 1).push(right@[i - 1]));
    }
    assert(left@.take(left@.len() as int) =~= left@);
    assert(right@.take(right@.len() as int) =~= right@);
    true
}

} // verus!
