//! Plain text rendering of integers: decimal digits and padding to a width.

use vstd::prelude::*;
use vstd::string::*;

verus! {

/// The character of the decimal digit `d`, for `d` from 0 to 9.
pub open spec fn digit(d: int) -> char {
    ((48 + d) as u8) as char
}

/// `n` in decimal, without sign or leading zeros.
pub open spec fn decimal(n: nat) -> Seq<char>
    decreases n,
{
    if n < 10 {
        seq![digit(n as int)]
    } else {
        decimal(n / 10).push(digit((n % 10) as int))
    }
}

/// `count` copies of `c`; nothing where `count` is not positive.
pub open spec fn repeat(c: char, count: int) -> Seq<char> {
    Seq::new(
        if count > 0 {
            count as nat
        } else {
            0
        },
        |i: int| c,
    )
}

/// `text` moved to the right end of a field of `width` characters, the room
/// before it filled with `fill`. A longer text stays as it is.
pub open spec fn pad_left(text: Seq<char>, width: int, fill: char) -> Seq<char> {
    repeat(fill, width - text.len()) + text
}

/// `text` at the left end of a field of `width` characters, the room behind
/// it filled with `fill`. A longer text stays as it is.
pub open spec fn pad_right(text: Seq<char>, width: int, fill: char) -> Seq<char> {
    text + repeat(fill, width - text.len())
}

/// Number of digits of `n` in decimal.
pub fn decimal_width(n: u64) -> (width: usize)
    ensures
        width == decimal(n as nat).len(),
        1 <= width <= 20,
{
    let mut width: usize = 1;
    let mut rest: u64 = n;
    assert(n as nat * pow10(0) == n) by (nonlinear_arith)
        requires
            pow10(0) == 1,
    ;
    while rest >= 10
        invariant
            1 <= width <= 20,
            decimal(n as nat).len() == decimal(rest as nat).len() + width - 1,
            rest as nat * pow10((width - 1) as nat) <= n,
        decreases rest,
    {
        proof {
            lemma_pow10_step(rest as nat, (width - 1) as nat, n as nat);
        }
        rest = rest / 10;
        width += 1;
    }
    width
}

/// Ten to the power `e`.
pub open spec fn pow10(e: nat) -> nat
    decreases e,
{
    if e == 0 {
        1
    } else {
        10 * pow10((e - 1) as nat)
    }
}

/// A number of 64 bits with a digit left over after `e` divisions by ten
/// has `e` below 20.
proof fn lemma_pow10_step(rest: nat, e: nat, n: nat)
    requires
        rest >= 10,
        rest * pow10(e) <= n,
        n <= u64::MAX,
    ensures
        (rest / 10) * pow10(e + 1) <= n,
        e + 2 <= 20,
{
    assert((rest / 10) * pow10(e + 1) <= n) by {
        assert(pow10(e + 1) == 10 * pow10(e));
        assert((rest / 10) * 10 <= rest);
        assert((rest / 10) * (10 * pow10(e)) == ((rest / 10) * 10) * pow10(e))
            by (nonlinear_arith);
        assert(((rest / 10) * 10) * pow10(e) <= rest * pow10(e)) by (nonlinear_arith)
            requires
                (rest / 10) * 10 <= rest,
        ;
    }
    if e + 2 > 20 {
        lemma_pow10_grows(19, e);
        assert(pow10(19) == 10_000_000_000_000_000_000) by {
            reveal_with_fuel(pow10, 20);
        }
        assert(rest * pow10(e) >= 10 * pow10(19)) by (nonlinear_arith)
            requires
                rest >= 10,
                pow10(e) >= pow10(19),
        ;
    }
}

proof fn lemma_pow10_grows(a: nat, b: nat)
    requires
        a <= b,
    ensures
        pow10(a) <= pow10(b),
        pow10(a) >= 1,
    decreases b,
{
    if a < b {
        lemma_pow10_grows(a, (b - 1) as nat);
    } else if a > 0 {
        lemma_pow10_grows((a - 1) as nat, (a - 1) as nat);
    }
}

/// Appends `n` in decimal.
pub fn push_decimal(out: &mut String, n: u64)
    ensures
        final(out)@ == old(out)@ + decimal(n as nat),
    decreases n,
{
    if n >= 10 {
        push_decimal(out, n / 10);
    }
    let d: u8 = (n % 10) as u8;
    out.push((48u8 + d) as char);
    assert(final(out)@ =~= old(out)@ + decimal(n as nat)) by {
        assert(out@ =~= old(out)@ + decimal(n as nat));
    }
}

/// Appends `count` copies of `c`.
pub fn push_repeated(out: &mut String, c: char, count: usize)
    ensures
        final(out)@ == old(out)@ + repeat(c, count as int),
{
    let mut i: usize = 0;
    while i < count
        invariant
            i <= count,
            out@ == old(out)@ + repeat(c, i as int),
        decreases count - i,
    {
        out.push(c);
        i += 1;
        assert(out@ =~= old(out)@ + repeat(c, i as int));
    }
}

/// Appends `n` in decimal, right-aligned in a field of `width` characters
/// that `fill` fills.
pub fn push_decimal_padded(out: &mut String, n: u64, width: usize, fill: char)
    ensures
        final(out)@ == old(out)@ + pad_left(decimal(n as nat), width as int, fill),
{
    let digits = decimal_width(n);
    if digits < width {
        push_repeated(out, fill, width - digits);
    } else {
        assert(repeat(fill, width - digits) =~= Seq::<char>::empty());
    }
    push_decimal(out, n);
    assert(out@ =~= old(out)@ + pad_left(decimal(n as nat), width as int, fill));
}

/// Appends `text`, left-aligned in a field of `width` characters that
/// blanks fill.
pub fn push_padded_right(out: &mut String, text: &str, width: usize)
    ensures
        final(out)@ == old(out)@ + pad_right(text@, width as int, ' '),
{
    let len = text.unicode_len();
    out.append(text);
    if len < width {
        push_repeated(out, ' ', width - len);
    } else {
        assert(repeat(' ', width - len) =~= Seq::<char>::empty());
    }
    assert(out@ =~= old(out)@ + pad_right(text@, width as int, ' '));
}

} // verus!
