//! Text building blocks shared by the renderers: digits in a radix,
//! fixed-width hexadecimal, and appending to a `String`.
use vstd::prelude::*;

verus! {

/// The character for a digit value below sixteen (lower-case hexadecimal letters).
pub open spec fn digit_char(d: nat) -> char {
    if d < 10 {
        (48 + d) as char
    } else {
        (87 + d) as char
    }
}

/// `n` written in base `radix` with at least `width` digits, zero-padded on the left.
/// With `width == 1` this is the usual rendering of an unsigned integer.
pub open spec fn radix_text(n: nat, radix: nat, width: nat) -> Seq<char>
    decreases n + width,
{
    if radix < 2 || (n == 0 && width == 0) {
        Seq::empty()
    } else {
        proof {
            assert(n > 0 ==> n / radix < n) by (nonlinear_arith)
                requires
                    radix >= 2,
            ;
        }
        radix_text(n / radix, radix, if width > 0 { (width - 1) as nat } else { 0 }).push(
            digit_char(n % radix),
        )
    }
}

/// Decimal rendering of an unsigned integer, as `{}` prints it.
pub open spec fn decimal(n: nat) -> Seq<char> {
    radix_text(n, 10, 1)
}

/// Lower-case hexadecimal with at least `width` digits, as `{:0width$x}` prints it.
pub open spec fn hex(n: nat, width: nat) -> Seq<char> {
    radix_text(n, 16, width)
}

/// Appends one character to a string.
#[verifier::external_body]
pub(crate) fn push_char(s: &mut String, c: char)
    ensures
        final(s)@ == old(s)@.push(c),
{
    s.push(c);
}

/// The character of a digit value below sixteen.
pub fn digit_to_char(d: u64) -> (c: char)
    requires
        d < 16,
    ensures
        c == digit_char(d as nat),
{
    if d < 10 {
        let b: u8 = 48u8 + d as u8;
        b as char
    } else {
        let b: u8 = 87u8 + d as u8;
        b as char
    }
}

/// Appends `n` in base `radix` (10 or 16), zero-padded to at least `width` digits.
pub fn push_radix(s: &mut String, n: u64, radix: u64, width: u64)
    requires
        radix == 10 || radix == 16,
    ensures
        final(s)@ == old(s)@ + radix_text(n as nat, radix as nat, width as nat),
    decreases n + width,
{
    if n == 0 && width == 0 {
        proof {
            assert(old(s)@ + radix_text(0, radix as nat, 0) =~= old(s)@);
        }
        return;
    }
    let next_width: u64 = if width > 0 { width - 1 } else { 0 };
    push_radix(s, n / radix, radix, next_width);
    let c = digit_to_char(n % radix);
    push_char(s, c);
    proof {
        let t = radix_text((n / radix) as nat, radix as nat, next_width as nat);
        assert(radix_text(n as nat, radix as nat, width as nat) == t.push(digit_char((n % radix) as nat)));
        assert(s@ =~= old(s)@ + radix_text(n as nat, radix as nat, width as nat));
    }
}

/// The value of a digit character: `0`-`9`, then `a`-`f`.
pub open spec fn char_digit_value(c: char) -> int {
    if (c as u32) <= 57 {
        (c as u32) - 48
    } else {
        (c as u32) - 87
    }
}

/// A digit character of the given radix: `0`-`9`, and `a`-`f` in base sixteen.
pub open spec fn is_radix_digit(c: char, radix: nat) -> bool {
    ||| (48 <= (c as u32) && (c as u32) <= 57)
    ||| (radix == 16 && 97 <= (c as u32) && (c as u32) <= 102)
}

/// The number that digits denote, most significant first.
pub open spec fn digits_value(t: Seq<char>, radix: nat) -> int
    decreases t.len(),
{
    if t.len() == 0 {
        0
    } else {
        digits_value(t.drop_last(), radix) * radix + char_digit_value(t.last())
    }
}

/// A number's rendering reads back as that number: every character is a digit
/// of the radix, the digits denote `n`, there are at least `width` of them, and a
/// leading zero appears only as padding up to `width` (or for zero itself).
pub proof fn lemma_radix_text_denotes(n: nat, radix: nat, width: nat)
    requires
        radix == 10 || radix == 16,
    ensures
        digits_value(radix_text(n, radix, width), radix) == n,
        forall|i: int|
            0 <= i < radix_text(n, radix, width).len() ==> is_radix_digit(
                #[trigger] radix_text(n, radix, width)[i],
                radix,
            ),
        radix_text(n, radix, width).len() >= width,
        radix_text(n, radix, width).len() > width ==> radix_text(n, radix, width)[0] != '0',
    decreases n + width,
{
    let t = radix_text(n, radix, width);
    if n == 0 && width == 0 {
    } else {
        assert(n > 0 ==> n / radix < n) by (nonlinear_arith)
            requires
                radix >= 2,
        ;
        let w2: nat = if width > 0 { (width - 1) as nat } else { 0 };
        lemma_radix_text_denotes(n / radix, radix, w2);
        let prefix = radix_text(n / radix, radix, w2);
        assert(t == prefix.push(digit_char(n % radix)));
        assert(t.drop_last() =~= prefix);
        assert(n == (n / radix) * radix + n % radix) by (nonlinear_arith)
            requires
                radix >= 2,
        ;
        assert forall|i: int| 0 <= i < t.len() implies is_radix_digit(#[trigger] t[i], radix) by {
            if i < prefix.len() {
                assert(t[i] == prefix[i]);
            }
        }
        if t.len() > width {
            if prefix.len() == 0 {
                assert(n / radix == 0);
                assert(n % radix == n);
                assert(n > 0);
            } else {
                assert(t[0] == prefix[0]);
                if prefix.len() <= w2 {
                    assert(false);
                }
            }
        }
    }
}

} // verus!
