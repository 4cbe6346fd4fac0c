//! Wire-format encoding of pixels: the `PX <x> <y> <rrggbb>\n` command.
//!
//! The encoder is total over the pixel domain and injective; the companion
//! grammar in [`crate::encode::parse_px`] recovers the pixel from its
//! encoding (see [`lemma_px_round_trip`]).

use vstd::prelude::*;
use vstd::string::StringExecFns;

verus! {

use crate::types::Pixel;

/// The character for digit `d` in base 16 (decimal digits are the first ten).
pub open spec fn digit_char(d: nat) -> char
    recommends
        d < 16,
{
    if d == 0 {
        '0'
    } else if d == 1 {
        '1'
    } else if d == 2 {
        '2'
    } else if d == 3 {
        '3'
    } else if d == 4 {
        '4'
    } else if d == 5 {
        '5'
    } else if d == 6 {
        '6'
    } else if d == 7 {
        '7'
    } else if d == 8 {
        '8'
    } else if d == 9 {
        '9'
    } else if d == 10 {
        'a'
    } else if d == 11 {
        'b'
    } else if d == 12 {
        'c'
    } else if d == 13 {
        'd'
    } else if d == 14 {
        'e'
    } else {
        'f'
    }
}

/// The decimal digit characters of `n`, most significant first, with no
/// leading zero except for `n == 0` itself.
pub open spec fn dec_chars(n: nat) -> Seq<char>
    decreases n,
{
    if n < 10 {
        seq![digit_char(n)]
    } else {
        dec_chars(n / 10).push(digit_char(n % 10))
    }
}

/// The two lowercase hex digit characters of byte `b`, high nibble first.
pub open spec fn hex_byte_chars(b: nat) -> Seq<char>
    recommends
        b < 256,
{
    seq![digit_char(b / 16), digit_char(b % 16)]
}

/// The full wire command for one pixel:
/// `PX <decimal x> <decimal y> <6 lowercase hex digits>\n`.
pub open spec fn px_cmd_chars(p: Pixel) -> Seq<char> {
    seq!['P', 'X', ' '] + dec_chars(p.x as nat) + seq![' '] + dec_chars(p.y as nat) + seq![' ']
        + hex_byte_chars(p.color.r as nat) + hex_byte_chars(p.color.g as nat) + hex_byte_chars(
        p.color.b as nat,
    ) + seq!['\n']
}

/// True for the characters `0` through `9`.
pub open spec fn is_dec_digit(c: char) -> bool {
    ('0' as int) <= (c as int) && (c as int) <= ('9' as int)
}

/// The numeric value of a decimal digit character.
pub open spec fn char_val(c: char) -> nat
    recommends
        is_dec_digit(c),
{
    ((c as int) - ('0' as int)) as nat
}

/// True for the lowercase hex digit characters `0`-`9` and `a`-`f`.
pub open spec fn is_lhex_digit(c: char) -> bool {
    is_dec_digit(c) || (('a' as int) <= (c as int) && (c as int) <= ('f' as int))
}

/// The numeric value of a lowercase hex digit character.
pub open spec fn hex_val(c: char) -> nat
    recommends
        is_lhex_digit(c),
{
    if is_dec_digit(c) {
        char_val(c)
    } else {
        ((c as int) - ('a' as int) + 10) as nat
    }
}

/// Length of the longest prefix of `s` made of decimal digits.
pub open spec fn digit_run(s: Seq<char>) -> nat
    decreases s.len(),
{
    if s.len() == 0 || !is_dec_digit(s[0]) {
        0
    } else {
        (1 + digit_run(s.drop_first())) as nat
    }
}

/// The numeric value of a sequence of decimal digit characters.
pub open spec fn dec_val(s: Seq<char>) -> nat
    recommends
        forall|i: int| 0 <= i < s.len() ==> is_dec_digit(s[i]),
    decreases s.len(),
{
    if s.len() == 0 {
        0
    } else {
        dec_val(s.drop_last()) * 10 + char_val(s.last())
    }
}

/// The protocol's own grammar for a pixel command: the literal `PX `, a
/// decimal run, a space, a decimal run, a space, six lowercase hex digits,
/// and a newline. Returns the pixel the command sets, or `None` where the
/// text does not match.
pub open spec fn parse_px(s: Seq<char>) -> Option<(u32, u32, crate::types::Rgb)> {
    if s.len() < 3 || s[0] != 'P' || s[1] != 'X' || s[2] != ' ' {
        None
    } else {
        let r1 = s.skip(3);
        let n1 = digit_run(r1) as int;
        if n1 == 0 || n1 >= r1.len() || r1[n1] != ' ' || dec_val(r1.take(n1)) > u32::MAX {
            None
        } else {
            let x = dec_val(r1.take(n1));
            let r2 = r1.skip(n1 + 1);
            let n2 = digit_run(r2) as int;
            if n2 == 0 || n2 >= r2.len() || r2[n2] != ' ' || dec_val(r2.take(n2)) > u32::MAX {
                None
            } else {
                let y = dec_val(r2.take(n2));
                let r3 = r2.skip(n2 + 1);
                if r3.len() != 7 || !is_lhex_digit(r3[0]) || !is_lhex_digit(r3[1])
                    || !is_lhex_digit(r3[2]) || !is_lhex_digit(r3[3]) || !is_lhex_digit(r3[4])
                    || !is_lhex_digit(r3[5]) || r3[6] != '\n' {
                    None
                } else {
                    Some(
                        (
                            x as u32,
                            y as u32,
                            crate::types::Rgb {
                                r: (hex_val(r3[0]) * 16 + hex_val(r3[1])) as u8,
                                g: (hex_val(r3[2]) * 16 + hex_val(r3[3])) as u8,
                                b: (hex_val(r3[4]) * 16 + hex_val(r3[5])) as u8,
                            },
                        ),
                    )
                }
            }
        }
    }
}

/// Character and numeric value of a digit agree: `digit_char` and the digit
/// predicates and valuations invert each other.
pub proof fn lemma_digit_char_val(d: nat)
    requires
        d < 16,
    ensures
        is_lhex_digit(digit_char(d)),
        hex_val(digit_char(d)) == d,
        d < 10 ==> is_dec_digit(digit_char(d)) && char_val(digit_char(d)) == d,
        d >= 10 ==> !is_dec_digit(digit_char(d)),
{
}

/// The two hex digit characters of a byte recover the byte.
pub proof fn lemma_hex_byte_chars_val(b: nat)
    requires
        b < 256,
    ensures
        hex_byte_chars(b).len() == 2,
        is_lhex_digit(hex_byte_chars(b)[0]),
        is_lhex_digit(hex_byte_chars(b)[1]),
        hex_val(hex_byte_chars(b)[0]) * 16 + hex_val(hex_byte_chars(b)[1]) == b,
{
    lemma_digit_char_val(b / 16);
    lemma_digit_char_val(b % 16);
}

/// Every character of `dec_chars(n)` is a decimal digit, and there is at
/// least one of them.
pub proof fn lemma_dec_chars_digits(n: nat)
    ensures
        dec_chars(n).len() >= 1,
        forall|i: int| 0 <= i < dec_chars(n).len() ==> is_dec_digit(#[trigger] dec_chars(n)[i]),
    decreases n,
{
    if n < 10 {
        lemma_digit_char_val(n);
    } else {
        lemma_dec_chars_digits(n / 10);
        lemma_digit_char_val(n % 10);
    }
}

/// The decimal text of `n` evaluates back to `n`.
pub proof fn lemma_dec_val_dec_chars(n: nat)
    ensures
        dec_val(dec_chars(n)) == n,
    decreases n,
{
    if n < 10 {
        let s = dec_chars(n);
        lemma_digit_char_val(n);
        assert(s =~= seq![digit_char(n)]);
        assert(s.drop_last() =~= Seq::<char>::empty());
        assert(s.last() == digit_char(n));
        assert(dec_val(s.drop_last()) == 0);
        assert(dec_val(s) == dec_val(s.drop_last()) * 10 + char_val(s.last()));
        assert(dec_val(s) == n);
    } else {
        lemma_dec_val_dec_chars(n / 10);
        lemma_digit_char_val(n % 10);
        let s = dec_chars(n);
        assert(s =~= dec_chars(n / 10).push(digit_char(n % 10)));
        assert(s.drop_last() =~= dec_chars(n / 10));
        assert(s.last() == digit_char(n % 10));
        assert(dec_val(s) == dec_val(s.drop_last()) * 10 + char_val(s.last()));
        assert(dec_val(s) == (n / 10) * 10 + (n % 10));
        assert(n == (n / 10) * 10 + (n % 10));
        assert(dec_val(s) == n);
    }
}

/// A digit run stops exactly at the first non-digit: where `s` is all
/// digits and `t` starts with a non-digit, the run over `s + t` is `s`.
pub proof fn lemma_digit_run_exact(s: Seq<char>, t: Seq<char>)
    requires
        forall|i: int| 0 <= i < s.len() ==> is_dec_digit(#[trigger] s[i]),
        t.len() > 0,
        !is_dec_digit(t[0]),
    ensures
        digit_run(s + t) == s.len(),
    decreases s.len(),
{
    if s.len() == 0 {
        assert(s + t =~= t);
    } else {
        assert((s + t)[0] == s[0]);
        assert((s + t).drop_first() =~= s.drop_first() + t);
        lemma_digit_run_exact(s.drop_first(), t);
    }
}

/// The encoding of any pixel parses back, under the protocol's own grammar,
/// to exactly that pixel. With it, the encoder is injective.
#[verifier::rlimit(60)]
pub proof fn lemma_px_round_trip(p: Pixel)
    ensures
        parse_px(px_cmd_chars(p)) == Some((p.x, p.y, p.color)),
{
    let a = dec_chars(p.x as nat);
    let b = dec_chars(p.y as nat);
    let h = hex_byte_chars(p.color.r as nat) + hex_byte_chars(p.color.g as nat) + hex_byte_chars(
        p.color.b as nat,
    );
    let tail2 = b + seq![' '] + h + seq!['\n'];
    let s = px_cmd_chars(p);
    lemma_dec_chars_digits(p.x as nat);
    lemma_dec_chars_digits(p.y as nat);
    lemma_dec_val_dec_chars(p.x as nat);
    lemma_dec_val_dec_chars(p.y as nat);
    assert(s =~= seq!['P', 'X', ' '] + (a + (seq![' '] + tail2)));
    let r1 = s.skip(3);
    assert(r1 =~= a + (seq![' '] + tail2));
    lemma_digit_run_exact(a, seq![' '] + tail2);
    let n1 = digit_run(r1) as int;
    assert(n1 == a.len());
    assert(r1[n1] == ' ');
    assert(r1.take(n1) =~= a);
    let r2 = r1.skip(n1 + 1);
    assert(r2 =~= b + (seq![' '] + (h + seq!['\n'])));
    lemma_digit_run_exact(b, seq![' '] + (h + seq!['\n']));
    let n2 = digit_run(r2) as int;
    assert(n2 == b.len());
    assert(r2[n2] == ' ');
    assert(r2.take(n2) =~= b);
    let r3 = r2.skip(n2 + 1);
    assert(r3 =~= h + seq!['\n']);
    assert(r3.len() == 7);
    lemma_hex_byte_chars_val(p.color.r as nat);
    lemma_hex_byte_chars_val(p.color.g as nat);
    lemma_hex_byte_chars_val(p.color.b as nat);
    assert(r3[0] == hex_byte_chars(p.color.r as nat)[0]);
    assert(r3[1] == hex_byte_chars(p.color.r as nat)[1]);
    assert(r3[2] == hex_byte_chars(p.color.g as nat)[0]);
    assert(r3[3] == hex_byte_chars(p.color.g as nat)[1]);
    assert(r3[4] == hex_byte_chars(p.color.b as nat)[0]);
    assert(r3[5] == hex_byte_chars(p.color.b as nat)[1]);
    assert(r3[6] == '\n');
    assert(hex_val(r3[0]) * 16 + hex_val(r3[1]) == p.color.r);
    assert(hex_val(r3[2]) * 16 + hex_val(r3[3]) == p.color.g);
    assert(hex_val(r3[4]) * 16 + hex_val(r3[5]) == p.color.b);
}

/// Two distinct pixels never encode to the same command.
pub proof fn lemma_cmd_injective(p1: Pixel, p2: Pixel)
    ensures
        px_cmd_chars(p1) == px_cmd_chars(p2) ==> p1 == p2,
{
    if px_cmd_chars(p1) == px_cmd_chars(p2) {
        lemma_px_round_trip(p1);
        lemma_px_round_trip(p2);
    }
}

/// The one-character string for digit `d` in base 16.
fn digit_str(d: u8) -> (s: &'static str)
    requires
        d < 16,
    ensures
        s@ =~= seq![digit_char(d as nat)],
{
    proof {
        reveal_strlit("0");
        reveal_strlit("1");
        reveal_strlit("2");
        reveal_strlit("3");
        reveal_strlit("4");
        reveal_strlit("5");
        reveal_strlit("6");
        reveal_strlit("7");
        reveal_strlit("8");
        reveal_strlit("9");
        reveal_strlit("a");
        reveal_strlit("b");
        reveal_strlit("c");
        reveal_strlit("d");
        reveal_strlit("e");
        reveal_strlit("f");
    }
    match d {
        0 => "0",
        1 => "1",
        2 => "2",
        3 => "3",
        4 => "4",
        5 => "5",
        6 => "6",
        7 => "7",
        8 => "8",
        9 => "9",
        10 => "a",
        11 => "b",
        12 => "c",
        13 => "d",
        14 => "e",
        _ => "f",
    }
}

/// The decimal text of `n`, as [`dec_chars`] describes it.
pub fn u32_dec_string(n: u32) -> (s: String)
    ensures
        s@ == dec_chars(n as nat),
    decreases n,
{
    let last = digit_str((n % 10) as u8);
    if n < 10 {
        let s = String::from_str(last);
        proof {
            assert(s@ =~= dec_chars(n as nat));
        }
        s
    } else {
        let rest = u32_dec_string(n / 10);
        let s = rest.concat(last);
        proof {
            assert(s@ =~= dec_chars(n as nat));
        }
        s
    }
}

impl Pixel {
    /// Encodes this pixel as the wire command `PX <x> <y> <rrggbb>\n`.
    pub fn to_cmd(&self) -> (cmd: String)
        ensures
            cmd@ == px_cmd_chars(*self),
    {
        proof {
            reveal_strlit("PX ");
            reveal_strlit(" ");
            reveal_strlit("\n");
        }
        let mut s = String::from_str("PX ");
        let xs = u32_dec_string(self.x);
        s.append(xs.as_str());
        s.append(" ");
        let ys = u32_dec_string(self.y);
        s.append(ys.as_str());
        s.append(" ");
        s.append(digit_str(self.color.r / 16));
        s.append(digit_str(self.color.r % 16));
        s.append(digit_str(self.color.g / 16));
        s.append(digit_str(self.color.g % 16));
        s.append(digit_str(self.color.b / 16));
        s.append(digit_str(self.color.b % 16));
        s.append("\n");
        proof {
            assert(s@ =~= px_cmd_chars(*self));
        }
        s
    }
}

} // verus!
