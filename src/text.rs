//! Text building blocks shared by the reports: tab prefixes, decimal and
//! hexadecimal digits.

use vstd::prelude::*;
use vstd::string::StringExecFns;

verus! {

/// `n` tab characters.
pub open spec fn tabs(n: nat) -> Seq<char>
    decreases n,
{
    if n == 0 {
        Seq::empty()
    } else {
        tabs((n - 1) as nat).push('\t')
    }
}

/// The digits of base 16, upper case; the first ten are the decimal digits.
pub open spec fn digit_table() -> Seq<char> {
    seq!['0', '1', '2', '3', '4', '5', '6', '7', '8', '9', 'A', 'B', 'C', 'D', 'E', 'F']
}

/// The character of digit `d`, for `d < 16`.
pub open spec fn digit_char(d: nat) -> char {
    digit_table()[d as int]
}

/// The decimal text of `n`, without sign or leading zeros.
pub open spec fn dec_text(n: nat) -> Seq<char>
    decreases n,
{
    if n < 10 {
        seq![digit_char(n)]
    } else {
        dec_text(n / 10).push(digit_char(n % 10))
    }
}

/// The decimal text of a signed integer: a `-` before the magnitude when negative.
pub open spec fn signed_text(v: int) -> Seq<char> {
    if v < 0 {
        seq!['-'] + dec_text((-v) as nat)
    } else {
        dec_text(v as nat)
    }
}

/// Two upper-case hexadecimal digits of a byte.
pub open spec fn hex_byte(b: u8) -> Seq<char> {
    seq![digit_char((b / 16) as nat), digit_char((b % 16) as nat)]
}

/// A string of `layer` tab characters: the indentation of one nesting level.
pub fn gen_layer_prefix(layer: usize) -> (r: String)
    ensures
        r@ == tabs(layer as nat),
{
    let mut res = String::new();
    let mut i: usize = 0;
    while i < layer
        invariant
            i <= layer,
            res@ == tabs(i as nat),
        decreases layer - i,
    {
        res.append("\t");
        proof {
            reveal_strlit("\t");
        }
        i = i + 1;
    }
    res
}

/// Appends `n` tab characters to `out`.
pub fn push_tabs(out: &mut String, n: usize)
    ensures
        final(out)@ == old(out)@ + tabs(n as nat),
{
    let prefix = gen_layer_prefix(n);
    out.append(prefix.as_str());
}

/// The one-character string of digit `d`.
fn digit_str(d: u8) -> (r: &'static str)
    requires
        d < 16,
    ensures
        r@ == seq![digit_char(d as nat)],
{
    let r = match d {
        0 => "0",
        1 => "1",
        2 => "2",
        3 => "3",
        4 => "4",
        5 => "5",
        6 => "6",
        7 => "7",
        8 => "8",
        9 => "9",
        10 => "A",
        11 => "B",
        12 => "C",
        13 => "D",
        14 => "E",
        _ => "F",
    };
    proof {
        reveal_strlit("0");
        reveal_strlit("1");
        reveal_strlit("2");
        reveal_strlit("3");
        reveal_strlit("4");
        reveal_strlit("5");
        reveal_strlit("6");
        reveal_strlit("7");
        reveal_strlit("8");
        reveal_strlit("9");
        reveal_strlit("A");
        reveal_strlit("B");
        reveal_strlit("C");
        reveal_strlit("D");
        reveal_strlit("E");
        reveal_strlit("F");
    }
    r
}

/// Appends the decimal text of `n` to `out`.
pub fn push_decimal(out: &mut String, n: u64)
    ensures
        final(out)@ == old(out)@ + dec_text(n as nat),
    decreases n,
{
    if n >= 10 {
        push_decimal(out, n / 10);
    }
    let d = digit_str((n % 10) as u8);
    out.append(d);
    proof {
        if n >= 10 {
            assert(dec_text(n as nat) == dec_text((n / 10) as nat).push(digit_char((n % 10) as nat)));
        }
    }
    assert(final(out)@ =~= old(out)@ + dec_text(n as nat));
}

/// Appends the decimal text of the signed integer `v` to `out`.
pub fn push_signed(out: &mut String, v: i64)
    ensures
        final(out)@ == old(out)@ + signed_text(v as int),
{
    if v < 0 {
        out.append("-");
        proof {
            reveal_strlit("-");
        }
        let magnitude: u64 = (0i128 - v as i128) as u64;
        push_decimal(out, magnitude);
        assert(final(out)@ =~= old(out)@ + signed_text(v as int));
    } else {
        push_decimal(out, v as u64);
    }
}

/// Appends the two hexadecimal digits of `b` and a space to `out`.
pub fn push_hex_byte(out: &mut String, b: u8)
    ensures
        final(out)@ == old(out)@ + hex_byte(b) + seq![' '],
{
    out.append(digit_str(b / 16));
    out.append(digit_str(b % 16));
    out.append(" ");
    proof {
        reveal_strlit(" ");
    }
    assert(final(out)@ =~= old(out)@ + hex_byte(b) + seq![' ']);
}

} // verus!
