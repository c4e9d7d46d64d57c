//! Lower-case hexadecimal numerals.
use vstd::prelude::*;
use vstd::string::{StrSliceExecFns, StringExecFns};

verus! {

/// A character `0`-`9`, `a`-`f` for a digit below sixteen.
pub open spec fn hex_digit(d: nat) -> char {
    if d < 10 {
        (48 + d) as char
    } else {
        (87 + d) as char
    }
}

/// The lower-case hexadecimal numeral of `n`, without leading zeros.
pub open spec fn lower_hex(n: nat) -> Seq<char>
    decreases n,
{
    if n < 16 {
        seq![hex_digit(n)]
    } else {
        lower_hex(n / 16).push(hex_digit(n % 16))
    }
}

/// The two lower-case hexadecimal digits of a byte, high digit first.
pub open spec fn byte_hex(b: u8) -> Seq<char> {
    seq![hex_digit(b as nat / 16), hex_digit(b as nat % 16)]
}

/// Appends the hexadecimal digit `d` to `out`.
fn append_hex_digit(out: &mut String, d: u64)
    requires
        d < 16,
    ensures
        final(out)@ == old(out)@.push(hex_digit(d as nat)),
{
    let digits = "0123456789abcdef";
    proof {
        reveal_strlit("0123456789abcdef");
    }
    let i = d as usize;
    let digit = digits.substring_char(i, i + 1);
    proof {
        let s = digits@;
        assert(s.len() == 16);
        assert(digit@ =~= seq![s[i as int]]);
        assert(s[i as int] == hex_digit(d as nat)) by {
            assert(s[0] == '0' && s[1] == '1' && s[2] == '2' && s[3] == '3');
            assert(s[4] == '4' && s[5] == '5' && s[6] == '6' && s[7] == '7');
            assert(s[8] == '8' && s[9] == '9' && s[10] == 'a' && s[11] == 'b');
            assert(s[12] == 'c' && s[13] == 'd' && s[14] == 'e' && s[15] == 'f');
        }
    }
    out.append(digit);
    assert(out@ =~= old(out)@.push(hex_digit(d as nat)));
}

/// Appends the hexadecimal numeral of `n` to `out`.
fn append_lower_hex(out: &mut String, n: u64)
    ensures
        final(out)@ == old(out)@ + lower_hex(n as nat),
    decreases n,
{
    if n >= 16 {
        append_lower_hex(out, n / 16);
        append_hex_digit(out, n % 16);
        assert(out@ =~= old(out)@ + lower_hex(n as nat));
    } else {
        append_hex_digit(out, n);
        assert(out@ =~= old(out)@ + lower_hex(n as nat));
    }
}

/// The lower-case hexadecimal numeral of `n`, without leading zeros (what
/// `format!("{:x}", n)` writes).
pub fn format_lower_hex(n: u64) -> (r: String)
    ensures
        r@ == lower_hex(n as nat),
{
    let mut out = String::new();
    append_lower_hex(&mut out, n);
    assert(out@ =~= lower_hex(n as nat));
    out
}

/// The two lower-case hexadecimal digits of a byte (what
/// `format!("{:02x}", b)` writes).
pub fn format_byte_hex(b: u8) -> (r: String)
    ensures
        r@ == byte_hex(b),
{
    let mut out = String::new();
    append_hex_digit(&mut out, (b / 16) as u64);
    append_hex_digit(&mut out, (b % 16) as u64);
    assert(out@ =~= byte_hex(b));
    out
}

} // verus!
