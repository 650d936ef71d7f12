//! Text building blocks: decimal and hexadecimal renderings.

use vstd::prelude::*;

verus! {

/// The decimal digit character for `d`.
pub open spec fn digit_char(d: nat) -> char {
    (('0' as u32) + d) as char
}

/// The usual decimal rendering of `n`: no sign, no leading zeros, "0" for zero.
pub open spec fn decimal(n: nat) -> Seq<char>
    decreases n,
{
    if n < 10 {
        seq![digit_char(n)]
    } else {
        decimal(n / 10).push(digit_char(n % 10))
    }
}

fn digit_string(d: usize) -> (s: String)
    requires
        d < 10,
    ensures
        s@ == seq![digit_char(d as nat)],
{
    let digits = "0123456789";
    proof {
        reveal_strlit("0123456789");
    }
    String::from_str(digits.substring_char(d, d + 1))
}

/// Renders `n` in decimal, as `n.to_string()` does.
pub fn decimal_string(n: usize) -> (s: String)
    ensures
        s@ == decimal(n as nat),
    decreases n,
{
    if n < 10 {
        digit_string(n)
    } else {
        let mut s = decimal_string(n / 10);
        let d = digit_string(n % 10);
        s.append(d.as_str());
        s
    }
}

/// The lower-case hexadecimal digit character for `d` (`d < 16`).
pub open spec fn hex_digit_char(d: nat) -> char {
    if d < 10 {
        (('0' as u32) + d) as char
    } else {
        (('a' as u32) + (d - 10)) as char
    }
}

/// Lower-case hexadecimal rendering of a byte string: two digits per byte,
/// high nibble first, as `{:02x}` writes each byte.
pub open spec fn lower_hex(bytes: Seq<u8>) -> Seq<char>
    decreases bytes.len(),
{
    if bytes.len() == 0 {
        Seq::empty()
    } else {
        let b = bytes.last();
        lower_hex(bytes.drop_last()) + seq![
            hex_digit_char((b / 16) as nat),
            hex_digit_char((b % 16) as nat),
        ]
    }
}

/// A lower-case hexadecimal digit: `0` to `9` or `a` to `f`.
pub open spec fn is_lower_hex_digit(c: char) -> bool {
    (('0' as u32) <= (c as u32) <= ('9' as u32)) || (('a' as u32) <= (c as u32) <= ('f' as u32))
}

/// The hexadecimal rendering of `bytes` has two characters per byte, and each
/// of them is a lower-case hexadecimal digit.
pub proof fn lemma_lower_hex_digits(bytes: Seq<u8>)
    ensures
        lower_hex(bytes).len() == 2 * bytes.len(),
        forall|i: int|
            0 <= i < lower_hex(bytes).len() ==> is_lower_hex_digit(#[trigger] lower_hex(bytes)[i]),
    decreases bytes.len(),
{
    if bytes.len() > 0 {
        let rest = bytes.drop_last();
        lemma_lower_hex_digits(rest);
        let b = bytes.last();
        let hi = hex_digit_char((b / 16) as nat);
        let lo = hex_digit_char((b % 16) as nat);
        assert(is_lower_hex_digit(hi));
        assert(is_lower_hex_digit(lo));
        let h = lower_hex(bytes);
        assert(h == lower_hex(rest) + seq![hi, lo]);
        assert forall|i: int| 0 <= i < h.len() implies is_lower_hex_digit(#[trigger] h[i]) by {
            if i < lower_hex(rest).len() {
                assert(h[i] == lower_hex(rest)[i]);
            }
        }
    }
}

fn hex_digit_string(d: u8) -> (s: String)
    requires
        d < 16,
    ensures
        s@ == seq![hex_digit_char(d as nat)],
{
    let digits = "0123456789abcdef";
    proof {
        reveal_strlit("0123456789abcdef");
    }
    String::from_str(digits.substring_char(d as usize, d as usize + 1))
}

/// Renders `bytes` in lower-case hexadecimal, two digits per byte.
pub fn bytes_to_lower_hex(bytes: &[u8]) -> (s: String)
    ensures
        s@ == lower_hex(bytes@),
{
    let mut s = String::new();
    let mut i: usize = 0;
    while i < bytes.len()
        invariant
            i <= bytes@.len(),
            s@ == lower_hex(bytes@.take(i as int)),
        decreases bytes@.len() - i,
    {
        let b = bytes[i];
        let hi = hex_digit_string(b / 16);
        let lo = hex_digit_string(b % 16);
        s.append(hi.as_str());
        s.append(lo.as_str());
        assert(bytes@.take(i as int + 1).drop_last() =~= bytes@.take(i as int));
        i = i + 1;
    }
    assert(bytes@.take(bytes@.len() as int) =~= bytes@);
    s
}

} // verus!
