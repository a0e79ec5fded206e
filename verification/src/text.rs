//! Rendering of integers and byte strings as source text.

use vstd::prelude::*;

verus! {

/// The character that stands for a digit value below sixteen, in lower case.
pub open spec fn lower_digit(d: int) -> char {
    if d == 0 { '0' } else if d == 1 { '1' } else if d == 2 { '2' } else if d == 3 { '3' }
    else if d == 4 { '4' } else if d == 5 { '5' } else if d == 6 { '6' } else if d == 7 { '7' }
    else if d == 8 { '8' } else if d == 9 { '9' } else if d == 10 { 'a' } else if d == 11 { 'b' }
    else if d == 12 { 'c' } else if d == 13 { 'd' } else if d == 14 { 'e' } else { 'f' }
}

/// The character that stands for a digit value below sixteen, in upper case.
pub open spec fn upper_digit(d: int) -> char {
    if d == 10 { 'A' } else if d == 11 { 'B' } else if d == 12 { 'C' } else if d == 13 { 'D' }
    else if d == 14 { 'E' } else if d == 15 { 'F' } else { lower_digit(d) }
}

/// The digits of `n` in base ten, most significant first, without padding.
pub open spec fn decimal(n: nat) -> Seq<char>
    decreases n,
{
    if n < 10 {
        seq![lower_digit(n as int)]
    } else {
        decimal(n / 10).push(lower_digit((n % 10) as int))
    }
}

/// The digits of `n` in base sixteen, upper case, most significant first, without padding.
pub open spec fn upper_hex(n: nat) -> Seq<char>
    decreases n,
{
    if n < 16 {
        seq![upper_digit(n as int)]
    } else {
        upper_hex(n / 16).push(upper_digit((n % 16) as int))
    }
}

/// Exactly `width` lower-case hexadecimal digits of `n`, most significant first: the value of
/// `n` modulo `16^width`, padded with zeros.
pub open spec fn fixed_hex(n: nat, width: nat) -> Seq<char>
    decreases width,
{
    if width == 0 {
        Seq::empty()
    } else {
        fixed_hex(n / 16, (width - 1) as nat).push(lower_digit((n % 16) as int))
    }
}

/// Sixteen to the power `e`.
pub open spec fn pow16(e: nat) -> nat
    decreases e,
{
    if e == 0 {
        1
    } else {
        16 * pow16((e - 1) as nat)
    }
}

/// A list of byte literals as it stands between the brackets of an array expression:
/// each byte in decimal with the suffix `u8`, separated by a comma and a space.
pub open spec fn byte_list(bytes: Seq<u8>) -> Seq<char>
    decreases bytes.len(),
{
    if bytes.len() == 0 {
        Seq::empty()
    } else if bytes.len() == 1 {
        decimal(bytes[0] as nat) + "u8"@
    } else {
        byte_list(bytes.drop_last()) + ", "@ + decimal(bytes.last() as nat) + "u8"@
    }
}

/// True for the characters that may stand in an identifier behind its first: letters, digits
/// and the underscore.
pub open spec fn is_ident_continue(c: char) -> bool {
    ('a' <= c && c <= 'z') || ('A' <= c && c <= 'Z') || ('0' <= c && c <= '9') || c == '_'
}

/// True for the characters that may start an identifier: letters and the underscore.
pub open spec fn is_ident_start(c: char) -> bool {
    ('a' <= c && c <= 'z') || ('A' <= c && c <= 'Z') || c == '_'
}

/// The lower-case digit for a value below sixteen, as text.
pub fn lower_digit_str(d: u8) -> (s: &'static str)
    requires
        d < 16,
    ensures
        s@ == seq![lower_digit(d as int)],
{
    proof {
        reveal_strlit("0"); reveal_strlit("1"); reveal_strlit("2"); reveal_strlit("3");
        reveal_strlit("4"); reveal_strlit("5"); reveal_strlit("6"); reveal_strlit("7");
        reveal_strlit("8"); reveal_strlit("9"); reveal_strlit("a"); reveal_strlit("b");
        reveal_strlit("c"); reveal_strlit("d"); reveal_strlit("e"); reveal_strlit("f");
    }
    let s = if d == 0 { "0" } else if d == 1 { "1" } else if d == 2 { "2" } else if d == 3 { "3" }
    else if d == 4 { "4" } else if d == 5 { "5" } else if d == 6 { "6" } else if d == 7 { "7" }
    else if d == 8 { "8" } else if d == 9 { "9" } else if d == 10 { "a" } else if d == 11 { "b" }
    else if d == 12 { "c" } else if d == 13 { "d" } else if d == 14 { "e" } else { "f" };
    assert(s@ =~= seq![lower_digit(d as int)]);
    s
}

/// The upper-case digit for a value below sixteen, as text.
pub fn upper_digit_str(d: u8) -> (s: &'static str)
    requires
        d < 16,
    ensures
        s@ == seq![upper_digit(d as int)],
{
    if d < 10 {
        lower_digit_str(d)
    } else {
        proof {
            reveal_strlit("A"); reveal_strlit("B"); reveal_strlit("C");
            reveal_strlit("D"); reveal_strlit("E"); reveal_strlit("F");
        }
        let s = if d == 10 { "A" } else if d == 11 { "B" } else if d == 12 { "C" }
        else if d == 13 { "D" } else if d == 14 { "E" } else { "F" };
        assert(s@ =~= seq![upper_digit(d as int)]);
        s
    }
}

/// Appends the decimal digits of `n` to `out`.
pub fn push_decimal(out: &mut String, n: u64)
    ensures
        final(out)@ == old(out)@ + decimal(n as nat),
    decreases n,
{
    if n >= 10 {
        push_decimal(out, n / 10);
    }
    let d = (n % 10) as u8;
    out.append(lower_digit_str(d));
    assert(final(out)@ =~= old(out)@ + decimal(n as nat));
}

/// Appends the upper-case hexadecimal digits of `n` to `out`.
pub fn push_upper_hex(out: &mut String, n: u64)
    ensures
        final(out)@ == old(out)@ + upper_hex(n as nat),
    decreases n,
{
    if n >= 16 {
        push_upper_hex(out, n / 16);
    }
    let d = (n % 16) as u8;
    out.append(upper_digit_str(d));
    assert(final(out)@ =~= old(out)@ + upper_hex(n as nat));
}

/// Appends exactly `width` lower-case hexadecimal digits that spell `n` modulo `16^width`,
/// zeros included.
pub fn push_fixed_hex(out: &mut String, n: u64, width: u32)
    ensures
        final(out)@ == old(out)@ + fixed_hex(n as nat, width as nat),
    decreases width,
{
    if width > 0 {
        push_fixed_hex(out, n / 16, width - 1);
        let d = (n % 16) as u8;
        out.append(lower_digit_str(d));
    }
    assert(final(out)@ =~= old(out)@ + fixed_hex(n as nat, width as nat));
}

/// Appends `bytes` as a list of byte literals.
pub fn push_byte_list(out: &mut String, bytes: &[u8])
    ensures
        final(out)@ == old(out)@ + byte_list(bytes@),
{
    let ghost start = out@;
    let mut i: usize = 0;
    assert(bytes@.take(0) =~= Seq::<u8>::empty());
    while i < bytes.len()
        invariant
            i <= bytes.len(),
            out@ == start + byte_list(bytes@.take(i as int)),
        decreases bytes.len() - i,
    {
        if i > 0 {
            out.append(", ");
        }
        push_decimal(out, bytes[i] as u64);
        out.append("u8");
        proof {
            let next = bytes@.take(i + 1);
            assert(next.drop_last() =~= bytes@.take(i as int));
            assert(next.last() == bytes[i as int]);
            assert(out@ =~= start + byte_list(next));
        }
        i = i + 1;
    }
    assert(bytes@.take(bytes.len() as int) =~= bytes@);
}

} // verus!
