//! Building text: the two `String` methods that the library needs, and the
//! decimal and hexadecimal spellings of numbers.

use vstd::prelude::*;

verus! {

/// Calls `String::push`, which appends the character to the end of the
/// string.
#[verifier::external_body]
pub(crate) fn string_push(s: &mut String, c: char)
    ensures
        final(s)@ == old(s)@.push(c),
{
    s.push(c);
}

/// Calls `String::push_str`, which appends the slice to the end of the
/// string.
#[verifier::external_body]
pub(crate) fn string_push_str(s: &mut String, tail: &str)
    ensures
        final(s)@ == old(s)@ + tail@,
{
    s.push_str(tail);
}

/// The character that spells a digit below sixteen, in lower case.
pub open spec fn hex_char(d: nat) -> char
    recommends
        d < 16,
{
    if d < 10 {
        (d + 48) as char
    } else {
        (d + 87) as char
    }
}

/// The digit that a byte of text spells in base sixteen, if it spells one.
/// Both cases of the letters are read.
pub open spec fn hex_digit(c: u8) -> Option<u8> {
    if 48 <= c <= 57 {
        Some((c - 48) as u8)
    } else if 97 <= c <= 102 {
        Some((c - 87) as u8)
    } else if 65 <= c <= 70 {
        Some((c - 55) as u8)
    } else {
        None
    }
}

/// Whether every byte of `s` spells a digit in base sixteen.
pub open spec fn is_hex(s: Seq<u8>) -> bool {
    forall|i: int| 0 <= i < s.len() ==> (#[trigger] hex_digit(s[i])) is Some
}

/// The shortest spelling of `v` in base sixteen, lower case: no leading
/// zero, and `0` for zero.
pub open spec fn hex_digits(v: nat) -> Seq<char>
    decreases v,
{
    if v < 16 {
        seq![hex_char(v)]
    } else {
        hex_digits(v / 16).push(hex_char(v % 16))
    }
}

/// The spelling of `v` in base ten: no leading zero, and `0` for zero.
pub open spec fn decimal_digits(v: nat) -> Seq<char>
    decreases v,
{
    if v < 10 {
        seq![((v + 48) as u8) as char]
    } else {
        decimal_digits(v / 10).push((((v % 10) + 48) as u8) as char)
    }
}

/// The number that a run of decimal digits spells; `None` where a byte is no
/// digit or the run is empty.
pub open spec fn decimal_value(s: Seq<u8>) -> Option<nat>
    decreases s.len(),
{
    if s.len() == 0 {
        None
    } else if !(48 <= s.last() <= 57) {
        None
    } else if s.len() == 1 {
        Some((s.last() - 48) as nat)
    } else {
        match decimal_value(s.drop_last()) {
            Some(high) => Some(high * 10 + (s.last() - 48) as nat),
            None => None,
        }
    }
}

/// The number that a decimal text spells: decimal digits, with or without
/// one `+` before them.
pub open spec fn number_value(s: Seq<u8>) -> Option<nat> {
    if s.len() > 0 && s[0] == 43 {
        decimal_value(s.skip(1))
    } else {
        decimal_value(s)
    }
}

/// Reads a number from the bytes of a decimal text, with or without one `+`
/// before its digits. The number must be at most `max`.
pub fn parse_number(s: &[u8], max: u128) -> (r: Option<u128>)
    ensures
        r is Some <==> (number_value(s@) is Some && number_value(s@)->Some_0 <= max),
        r is Some ==> r->Some_0 == number_value(s@)->Some_0,
{
    if s.len() > 0 && s[0] == 43 {
        let digits = vstd::slice::slice_subrange(s, 1, s.len());
        assert(digits@ =~= s@.skip(1));
        parse_decimal(digits, max)
    } else {
        parse_decimal(s, max)
    }
}

fn hex_char_of(d: u8) -> (c: char)
    requires
        d < 16,
    ensures
        c == hex_char(d as nat),
{
    if d < 10 {
        (d + 48) as char
    } else {
        (d + 87) as char
    }
}

/// Appends the shortest spelling of `v` in base sixteen to `s`.
pub fn push_hex(s: &mut String, v: u128)
    ensures
        final(s)@ == old(s)@ + hex_digits(v as nat),
    decreases v,
{
    if v < 16 {
        string_push(s, hex_char_of(v as u8));
        assert(old(s)@.push(hex_char(v as nat)) =~= old(s)@ + hex_digits(v as nat));
    } else {
        push_hex(s, v / 16);
        string_push(s, hex_char_of((v % 16) as u8));
        assert(final(s)@ =~= old(s)@ + hex_digits(v as nat));
    }
}

/// Appends the spelling of `v` in base ten to `s`.
pub fn push_decimal(s: &mut String, v: u128)
    ensures
        final(s)@ == old(s)@ + decimal_digits(v as nat),
    decreases v,
{
    if v < 10 {
        string_push(s, ((v as u8) + 48) as char);
        assert(final(s)@ =~= old(s)@ + decimal_digits(v as nat));
    } else {
        push_decimal(s, v / 10);
        string_push(s, (((v % 10) as u8) + 48) as char);
        assert(final(s)@ =~= old(s)@ + decimal_digits(v as nat));
    }
}

/// Reads a number in base ten from the bytes of a text. The text must be one
/// or more decimal digits, and the number must be at most `max`.
pub fn parse_decimal(s: &[u8], max: u128) -> (r: Option<u128>)
    ensures
        r is Some <==> (decimal_value(s@) is Some && decimal_value(s@)->Some_0 <= max),
        r is Some ==> r->Some_0 == decimal_value(s@)->Some_0,
{
    if s.len() == 0 {
        return None;
    }
    let mut acc: u128 = 0;
    let mut i: usize = 0;
    while i < s.len()
        invariant
            i <= s.len(),
            i > 0 ==> decimal_value(s@.take(i as int)) == Some(acc as nat),
            i == 0 ==> acc == 0,
            acc <= max,
        decreases s.len() - i,
    {
        let c = s[i];
        proof {
            lemma_decimal_prefix(s@, i as int + 1);
            assert(s@.take(i as int + 1).drop_last() =~= s@.take(i as int));
        }
        if c < 48 || c > 57 {
            return None;
        }
        let d: u128 = (c - 48) as u128;
        proof {
            let t = s@.take(i as int + 1);
            assert(t.last() == c);
            assert(t.len() == i + 1);
            assert(decimal_value(t) == Some((acc * 10 + d) as nat));
        }
        let next: Option<u128> = match acc.checked_mul(10) {
            Some(m) => m.checked_add(d),
            None => None,
        };
        let fits: bool = match next {
            Some(n) => n <= max,
            None => false,
        };
        if !fits {
            proof {
                if decimal_value(s@) is Some {
                    lemma_decimal_grows(s@, i as int + 1);
                }
            }
            return None;
        }
        acc = acc * 10 + d;
        i += 1;
    }
    assert(s@.take(i as int) =~= s@);
    Some(acc)
}

/// Where a text spells a number, each prefix that ends inside it is decided
/// by its own last byte and the prefix before it.
proof fn lemma_decimal_prefix(s: Seq<u8>, n: int)
    requires
        0 < n <= s.len(),
    ensures
        decimal_value(s) is Some ==> decimal_value(s.take(n)) is Some,
    decreases s.len(),
{
    if n < s.len() {
        if decimal_value(s) is Some {
            assert(s.len() > 1);
            lemma_decimal_prefix(s.drop_last(), n);
            assert(s.drop_last().take(n) =~= s.take(n));
        }
    } else {
        assert(s.take(n) =~= s);
    }
}

/// A text spells no less than any of its prefixes.
proof fn lemma_decimal_grows(s: Seq<u8>, n: int)
    requires
        0 < n <= s.len(),
        decimal_value(s) is Some,
    ensures
        decimal_value(s.take(n)) is Some,
        decimal_value(s.take(n))->Some_0 <= decimal_value(s)->Some_0,
    decreases s.len(),
{
    if n < s.len() {
        lemma_decimal_grows(s.drop_last(), n);
        assert(s.drop_last().take(n) =~= s.take(n));
    } else {
        assert(s.take(n) =~= s);
    }
}

} // verus!
