//! Text as sequences of characters: conversions between strings and character
//! vectors, and decimal numerals.

use vstd::prelude::*;
use vstd::std_specs::iter::IteratorSpec;

verus! {

/// `String::push` of the standard library appends the character `c` to the
/// end of the string and changes nothing else.
pub assume_specification[ String::push ](s: &mut String, c: char)
    ensures
        final(s)@ == old(s)@.push(c),
;

/// The characters of `s`, in order.
pub fn chars_of(s: &str) -> (v: Vec<char>)
    ensures
        v@ == s@,
{
    broadcast use vstd::string::group_string_axioms;

    let mut v: Vec<char> = Vec::new();
    let mut it = s.chars();
    loop
        invariant
            it.obeys_prophetic_iter_laws(),
            it.decrease() is Some,
            v@ + it.remaining() == s@,
        ensures
            v@ == s@,
        decreases it.decrease()->0,
    {
        match it.next() {
            Some(c) => {
                v.push(c);
            },
            None => {
                assert(v@ + Seq::<char>::empty() == v@);
                break ;
            },
        }
    }
    v
}

/// The string made of `chars`, in order.
pub fn string_of(chars: &[char]) -> (s: String)
    ensures
        s@ == chars@,
{
    let mut s = String::new();
    let mut i: usize = 0;
    while i < chars.len()
        invariant
            i <= chars.len(),
            s@ == chars@.subrange(0, i as int),
        decreases chars.len() - i,
    {
        s.push(chars[i]);
        i += 1;
    }
    s
}

/// Appends the characters `tail[from..to]` to `buffer`.
pub fn push_range(buffer: &mut Vec<char>, tail: &[char], from: usize, to: usize)
    requires
        from <= to <= tail@.len(),
    ensures
        final(buffer)@ == old(buffer)@ + tail@.subrange(from as int, to as int),
{
    let mut i: usize = from;
    while i < to
        invariant
            from <= i <= to <= tail@.len(),
            buffer@ == old(buffer)@ + tail@.subrange(from as int, i as int),
        decreases to - i,
    {
        buffer.push(tail[i]);
        i += 1;
    }
}

/// Appends all of `tail` to `buffer`.
pub fn push_all(buffer: &mut Vec<char>, tail: &[char])
    ensures
        final(buffer)@ == old(buffer)@ + tail@,
{
    push_range(buffer, tail, 0, tail.len());
    assert(tail@.subrange(0, tail@.len() as int) == tail@);
}

/// Appends the characters of `tail` to `buffer`.
pub fn push_str(buffer: &mut Vec<char>, tail: &str)
    ensures
        final(buffer)@ == old(buffer)@ + tail@,
{
    let chars = chars_of(tail);
    push_all(buffer, chars.as_slice());
}

/// The character that writes the digit `d`.
pub open spec fn digit_char(d: nat) -> char
    recommends
        d < 10,
{
    (('0' as u8) + d) as char
}

/// The decimal numeral of `n`: its digits, most significant first, with no
/// leading zero unless `n` is zero.
pub open spec fn decimal(n: nat) -> Seq<char>
    decreases n,
{
    if n < 10 {
        seq![digit_char(n)]
    } else {
        decimal(n / 10).push(digit_char(n % 10))
    }
}

/// The decimal numeral of `n`, with a leading minus sign where `n` is negative.
pub open spec fn signed_decimal(n: int) -> Seq<char> {
    if n < 0 {
        seq!['-'] + decimal((-n) as nat)
    } else {
        decimal(n as nat)
    }
}

/// A decimal numeral is never empty.
pub proof fn lemma_decimal_nonempty(n: nat)
    ensures
        decimal(n).len() >= 1,
    decreases n,
{
    if n >= 10 {
        lemma_decimal_nonempty(n / 10);
    }
}

/// Whether `c` is one of the ten decimal digits.
pub open spec fn is_digit(c: char) -> bool {
    '0' <= c <= '9'
}

/// Every character of a decimal numeral is a digit.
pub proof fn lemma_decimal_digits(n: nat)
    ensures
        forall|i: int| 0 <= i < decimal(n).len() ==> is_digit(#[trigger] decimal(n)[i]),
    decreases n,
{
    if n >= 10 {
        lemma_decimal_digits(n / 10);
        let d = digit_char(n % 10);
        assert(is_digit(d));
        assert forall|i: int| 0 <= i < decimal(n).len() implies is_digit(
            #[trigger] decimal(n)[i],
        ) by {
            if i < decimal(n / 10).len() {
                assert(decimal(n)[i] == decimal(n / 10)[i]);
            } else {
                assert(decimal(n)[i] == d);
            }
        }
    } else {
        assert(is_digit(digit_char(n)));
    }
}

/// The character that writes the digit `d`.
fn digit_of(d: u8) -> (c: char)
    requires
        d < 10,
    ensures
        c == digit_char(d as nat),
{
    (48u8 + d) as char
}

/// Appends the decimal numeral of `n` to `buffer`.
pub fn push_decimal(buffer: &mut Vec<char>, n: u128)
    ensures
        final(buffer)@ == old(buffer)@ + decimal(n as nat),
{
    // The digits come out least significant first.
    let mut reversed: Vec<char> = Vec::new();
    let mut rest: u128 = n;
    while rest >= 10
        invariant
            decimal(n as nat) == decimal(rest as nat) + reversed@.reverse(),
        decreases rest,
    {
        let d: u8 = (rest % 10) as u8;
        let c = digit_of(d);
        let ghost before = reversed@;
        reversed.push(c);
        proof {
            assert(reversed@.reverse() == seq![c] + before.reverse());
            assert(decimal(rest as nat) == decimal((rest / 10) as nat).push(c));
            assert(decimal((rest / 10) as nat).push(c) + before.reverse() == decimal(
                (rest / 10) as nat,
            ) + (seq![c] + before.reverse()));
        }
        rest = rest / 10;
    }
    let first = digit_of(rest as u8);
    buffer.push(first);
    let ghost start = old(buffer)@;
    let mut i: usize = reversed.len();
    while i > 0
        invariant
            i <= reversed.len(),
            buffer@ == start + seq![first] + reversed@.reverse().subrange(
                0,
                reversed.len() - i,
            ),
        decreases i,
    {
        i -= 1;
        buffer.push(reversed[i]);
        proof {
            let r = reversed@.reverse();
            let k = reversed.len() - i;
            assert(r[k - 1] == reversed@[i as int]);
            assert(r.subrange(0, k) == r.subrange(0, k - 1).push(r[k - 1]));
        }
    }
    proof {
        let r = reversed@.reverse();
        assert(r.subrange(0, r.len() as int) == r);
        assert(decimal(rest as nat) == seq![first]);
        assert(start + seq![first] + r == start + (seq![first] + r));
    }
}

/// Appends the decimal numeral of `n`, signed where negative, to `buffer`.
pub fn push_signed_decimal(buffer: &mut Vec<char>, n: i32)
    ensures
        final(buffer)@ == old(buffer)@ + signed_decimal(n as int),
{
    if n < 0 {
        buffer.push('-');
        let magnitude: u128 = (-(n as i64)) as u128;
        push_decimal(buffer, magnitude);
        assert(old(buffer)@.push('-') + decimal(magnitude as nat) == old(buffer)@ + (seq!['-']
            + decimal(magnitude as nat)));
    } else {
        push_decimal(buffer, n as u128);
    }
}

} // verus!
