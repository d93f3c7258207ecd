//! The capture sentinel.
//!
//! Before the copy gesture is synthesized, a sentinel is written into the
//! clipboard so that "no new selection occurred" can be told apart from "the
//! selection equals the previous clipboard content". The sentinel carries a
//! fixed marker and the start instant of the capture in decimal, so captures
//! started at different instants never share one.

use vstd::prelude::*;

verus! {

/// The decimal digit character for `d`.
pub open spec fn digit_char(d: u8) -> char
    recommends
        d < 10,
{
    (48 + d) as char
}

/// The decimal digits of `n`, most significant first.
pub open spec fn dec_digits(n: nat) -> Seq<char>
    decreases n,
{
    if n < 10 {
        seq![digit_char(n as u8)]
    } else {
        dec_digits(n / 10).push(digit_char((n % 10) as u8))
    }
}

/// Decimal representations are never empty, and numbers of ten or more take
/// at least two digits.
pub proof fn lemma_dec_digits_len(n: nat)
    ensures
        dec_digits(n).len() >= 1,
        n >= 10 ==> dec_digits(n).len() >= 2,
    decreases n,
{
    if n >= 10 {
        lemma_dec_digits_len(n / 10);
    }
}

/// Decimal representation is injective.
pub proof fn lemma_dec_digits_injective(a: nat, b: nat)
    requires
        dec_digits(a) == dec_digits(b),
    ensures
        a == b,
    decreases a,
{
    lemma_dec_digits_len(a);
    lemma_dec_digits_len(b);
    if a < 10 && b < 10 {
        assert(dec_digits(a) == seq![digit_char(a as u8)]);
        assert(dec_digits(b) == seq![digit_char(b as u8)]);
        assert(seq![digit_char(a as u8)][0] == digit_char(a as u8));
        assert(seq![digit_char(b as u8)][0] == digit_char(b as u8));
        assert(digit_char(a as u8) == digit_char(b as u8));
        assert((48 + a as u8) as char as u32 == (48 + b as u8) as char as u32);
    } else if a >= 10 && b >= 10 {
        assert(dec_digits(a) == dec_digits(a / 10).push(digit_char((a % 10) as u8)));
        assert(dec_digits(b) == dec_digits(b / 10).push(digit_char((b % 10) as u8)));
        assert(dec_digits(a).last() == digit_char((a % 10) as u8));
        assert(dec_digits(b).last() == digit_char((b % 10) as u8));
        assert(digit_char((a % 10) as u8) == digit_char((b % 10) as u8));
        assert((48 + (a % 10) as u8) as char as u32 == (48 + (b % 10) as u8) as char as u32);
        assert(a % 10 == b % 10);
        assert(dec_digits(a).drop_last() =~= dec_digits(a / 10));
        assert(dec_digits(b).drop_last() =~= dec_digits(b / 10));
        lemma_dec_digits_injective(a / 10, b / 10);
        assert(a == 10 * (a / 10) + a % 10);
        assert(b == 10 * (b / 10) + b % 10);
    } else if a < 10 {
        assert(dec_digits(a).len() == 1);
        assert(dec_digits(b).len() >= 2);
    } else {
        assert(dec_digits(b).len() == 1);
        assert(dec_digits(a).len() >= 2);
    }
}

/// Relies on `String::push`: appends the one character at the end.
#[verifier::external_body]
fn push_char(s: &mut String, c: char)
    ensures
        final(s)@ == old(s)@.push(c),
{
    s.push(c);
}

/// The decimal digit character for `d`, matching `digit_char`.
fn digit_char_of(d: u8) -> (c: char)
    requires
        d < 10,
    ensures
        c == digit_char(d),
{
    (48 + d) as char
}

/// The decimal text of `n`, matching `dec_digits`.
pub fn decimal_string(n: u64) -> (r: String)
    ensures
        r@ == dec_digits(n as nat),
    decreases n,
{
    if n < 10 {
        let mut s = String::new();
        push_char(&mut s, digit_char_of(n as u8));
        proof {
            assert(s@ =~= dec_digits(n as nat));
        }
        s
    } else {
        let mut s = decimal_string(n / 10);
        push_char(&mut s, digit_char_of((n % 10) as u8));
        s
    }
}

/// The fixed marker every sentinel carries; a sample still holding it is
/// classified as the sentinel, never as a genuine selection.
pub open spec fn sentinel_marker() -> Seq<char> {
    seq![
        '_',
        '_',
        'E',
        'R',
        'U',
        'D',
        'A',
        'I',
        'T',
        'E',
        '_',
        'S',
        'E',
        'N',
        'T',
        'I',
        'N',
        'E',
        'L',
        '_',
        '_',
    ]
}

/// The sentinel for a capture started at `now_ms`: the marker, the start
/// instant in decimal, and a closing underscore pair.
pub open spec fn sentinel_of(now_ms: u64) -> Seq<char> {
    sentinel_marker() + dec_digits(now_ms as nat) + seq!['_', '_']
}

/// A fresh sentinel for a capture started at `now_ms`.
pub fn sentinel_for(now_ms: u64) -> (r: String)
    ensures
        r@ == sentinel_of(now_ms),
{
    let mut s = String::from_str("__ERUDAITE_SENTINEL__");
    proof {
        reveal_strlit("__ERUDAITE_SENTINEL__");
        assert("__ERUDAITE_SENTINEL__"@ =~= sentinel_marker());
    }
    let digits = decimal_string(now_ms);
    s.append(digits.as_str());
    s.append("__");
    proof {
        reveal_strlit("__");
        assert("__"@ =~= seq!['_', '_']);
        assert(s@ =~= sentinel_of(now_ms));
    }
    s
}

/// Law: sentinel uniqueness — captures started at different instants never
/// produce equal sentinels.
pub proof fn lemma_sentinel_unique(t1: u64, t2: u64)
    requires
        t1 != t2,
    ensures
        sentinel_of(t1) != sentinel_of(t2),
{
    let d1 = dec_digits(t1 as nat);
    let d2 = dec_digits(t2 as nat);
    if sentinel_of(t1) == sentinel_of(t2) {
        assert(sentinel_of(t1).len() == 21 + d1.len() + 2);
        assert(sentinel_of(t2).len() == 21 + d2.len() + 2);
        assert(d1.len() == d2.len());
        assert(d1 =~= sentinel_of(t1).subrange(21, 21 + d1.len() as int));
        assert(d2 =~= sentinel_of(t2).subrange(21, 21 + d2.len() as int));
        lemma_dec_digits_injective(t1 as nat, t2 as nat);
        assert(false);
    }
}

} // verus!
