//! Decimal digits: the mathematical value of a digit run found in a URL, and
//! the decimal rendering of an id used when composing titles and control ids.

use vstd::prelude::*;

verus! {

/// An ASCII decimal digit.
pub open spec fn is_digit(c: char) -> bool {
    48 <= c as u32 <= 57
}

/// Numeric value of one digit character.
pub open spec fn digit_val(c: char) -> nat
    recommends
        is_digit(c),
{
    (c as u32 - 48) as nat
}

/// Value of a digit string, most significant first.
pub open spec fn dec_val(s: Seq<char>) -> nat
    decreases s.len(),
{
    if s.len() == 0 {
        0
    } else {
        dec_val(s.drop_last()) * 10 + digit_val(s.last())
    }
}

/// Decimal rendering of a number, without leading zeros (except for 0 itself).
pub open spec fn dec_str(n: nat) -> Seq<char>
    decreases n,
{
    if n < 10 {
        seq![digit_char(n)]
    } else {
        dec_str(n / 10).push(digit_char(n % 10))
    }
}

/// The digit character for a value below ten.
pub open spec fn digit_char(n: nat) -> char
    recommends
        n < 10,
{
    ((48 + n) as u8) as char
}

/// Whether every character of `s` is a decimal digit.
pub open spec fn all_digits(s: Seq<char>) -> bool {
    forall|k: int| 0 <= k < s.len() ==> is_digit(#[trigger] s[k])
}

fn digit_of(c: char) -> (d: u64)
    requires
        is_digit(c),
    ensures
        d == digit_val(c),
        d < 10,
{
    (c as u32 - 48) as u64
}

fn char_of_digit(d: u64) -> (c: char)
    requires
        d < 10,
    ensures
        c == digit_char(d as nat),
        is_digit(c),
{
    ((48 + d) as u8) as char
}

/// Parses the digit run `t[start..end]` as a number; `None` exactly when the
/// value does not fit in a `u64`, matching how an oversized capture is
/// dropped rather than reported.
pub fn parse_u64_digits(t: &Vec<char>, start: usize, end: usize) -> (r: Option<u64>)
    requires
        start <= end <= t@.len(),
        all_digits(t@.subrange(start as int, end as int)),
    ensures
        r is Some <==> dec_val(t@.subrange(start as int, end as int)) <= u64::MAX,
        r matches Some(v) ==> v == dec_val(t@.subrange(start as int, end as int)),
{
    let mut acc: u64 = 0;
    let mut over: bool = false;
    let mut i: usize = start;
    while i < end
        invariant
            start <= i <= end <= t@.len(),
            all_digits(t@.subrange(start as int, end as int)),
            over <==> dec_val(t@.subrange(start as int, i as int)) > u64::MAX,
            !over ==> acc == dec_val(t@.subrange(start as int, i as int)),
        decreases end - i,
    {
        assert(is_digit(t@[i as int])) by {
            assert(t@.subrange(start as int, end as int)[i - start] == t@[i as int]);
        }
        let d = digit_of(t[i]);
        proof {
            assert(t@.subrange(start as int, i + 1) =~= t@.subrange(start as int, i as int).push(
                t@[i as int],
            ));
            assert(t@.subrange(start as int, i + 1).drop_last() =~= t@.subrange(
                start as int,
                i as int,
            ));
        }
        if over {
            proof {
                let prev = dec_val(t@.subrange(start as int, i as int));
                assert(dec_val(t@.subrange(start as int, i + 1)) == prev * 10 + digit_val(
                    t@[i as int],
                ));
            }
        } else {
            if acc <= (u64::MAX - d) / 10 {
                assert(acc * 10 + d <= u64::MAX) by {
                    assert(acc * 10 <= ((u64::MAX - d) / 10) * 10);
                    assert(((u64::MAX - d) / 10) * 10 <= u64::MAX - d);
                };
                acc = acc * 10 + d;
            } else {
                assert(acc * 10 + d > u64::MAX) by {
                    assert(acc >= (u64::MAX - d) / 10 + 1);
                    assert(acc * 10 >= ((u64::MAX - d) / 10 + 1) * 10);
                };
                over = true;
            }
        }
        i = i + 1;
    }
    proof {
        assert(t@.subrange(start as int, end as int) =~= t@.subrange(start as int, i as int));
    }
    if over {
        None
    } else {
        Some(acc)
    }
}

/// Renders `n` in decimal, most significant digit first.
pub fn u64_to_dec(n: u64) -> (v: Vec<char>)
    ensures
        v@ == dec_str(n as nat),
    decreases n,
{
    if n < 10 {
        let mut v: Vec<char> = Vec::new();
        v.push(char_of_digit(n));
        proof {
            assert(v@ =~= seq![digit_char(n as nat)]);
        }
        v
    } else {
        let mut v = u64_to_dec(n / 10);
        v.push(char_of_digit(n % 10));
        v
    }
}

/// A digit character carries back exactly the value it was made from.
pub proof fn lemma_digit_char_val(n: nat)
    requires
        n < 10,
    ensures
        digit_val(digit_char(n)) == n,
        is_digit(digit_char(n)),
{
    let b: u8 = (48 + n) as u8;
    assert(b == 48 + n);
    assert(b as char as u32 == b as u32);
}

/// A decimal rendering consists of digit characters only, and is never empty.
pub proof fn lemma_dec_str_digits(n: nat)
    ensures
        all_digits(dec_str(n)),
        dec_str(n).len() >= 1,
    decreases n,
{
    if n < 10 {
        lemma_digit_char_val(n);
    } else {
        lemma_dec_str_digits(n / 10);
        lemma_digit_char_val(n % 10);
        let s = dec_str(n);
        assert forall|k: int| 0 <= k < s.len() implies is_digit(#[trigger] s[k]) by {
            if k < s.len() - 1 {
                assert(s[k] == dec_str(n / 10)[k]);
            }
        }
    }
}

/// The decimal rendering of a value parses back to that value.
pub proof fn lemma_dec_roundtrip(n: nat)
    ensures
        dec_val(dec_str(n)) == n,
    decreases n,
{
    if n < 10 {
        lemma_digit_char_val(n);
        assert(dec_str(n) == seq![digit_char(n)]);
        assert(seq![digit_char(n)].drop_last() =~= Seq::<char>::empty());
        assert(seq![digit_char(n)].last() == digit_char(n));
        assert(dec_val(seq![digit_char(n)]) == dec_val(Seq::<char>::empty()) * 10 + digit_val(
            digit_char(n),
        ));
        assert(dec_val(Seq::<char>::empty()) == 0);
    } else {
        lemma_dec_roundtrip(n / 10);
        lemma_digit_char_val(n % 10);
        let s = dec_str(n);
        assert(s == dec_str(n / 10).push(digit_char(n % 10)));
        assert(s.drop_last() =~= dec_str(n / 10));
        assert(s.last() == digit_char(n % 10));
        assert(dec_val(s) == dec_val(s.drop_last()) * 10 + digit_val(s.last()));
        assert(dec_val(s) == (n / 10) * 10 + (n % 10));
        assert((n / 10) * 10 + (n % 10) == n);
    }
}

} // verus!
