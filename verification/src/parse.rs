//! Decimal parsing of command-line integers: a byte string of ASCII
//! digits is accepted exactly when its value fits in a `u64`; anything
//! else is rejected.

use vstd::prelude::*;

verus! {

/// The byte is an ASCII decimal digit.
pub open spec fn is_ascii_digit(b: u8) -> bool {
    48 <= b && b <= 57
}

/// Every byte of the string is an ASCII decimal digit.
pub open spec fn all_digits(s: Seq<u8>) -> bool {
    forall|i: int| 0 <= i < s.len() ==> is_ascii_digit(s[i])
}

/// Value of a string of ASCII digits read as a decimal number, most
/// significant digit first; the empty string reads as zero.
pub open spec fn dec_value(s: Seq<u8>) -> int
    decreases s.len(),
{
    if s.len() == 0 {
        0
    } else {
        dec_value(s.drop_last()) * 10 + (s.last() - 48)
    }
}

/// Extending a digit string by one digit multiplies its value by ten
/// and adds the new digit.
proof fn lemma_dec_take_succ(s: Seq<u8>, i: int)
    requires
        0 <= i < s.len(),
    ensures
        dec_value(s.take(i + 1)) == dec_value(s.take(i)) * 10 + (s[i] - 48),
{
    assert(s.take(i + 1).drop_last() =~= s.take(i));
    assert(s.take(i + 1).last() == s[i]);
}

/// A string of digits has a non-negative value.
proof fn lemma_dec_nonneg(s: Seq<u8>)
    requires
        all_digits(s),
    ensures
        dec_value(s) >= 0,
    decreases s.len(),
{
    if s.len() > 0 {
        assert forall|i: int| 0 <= i < s.drop_last().len() implies is_ascii_digit(
            #[trigger] s.drop_last()[i],
        ) by {
            assert(s.drop_last()[i] == s[i]);
        }
        lemma_dec_nonneg(s.drop_last());
    }
}

/// Every prefix of a digit string reads as at most the whole string.
proof fn lemma_dec_grows(s: Seq<u8>, i: int)
    requires
        all_digits(s),
        0 <= i <= s.len(),
    ensures
        dec_value(s.take(i)) <= dec_value(s),
    decreases s.len() - i,
{
    if i == s.len() {
        assert(s.take(i) =~= s);
    } else {
        assert forall|j: int| 0 <= j < s.take(i).len() implies is_ascii_digit(
            #[trigger] s.take(i)[j],
        ) by {
            assert(s.take(i)[j] == s[j]);
        }
        lemma_dec_nonneg(s.take(i));
        lemma_dec_take_succ(s, i);
        lemma_dec_grows(s, i + 1);
    }
}

/// Parses a byte string as an unsigned decimal integer. Returns the
/// value exactly when the string is non-empty, consists only of ASCII
/// digits, and its value fits in a `u64`; returns nothing otherwise.
pub fn parse_u64(bytes: &Vec<u8>) -> (r: Option<u64>)
    ensures
        match r {
            Some(v) => bytes@.len() > 0 && all_digits(bytes@) && v == dec_value(bytes@),
            None => bytes@.len() == 0 || !all_digits(bytes@) || dec_value(bytes@) > u64::MAX,
        },
{
    if bytes.len() == 0 {
        return None;
    }
    let mut acc: u64 = 0;
    let mut i: usize = 0;
    proof {
        assert(bytes@.take(0) =~= Seq::<u8>::empty());
    }
    while i < bytes.len()
        invariant
            i <= bytes@.len(),
            all_digits(bytes@.take(i as int)),
            acc == dec_value(bytes@.take(i as int)),
        decreases bytes@.len() - i,
    {
        let b = bytes[i];
        if b < 48 || b > 57 {
            proof {
                assert(!is_ascii_digit(bytes@[i as int]));
            }
            return None;
        }
        let d: u64 = (b - 48) as u64;
        proof {
            lemma_dec_take_succ(bytes@, i as int);
            assert forall|j: int| 0 <= j < i as int + 1 implies is_ascii_digit(
                #[trigger] bytes@.take(i as int + 1)[j],
            ) by {
                if j < i as int {
                    assert(bytes@.take(i as int)[j] == bytes@[j]);
                }
                assert(bytes@.take(i as int + 1)[j] == bytes@[j]);
            }
        }
        let shifted = match acc.checked_mul(10) {
            Some(p) => p,
            None => {
                proof {
                    if all_digits(bytes@) {
                        lemma_dec_grows(bytes@, i as int + 1);
                    }
                }
                return None;
            },
        };
        let next = match shifted.checked_add(d) {
            Some(q) => q,
            None => {
                proof {
                    if all_digits(bytes@) {
                        lemma_dec_grows(bytes@, i as int + 1);
                    }
                }
                return None;
            },
        };
        acc = next;
        i = i + 1;
    }
    proof {
        assert(bytes@.take(bytes@.len() as int) =~= bytes@);
    }
    Some(acc)
}

/// The digit part of an unsigned-integer literal: the whole string,
/// or what follows a single leading plus sign.
pub open spec fn digits_of(s: Seq<u8>) -> Seq<u8> {
    if s.len() >= 1 && s[0] == 43 {
        s.skip(1)
    } else {
        s
    }
}

/// Parses a command-line argument as an unsigned decimal integer,
/// allowing one optional leading plus sign before the digits. Returns
/// the value exactly when the digit part is non-empty, consists only
/// of ASCII digits, and its value fits in a `u64`.
pub fn parse_uint_arg(bytes: &Vec<u8>) -> (r: Option<u64>)
    ensures
        match r {
            Some(v) => digits_of(bytes@).len() > 0 && all_digits(digits_of(bytes@)) && v
                == dec_value(digits_of(bytes@)),
            None => digits_of(bytes@).len() == 0 || !all_digits(digits_of(bytes@)) || dec_value(
                digits_of(bytes@),
            ) > u64::MAX,
        },
{
    if bytes.len() >= 1 && bytes[0] == 43 {
        let mut rest: Vec<u8> = Vec::new();
        let mut i: usize = 1;
        while i < bytes.len()
            invariant
                1 <= i <= bytes@.len(),
                rest@ == bytes@.subrange(1, i as int),
            decreases bytes@.len() - i,
        {
            proof {
                assert(bytes@.subrange(1, i as int).push(bytes@[i as int]) =~= bytes@.subrange(
                    1,
                    i as int + 1,
                ));
            }
            rest.push(bytes[i]);
            i = i + 1;
        }
        proof {
            assert(rest@ =~= digits_of(bytes@));
        }
        parse_u64(&rest)
    } else {
        parse_u64(bytes)
    }
}

} // verus!
