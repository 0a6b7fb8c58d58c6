//! Latin-1 byte text: ASCII lower-casing and decimal digit parsing.

use vstd::prelude::*;
use crate::strings::{decimal_chars, digit_char};

verus! {

/// The ASCII lower-case form of a byte: `A`..`Z` map to `a`..`z`,
/// every other byte is left alone.
pub open spec fn lower_byte(b: u8) -> u8 {
    if 65 <= b && b <= 90 {
        (b + 32) as u8
    } else {
        b
    }
}

/// The byte sequence with every byte lower-cased.
pub open spec fn lower_bytes(s: Seq<u8>) -> Seq<u8> {
    s.map_values(|b: u8| lower_byte(b))
}

/// Whether a byte is an ASCII decimal digit `0`..`9`.
pub open spec fn is_digit(b: u8) -> bool {
    48 <= b && b <= 57
}

/// Whether every byte of the sequence is a decimal digit.
pub open spec fn all_digits(s: Seq<u8>) -> bool {
    forall|i: int| 0 <= i < s.len() ==> #[trigger] is_digit(s[i])
}

/// The number written by a sequence of decimal digits, most significant
/// first (the empty sequence writes zero).
pub open spec fn decimal_value(s: Seq<u8>) -> nat
    decreases s.len(),
{
    if s.len() == 0 {
        0
    } else {
        decimal_value(s.drop_last()) * 10 + (s.last() - 48) as nat
    }
}

/// Reading the digits one at a time never passes `usize::MAX`: every
/// all-digit prefix of `s` writes a number that fits in a `usize`.
pub open spec fn digit_prefixes_fit(s: Seq<u8>) -> bool {
    forall|k: int|
        0 <= k <= s.len() && #[trigger] all_digits(s.take(k)) ==> decimal_value(s.take(k))
            <= usize::MAX
}

fn lower_one(b: u8) -> (r: u8)
    ensures
        r == lower_byte(b),
{
    if b >= 65 && b <= 90 {
        b + 32
    } else {
        b
    }
}

/// In-place ASCII lower-casing of a byte buffer, one byte at a time.
pub fn make_lower_vec_u8(bytes: &mut Vec<u8>)
    ensures
        final(bytes)@ == lower_bytes(old(bytes)@),
{
    let n = bytes.len();
    for i in 0..n
        invariant
            n == bytes.len(),
            n == old(bytes)@.len(),
            forall|j: int| 0 <= j < i ==> bytes@[j] == lower_byte(old(bytes)@[j]),
            forall|j: int| i <= j < n ==> bytes@[j] == old(bytes)@[j],
    {
        let b = lower_one(bytes[i]);
        bytes.set(i, b);
    }
    assert(bytes@ =~= lower_bytes(old(bytes)@));
}

/// Reads a decimal number.  `None` when some byte is not a digit; the
/// empty sequence reads as zero.
pub fn digits_to_usize(digits: &Vec<u8>) -> (res: Option<usize>)
    requires
        digit_prefixes_fit(digits@),
    ensures
        res == (if all_digits(digits@) {
            Some(decimal_value(digits@) as usize)
        } else {
            None::<usize>
        }),
        res is Some ==> res->0 == decimal_value(digits@),
{
    let mut val: usize = 0;
    let n = digits.len();
    let mut i: usize = 0;
    assert(digits@.take(0) =~= Seq::<u8>::empty());
    while i < n
        invariant
            n == digits@.len(),
            i <= n,
            digit_prefixes_fit(digits@),
            all_digits(digits@.take(i as int)),
            val == decimal_value(digits@.take(i as int)),
        decreases n - i,
    {
        let d = digits[i];
        if d < 48 || d > 57 {
            assert(!is_digit(digits@[i as int]));
            return None;
        }
        let ghost next = digits@.take(i + 1);
        assert(next.drop_last() =~= digits@.take(i as int));
        assert(all_digits(next)) by {
            assert forall|j: int| 0 <= j < next.len() implies #[trigger] is_digit(next[j]) by {
                if j < i {
                    assert(next[j] == digits@.take(i as int)[j]);
                }
            }
        }
        assert(decimal_value(next) <= usize::MAX);
        val = val * 10 + (d - 48) as usize;
        i = i + 1;
    }
    assert(digits@.take(n as int) =~= digits@);
    Some(val)
}


/// Whether reading `digits` one at a time stays within a `usize`.
pub fn digits_fit(digits: &Vec<u8>) -> (res: bool)
    ensures
        res == digit_prefixes_fit(digits@),
{
    let n = digits.len();
    let mut val: usize = 0;
    let mut i: usize = 0;
    assert(digits@.take(0) =~= Seq::<u8>::empty());
    while i < n
        invariant
            n == digits@.len(),
            i <= n,
            all_digits(digits@.take(i as int)),
            val == decimal_value(digits@.take(i as int)),
            forall|k: int| 0 <= k <= i ==> decimal_value(#[trigger] digits@.take(k)) <= usize::MAX,
        decreases n - i,
    {
        let d = digits[i];
        let ghost next = digits@.take(i + 1);
        assert(next.drop_last() =~= digits@.take(i as int));
        if d < 48 || d > 57 {
            proof {
                assert forall|k: int|
                    0 <= k <= digits@.len() && #[trigger] all_digits(digits@.take(k)) implies decimal_value(
                    digits@.take(k),
                ) <= usize::MAX by {
                    if k > i {
                        assert(digits@.take(k)[i as int] == d);
                        assert(!is_digit(digits@.take(k)[i as int]));
                    } else {
                        assert(decimal_value(digits@.take(k)) <= usize::MAX);
                    }
                }
            }
            return true;
        }
        assert(all_digits(next)) by {
            assert forall|j: int| 0 <= j < next.len() implies #[trigger] is_digit(next[j]) by {
                if j < i {
                    assert(next[j] == digits@.take(i as int)[j]);
                }
            }
        }
        match val.checked_mul(10) {
            None => {
                assert(!digit_prefixes_fit(digits@)) by {
                    assert(decimal_value(next) > usize::MAX);
                    assert(all_digits(digits@.take(i + 1)));
                }
                return false;
            },
            Some(v10) => match v10.checked_add((d - 48) as usize) {
                None => {
                    assert(!digit_prefixes_fit(digits@)) by {
                        assert(decimal_value(next) > usize::MAX);
                        assert(all_digits(digits@.take(i + 1)));
                    }
                    return false;
                },
                Some(v) => {
                    val = v;
                },
            },
        }
        i = i + 1;
    }
    proof {
        assert(digits@.take(n as int) =~= digits@);
        assert forall|k: int|
            0 <= k <= digits@.len() && #[trigger] all_digits(digits@.take(k)) implies decimal_value(
            digits@.take(k),
        ) <= usize::MAX by {
            assert(k <= i);
        }
    }
    true
}


/// In-place ASCII lower-casing of a byte buffer.
pub fn make_lower(bytes: &mut Vec<u8>)
    ensures
        final(bytes)@ == lower_bytes(old(bytes)@),
{
    make_lower_vec_u8(bytes);
}


/// Lower-casing twice is lower-casing once.
pub proof fn law_lower_idempotent(s: Seq<u8>)
    ensures
        lower_bytes(lower_bytes(s)) == lower_bytes(s),
{
    assert(lower_bytes(lower_bytes(s)) =~= lower_bytes(s));
}


/// The bytes of the decimal digits of a number.
pub open spec fn decimal_bytes(n: nat) -> Seq<u8> {
    decimal_chars(n).map_values(|c: char| c as u8)
}

/// Reading back the decimal digits of a number gives the number: they
/// are all digits, they write the number, and when the number fits in a
/// `usize` so does every prefix, so `digits_to_usize` accepts them.
pub proof fn law_decimal_roundtrip(n: nat)
    ensures
        all_digits(decimal_bytes(n)),
        decimal_value(decimal_bytes(n)) == n,
        n <= usize::MAX ==> digit_prefixes_fit(decimal_bytes(n)),
    decreases n,
{
    let b = decimal_bytes(n);
    if n < 10 {
        assert(digit_char(n) as u8 == (n + 48) as u8);
        assert(b =~= seq![(n + 48) as u8]);
        assert(b.drop_last() =~= Seq::<u8>::empty());
        assert(decimal_value(b.drop_last()) == 0);
        if n <= usize::MAX {
            assert forall|k: int| 0 <= k <= b.len() && #[trigger] all_digits(b.take(k)) implies decimal_value(
                b.take(k),
            ) <= usize::MAX by {
                if k == 0 {
                    assert(b.take(k) =~= Seq::<u8>::empty());
                } else {
                    assert(b.take(k) =~= b);
                }
            }
        }
    } else {
        let q = n / 10;
        let r = n % 10;
        law_decimal_roundtrip(q);
        let bq = decimal_bytes(q);
        assert(digit_char(r) as u8 == (r + 48) as u8);
        assert(b =~= bq.push((r + 48) as u8));
        assert(b.drop_last() =~= bq);
        assert(n == q * 10 + r);
        assert forall|i: int| 0 <= i < b.len() implies #[trigger] is_digit(b[i]) by {
            if i < bq.len() {
                assert(b[i] == bq[i]);
            }
        }
        if n <= usize::MAX {
            assert forall|k: int| 0 <= k <= b.len() && #[trigger] all_digits(b.take(k)) implies decimal_value(
                b.take(k),
            ) <= usize::MAX by {
                if k == b.len() {
                    assert(b.take(k) =~= b);
                } else {
                    assert(b.take(k) =~= bq.take(k));
                    assert(all_digits(bq.take(k)));
                }
            }
        }
    }
}


/// Lower-casing bytes keeps the length, changes only the capitals
/// `A`..`Z` (65..90), and adds 32 to each of them.
pub proof fn law_lower_bytes_pointwise(s: Seq<u8>)
    ensures
        lower_bytes(s).len() == s.len(),
        forall|i: int| 0 <= i < s.len() ==> {
            &&& (65 <= s[i] && s[i] <= 90) ==> lower_bytes(s)[i] == s[i] + 32
            &&& !(65 <= s[i] && s[i] <= 90) ==> lower_bytes(s)[i] == s[i]
        },
{
}

/// The number that digits write: none writes zero, and each further digit
/// `d` turns `n` into `10 * n + d`.
pub proof fn law_decimal_value_step(s: Seq<u8>, d: u8)
    ensures
        decimal_value(Seq::<u8>::empty()) == 0,
        decimal_value(s.push(d)) == decimal_value(s) * 10 + (d - 48) as nat,
{
    assert(s.push(d).drop_last() =~= s);
}

} // verus!
