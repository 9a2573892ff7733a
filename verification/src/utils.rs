//! Small byte- and string-level helpers shared by the hashing, Merkle and
//! serialization code: ASCII decimal rendering of integers, fixed-width
//! big-endian encoding, and conversions between `&str` and `Vec<char>`.

use vstd::prelude::*;
use vstd::string::*;

verus! {

/// The ASCII decimal digits of `n`, most significant first.
pub open spec fn dec_bytes(n: nat) -> Seq<u8>
    decreases n,
{
    if n < 10 {
        seq![(48 + n) as u8]
    } else {
        dec_bytes(n / 10).push((48 + n % 10) as u8)
    }
}

/// The decimal digits of `n` as characters.
pub open spec fn dec_chars(n: nat) -> Seq<char> {
    dec_bytes(n).map_values(|b: u8| b as char)
}

/// Renders `n` in ASCII decimal, most significant digit first.
pub fn u64_to_dec_bytes(n: u64) -> (r: Vec<u8>)
    ensures
        r@ == dec_bytes(n as nat),
    decreases n,
{
    if n < 10 {
        let mut v: Vec<u8> = Vec::new();
        v.push(48 + n as u8);
        assert(v@ =~= dec_bytes(n as nat));
        v
    } else {
        let mut v = u64_to_dec_bytes(n / 10);
        v.push(48 + (n % 10) as u8);
        assert(v@ =~= dec_bytes(n as nat));
        v
    }
}

/// Renders `n` in decimal as characters.
pub fn u64_to_dec_chars(n: u64) -> (r: Vec<char>)
    ensures
        r@ == dec_chars(n as nat),
{
    let bytes = u64_to_dec_bytes(n);
    let mut r: Vec<char> = Vec::new();
    let mut i: usize = 0;
    while i < bytes.len()
        invariant
            i <= bytes@.len(),
            bytes@ == dec_bytes(n as nat),
            r@ == bytes@.take(i as int).map_values(|b: u8| b as char),
        decreases bytes@.len() - i,
    {
        r.push(bytes[i] as char);
        assert(bytes@.take(i + 1) =~= bytes@.take(i as int).push(bytes@[i as int]));
        i += 1;
    }
    assert(bytes@.take(bytes@.len() as int) =~= bytes@);
    r
}

/// The `k`-byte big-endian representation of `n` (modulo 256^k).
pub open spec fn be_bytes(n: nat, k: nat) -> Seq<u8>
    decreases k,
{
    if k == 0 {
        Seq::empty()
    } else {
        be_bytes(n / 256, (k - 1) as nat).push((n % 256) as u8)
    }
}

/// Writes `n` as exactly `k` big-endian bytes.
pub fn u64_to_be_bytes(n: u64, k: usize) -> (r: Vec<u8>)
    ensures
        r@ == be_bytes(n as nat, k as nat),
    decreases k,
{
    if k == 0 {
        let v: Vec<u8> = Vec::new();
        assert(v@ =~= be_bytes(n as nat, 0));
        v
    } else {
        let mut v = u64_to_be_bytes(n / 256, k - 1);
        v.push((n % 256) as u8);
        assert(v@ =~= be_bytes(n as nat, k as nat));
        v
    }
}

/// Collects the characters of `s` into a vector.
pub fn chars_vec(s: &str) -> (r: Vec<char>)
    ensures
        r@ == s@,
{
    let len = s.unicode_len();
    let mut r: Vec<char> = Vec::new();
    let mut i: usize = 0;
    while i < len
        invariant
            i <= len,
            len == s@.len(),
            r@ == s@.take(i as int),
        decreases len - i,
    {
        r.push(s.get_char(i));
        assert(s@.take(i + 1) =~= s@.take(i as int).push(s@[i as int]));
        i += 1;
    }
    assert(s@.take(len as int) =~= s@);
    r
}

/// Appends every character of `s` to `v`.
pub fn push_str_chars(v: &mut Vec<char>, s: &str)
    ensures
        final(v)@ == old(v)@ + s@,
{
    let len = s.unicode_len();
    let mut i: usize = 0;
    while i < len
        invariant
            i <= len,
            len == s@.len(),
            v@ == old(v)@ + s@.take(i as int),
        decreases len - i,
    {
        v.push(s.get_char(i));
        assert(old(v)@ + s@.take(i + 1) =~= (old(v)@ + s@.take(i as int)).push(s@[i as int]));
        i += 1;
    }
    assert(s@.take(len as int) =~= s@);
}

/// Whether two strings hold the same characters.
pub fn str_eq(a: &str, b: &str) -> (r: bool)
    ensures
        r == (a@ == b@),
{
    let la = a.unicode_len();
    let lb = b.unicode_len();
    if la != lb {
        return false;
    }
    let mut i: usize = 0;
    while i < la
        invariant
            i <= la,
            la == a@.len(),
            la == b@.len(),
            forall|j: int| 0 <= j < i ==> a@[j] == b@[j],
        decreases la - i,
    {
        if a.get_char(i) != b.get_char(i) {
            return false;
        }
        i += 1;
    }
    proof {
        assert(a@ =~= b@);
    }
    true
}

/// Relies on `String::from_iter` over `char`: the collected string holds
/// exactly the given characters in order.
#[verifier::external_body]
pub fn string_from_chars(v: &Vec<char>) -> (r: String)
    ensures
        r@ == v@,
{
    v.iter().collect()
}

} // verus!

verus! {

/// Whether `c` is an ASCII decimal digit.
pub open spec fn is_digit(c: char) -> bool {
    48 <= c as int <= 57
}

/// The longest prefix of decimal digits.
pub open spec fn leading_digits(s: Seq<char>) -> Seq<char>
    decreases s.len(),
{
    if s.len() > 0 && is_digit(s[0]) {
        seq![s[0]] + leading_digits(s.drop_first())
    } else {
        Seq::empty()
    }
}

/// The numeric value of a digit string, most significant digit first.
pub open spec fn digits_value(ds: Seq<char>) -> int
    decreases ds.len(),
{
    if ds.len() == 0 {
        0
    } else {
        digits_value(ds.drop_last()) * 10 + (ds.last() as int - 48)
    }
}

/// The digit prefix is a prefix of digits, and ends before a non-digit.
pub proof fn lemma_leading_digits_shape(s: Seq<char>)
    ensures
        leading_digits(s).len() <= s.len(),
        leading_digits(s) == s.take(leading_digits(s).len() as int),
        forall|k: int| 0 <= k < leading_digits(s).len() ==> is_digit(#[trigger] s[k]),
        leading_digits(s).len() < s.len() ==> !is_digit(s[leading_digits(s).len() as int]),
    decreases s.len(),
{
    if s.len() > 0 && is_digit(s[0]) {
        lemma_leading_digits_shape(s.drop_first());
        let l = leading_digits(s);
        assert(l.len() == 1 + leading_digits(s.drop_first()).len());
        assert forall|k: int| 0 <= k < l.len() implies is_digit(#[trigger] s[k]) by {
            if k > 0 {
                assert(s[k] == s.drop_first()[k - 1]);
                assert(is_digit(s.drop_first()[k - 1]));
            }
        }
        assert(l =~= s.take(l.len() as int)) by {
            assert(leading_digits(s.drop_first()) == s.drop_first().take(
                leading_digits(s.drop_first()).len() as int,
            ));
        }
        if l.len() < s.len() {
            assert(s[l.len() as int] == s.drop_first()[l.len() - 1]);
        }
    } else {
        assert(leading_digits(s) =~= s.take(0));
    }
}

/// The value of a digit string is never negative.
pub proof fn lemma_digits_value_nonneg(ds: Seq<char>)
    requires
        forall|k: int| 0 <= k < ds.len() ==> is_digit(#[trigger] ds[k]),
    ensures
        digits_value(ds) >= 0,
    decreases ds.len(),
{
    if ds.len() > 0 {
        lemma_digits_value_nonneg(ds.drop_last());
    }
}

/// A digit string is worth at least any of its prefixes.
pub proof fn lemma_digits_value_monotone(ds: Seq<char>, k: int)
    requires
        0 <= k <= ds.len(),
        forall|j: int| 0 <= j < ds.len() ==> is_digit(#[trigger] ds[j]),
    ensures
        digits_value(ds.take(k)) <= digits_value(ds),
    decreases ds.len(),
{
    if k == ds.len() {
        assert(ds.take(k) =~= ds);
    } else {
        lemma_digits_value_nonneg(ds.drop_last());
        lemma_digits_value_monotone(ds.drop_last(), k);
        assert(ds.drop_last().take(k) =~= ds.take(k));
        assert(is_digit(ds.last()));
    }
}

/// The decimal digits of `n` are digits.
pub proof fn lemma_dec_chars_are_digits(n: nat)
    ensures
        dec_chars(n).len() >= 1,
        forall|k: int| 0 <= k < dec_chars(n).len() ==> is_digit(#[trigger] dec_chars(n)[k]),
    decreases n,
{
    if n < 10 {
        assert(dec_bytes(n) =~= seq![(48 + n) as u8]);
        assert(dec_chars(n)[0] == ((48 + n) as u8) as char);
    } else {
        lemma_dec_chars_are_digits(n / 10);
        assert(forall|k: int|
            0 <= k < dec_chars(n).len() ==> is_digit(#[trigger] dec_chars(n)[k])) by {
            assert(dec_bytes(n) == dec_bytes(n / 10).push((48 + n % 10) as u8));
            assert(forall|k: int|
                0 <= k < dec_chars(n / 10).len() ==> #[trigger] dec_chars(n)[k] == dec_chars(
                    n / 10,
                )[k]);
            assert(dec_chars(n).last() == ((48 + n % 10) as u8) as char);
        }
    }
}

/// Reading the decimal digits of `n` back gives `n`.
pub proof fn lemma_digits_value_of_dec(n: nat)
    ensures
        digits_value(dec_chars(n)) == n,
    decreases n,
{
    if n < 10 {
        assert(dec_bytes(n) =~= seq![(48 + n) as u8]);
        assert(dec_chars(n).len() == 1);
        assert(dec_chars(n).drop_last() =~= Seq::<char>::empty());
        assert(dec_chars(n)[0] == ((48 + n) as u8) as char);
        assert(((48 + n) as u8) as char as int == 48 + n);
        assert(digits_value(Seq::<char>::empty()) == 0);
    } else {
        lemma_digits_value_of_dec(n / 10);
        assert(dec_bytes(n) == dec_bytes(n / 10).push((48 + n % 10) as u8));
        assert(dec_chars(n).len() == dec_bytes(n).len());
        assert(dec_chars(n).drop_last() =~= dec_chars(n / 10));
        assert(dec_chars(n).last() == ((48 + n % 10) as u8) as char);
        assert(((48 + n % 10) as u8) as char as int == 48 + n % 10);
    }
}

/// Followed by a non-digit, the decimal digits of `n` are exactly the
/// digit prefix.
pub proof fn lemma_leading_digits_of_dec(n: nat, rest: Seq<char>)
    requires
        rest.len() == 0 || !is_digit(rest[0]),
    ensures
        leading_digits(dec_chars(n) + rest) == dec_chars(n),
{
    lemma_dec_chars_are_digits(n);
    lemma_leading_digits_full(dec_chars(n), rest);
}

/// Followed by a non-digit, an all-digit string is exactly the digit
/// prefix.
pub proof fn lemma_leading_digits_full(ds: Seq<char>, rest: Seq<char>)
    requires
        forall|k: int| 0 <= k < ds.len() ==> is_digit(#[trigger] ds[k]),
        rest.len() == 0 || !is_digit(rest[0]),
    ensures
        leading_digits(ds + rest) == ds,
    decreases ds.len(),
{
    if ds.len() == 0 {
        assert(ds + rest =~= rest);
        assert(leading_digits(rest) =~= Seq::<char>::empty());
        assert(leading_digits(ds + rest) =~= ds);
    } else {
        assert(forall|k: int|
            0 <= k < ds.drop_first().len() ==> is_digit(#[trigger] ds.drop_first()[k])) by {
            assert(forall|k: int|
                0 <= k < ds.drop_first().len() ==> #[trigger] ds.drop_first()[k] == ds[k + 1]);
        }
        lemma_leading_digits_full(ds.drop_first(), rest);
        assert((ds + rest)[0] == ds[0]);
        assert((ds + rest).drop_first() =~= ds.drop_first() + rest);
        assert(leading_digits(ds + rest) =~= ds);
    }
}

} // verus!
