//! Decimal parsing of unsigned integers, as `usize::from_str` accepts them:
//! an optional `+` followed by one or more ASCII digits, with no other
//! characters, whose value fits in a `usize`.

use vstd::prelude::*;

verus! {

/// The byte of the character `0`.
pub const ASCII_ZERO: u8 = 0x30;

/// The byte of the character `9`.
pub const ASCII_NINE: u8 = 0x39;

/// The byte of the character `+`.
pub const ASCII_PLUS: u8 = 0x2b;

/// `b` is an ASCII decimal digit.
pub open spec fn is_digit(b: u8) -> bool {
    ASCII_ZERO <= b <= ASCII_NINE
}

/// Every byte of `s` is an ASCII decimal digit.
pub open spec fn all_digits(s: Seq<u8>) -> bool {
    forall|i: int| 0 <= i < s.len() ==> is_digit(#[trigger] s[i])
}

/// The value of the decimal numeral `s`, most significant digit first.
pub open spec fn digits_value(s: Seq<u8>) -> nat
    decreases s.len(),
{
    if s.len() == 0 {
        0
    } else {
        digits_value(s.drop_last()) * 10 + (s.last() - ASCII_ZERO) as nat
    }
}

/// The digits of `s` once an optional leading `+` is removed.
pub open spec fn unsigned_digits(s: Seq<u8>) -> Seq<u8> {
    if s.len() > 0 && s[0] == ASCII_PLUS {
        s.drop_first()
    } else {
        s
    }
}

/// The `usize` that `s` denotes, or `None` where `s` is not a decimal
/// numeral (optionally signed with `+`) or its value does not fit.
pub open spec fn decimal_usize(s: Seq<u8>) -> Option<usize> {
    let d = unsigned_digits(s);
    if d.len() > 0 && all_digits(d) && digits_value(d) <= usize::MAX {
        Some(digits_value(d) as usize)
    } else {
        None
    }
}

/// Appending one digit to a numeral multiplies its value by ten and adds
/// the digit.
proof fn lemma_digits_value_push(s: Seq<u8>, b: u8)
    ensures
        digits_value(s.push(b)) == digits_value(s) * 10 + (b - ASCII_ZERO) as nat,
{
    assert(s.push(b).drop_last() =~= s);
}

/// The value of a numeral of digits is at least that of any of its prefixes.
proof fn lemma_digits_value_prefix(s: Seq<u8>, n: int)
    requires
        all_digits(s),
        0 <= n <= s.len(),
    ensures
        digits_value(s.take(n)) <= digits_value(s),
    decreases s.len(),
{
    if n < s.len() {
        let t = s.drop_last();
        assert(t.take(n) =~= s.take(n));
        assert(all_digits(t)) by {
            assert forall|i: int| 0 <= i < t.len() implies is_digit(#[trigger] t[i]) by {
                assert(t[i] == s[i]);
            }
        }
        lemma_digits_value_prefix(t, n);
        assert(s.take(s.len() as int) =~= s);
    } else {
        assert(s.take(n) =~= s);
    }
}

/// How a numeral's value builds up, digit by digit: a single digit `d`
/// denotes `d - '0'`; appending a digit to a numeral of value `v` gives
/// `10 * v + d - '0'` where that fits, and no value where it does not; a
/// leading `+` or `0` in front of a numeral of digits changes nothing; and
/// a byte that is no digit makes any numeral that holds it invalid.
pub proof fn lemma_decimal_value_by_digits(n: Seq<u8>, d: u8)
    requires
        n.len() > 0,
        all_digits(n),
    ensures
        is_digit(d) ==> decimal_usize(seq![d]) == Some((d - ASCII_ZERO) as usize),
        is_digit(d) ==> match decimal_usize(n) {
            Some(v) => decimal_usize(n.push(d)) == if 10 * v + (d - ASCII_ZERO) <= usize::MAX {
                Some((10 * v + (d - ASCII_ZERO)) as usize)
            } else {
                None::<usize>
            },
            None => decimal_usize(n.push(d)) == None::<usize>,
        },
        !is_digit(d) ==> decimal_usize(n.push(d)) == None::<usize>,
        decimal_usize(seq![ASCII_PLUS] + n) == decimal_usize(n),
        decimal_usize(seq![ASCII_ZERO] + n) == decimal_usize(n),
{
    assert(n[0] != ASCII_PLUS);
    assert(unsigned_digits(n) == n);
    let m = n.push(d);
    assert(m[0] == n[0]);
    assert(unsigned_digits(m) == m);
    assert(m.drop_last() =~= n);
    if is_digit(d) {
        let one = seq![d];
        assert(one.drop_last() =~= Seq::<u8>::empty());
        assert(one[0] == d);
        assert(unsigned_digits(one) == one);
        assert(all_digits(one));
        assert(digits_value(Seq::<u8>::empty()) == 0);
        assert(one.last() == d);
        assert(digits_value(one) == (d - ASCII_ZERO) as nat);
        assert(all_digits(m)) by {
            assert forall|i: int| 0 <= i < m.len() implies is_digit(#[trigger] m[i]) by {
                if i < n.len() {
                    assert(m[i] == n[i]);
                }
            }
        }
    } else {
        assert(m[n.len() as int] == d);
    }
    let p = seq![ASCII_PLUS] + n;
    assert(unsigned_digits(p) =~= n);
    let z = seq![ASCII_ZERO] + n;
    assert(unsigned_digits(z) == z);
    assert(all_digits(z)) by {
        assert forall|i: int| 0 <= i < z.len() implies is_digit(#[trigger] z[i]) by {
            if i > 0 {
                assert(z[i] == n[i - 1]);
            }
        }
    }
    lemma_leading_zero(n);
}

/// A leading zero does not change a numeral's value.
proof fn lemma_leading_zero(n: Seq<u8>)
    ensures
        digits_value(seq![ASCII_ZERO] + n) == digits_value(n),
    decreases n.len(),
{
    if n.len() == 0 {
        assert(seq![ASCII_ZERO] + n =~= seq![ASCII_ZERO]);
        assert(seq![ASCII_ZERO].drop_last() =~= Seq::<u8>::empty());
        assert(n =~= Seq::<u8>::empty());
        assert(digits_value(Seq::<u8>::empty()) == 0);
        assert(seq![ASCII_ZERO].last() == ASCII_ZERO);
    } else {
        lemma_leading_zero(n.drop_last());
        assert((seq![ASCII_ZERO] + n).drop_last() =~= seq![ASCII_ZERO] + n.drop_last());
        assert((seq![ASCII_ZERO] + n).last() == n.last());
    }
}

/// Parses `text` as `usize::from_str` does; `None` where that fails.
pub fn parse_usize(text: &[u8]) -> (result: Option<usize>)
    ensures
        result == decimal_usize(text@),
{
    let len: usize = text.len();
    let mut start: usize = 0;
    if len > 0 && text[0] == ASCII_PLUS {
        start = 1;
    }
    let ghost d = unsigned_digits(text@);
    assert(d =~= text@.subrange(start as int, len as int));
    if start == len {
        return None;
    }
    let mut value: usize = 0;
    let mut i: usize = start;
    assert(d.take(0) =~= Seq::<u8>::empty());
    while i < len
        invariant
            start <= i <= len,
            len == text@.len(),
            d =~= text@.subrange(start as int, len as int),
            d == unsigned_digits(text@),
            all_digits(d.take(i - start)),
            value == digits_value(d.take(i - start)),
        decreases len - i,
    {
        let b: u8 = text[i];
        let k: usize = i - start;
        if b < ASCII_ZERO || b > ASCII_NINE {
            assert(d[k as int] == b);
            return None;
        }
        assert(d.take(k + 1) =~= d.take(k as int).push(b));
        proof {
            lemma_digits_value_push(d.take(k as int), b);
        }
        let digit: usize = (b - ASCII_ZERO) as usize;
        let next = match value.checked_mul(10) {
            Some(m) => m.checked_add(digit),
            None => None,
        };
        match next {
            Some(v) => {
                value = v;
            },
            None => {
                proof {
                    if all_digits(d) {
                        lemma_digits_value_prefix(d, k + 1);
                    }
                }
                return None;
            },
        }
        i = i + 1;
        assert(all_digits(d.take(i - start))) by {
            assert forall|j: int| 0 <= j < d.take(i - start).len() implies is_digit(
                #[trigger] d.take(i - start)[j],
            ) by {
                if j < k {
                    assert(d.take(i - start)[j] == d.take(k as int)[j]);
                }
            }
        }
    }
    assert(d.take(len - start) =~= d);
    Some(value)
}

} // verus!
