//! Decimal decoding and encoding of the numeric log fields, with the
//! arithmetic facts the round-trip proofs need.

use vstd::prelude::*;
use vstd::arithmetic::div_mod::lemma_fundamental_div_mod;
use vstd::string::{StrSliceExecFns, StringExecFns};

verus! {

/// A decimal digit, `'0'` through `'9'`.
pub open spec fn is_digit(c: char) -> bool {
    '0' <= c && c <= '9'
}

/// Numeric value of one decimal digit character.
pub open spec fn digit_val(c: char) -> int {
    c as int - '0' as int
}

/// Every character of `s` is a decimal digit.
pub open spec fn all_digits(s: Seq<char>) -> bool {
    forall|i: int| 0 <= i < s.len() ==> is_digit(s[i])
}

/// Value of a digit string read in the usual most-significant-first order.
pub open spec fn digits_val(s: Seq<char>) -> int
    decreases s.len(),
{
    if s.len() == 0 {
        0
    } else {
        digits_val(s.drop_last()) * 10 + digit_val(s.last())
    }
}

/// A non-empty all-digit string whose value fits in `u64`.
pub open spec fn is_u64_digits(s: Seq<char>) -> bool {
    s.len() > 0 && all_digits(s) && digits_val(s) <= u64::MAX as int
}

/// A non-empty all-digit string whose value fits in `u32`.
pub open spec fn is_u32_digits(s: Seq<char>) -> bool {
    s.len() > 0 && all_digits(s) && digits_val(s) <= u32::MAX as int
}

pub proof fn lemma_digits_val_nonneg(s: Seq<char>)
    requires
        all_digits(s),
    ensures
        digits_val(s) >= 0,
    decreases s.len(),
{
    if s.len() > 0 {
        assert(all_digits(s.drop_last())) by {
            assert(forall|i: int| 0 <= i < s.len() - 1 ==> s.drop_last()[i] == s[i]);
        }
        lemma_digits_val_nonneg(s.drop_last());
    }
}

/// Appending one digit multiplies the value by ten and adds the digit.
pub proof fn lemma_digits_val_push(s: Seq<char>, c: char)
    ensures
        digits_val(s.push(c)) == digits_val(s) * 10 + digit_val(c),
{
    assert(s.push(c).drop_last() =~= s);
    assert(s.push(c).last() == c);
}

/// Extending an all-digit string never decreases its value.
pub proof fn lemma_digits_val_prefix_le(s: Seq<char>, i: int, j: int)
    requires
        all_digits(s),
        0 <= i <= j <= s.len(),
    ensures
        digits_val(s.subrange(0, i)) <= digits_val(s.subrange(0, j)),
    decreases j - i,
{
    if i < j {
        let p = s.subrange(0, j - 1);
        let q = s.subrange(0, j);
        assert(q.drop_last() =~= p);
        assert(all_digits(p)) by {
            assert(forall|k: int| 0 <= k < p.len() ==> p[k] == s[k]);
        }
        lemma_digits_val_nonneg(p);
        assert(is_digit(q.last())) by {
            assert(q.last() == s[j - 1]);
        }
        assert(digits_val(q) == digits_val(p) * 10 + digit_val(q.last()));
        assert(digits_val(p) * 10 >= digits_val(p)) by {
            lemma_digits_val_nonneg(p);
        }
        lemma_digits_val_prefix_le(s, i, j - 1);
    }
}

/// A string of digits cannot hold a non-digit character.
pub proof fn lemma_all_digits_absent(s: Seq<char>, c: char)
    requires
        all_digits(s),
        !is_digit(c),
    ensures
        crate::chars::absent(s, c),
{
}

/// Decode a whole string of decimal digits as a `u64`.
///
/// Returns `None` when the string is empty, holds a non-digit, or encodes a
/// value above `u64::MAX` — exactly the inputs on which the decode must fail.
pub fn parse_u64(s: &str) -> (r: Option<u64>)
    ensures
        r is Some <==> is_u64_digits(s@),
        r matches Some(v) ==> v as int == digits_val(s@),
{
    let len = s.unicode_len();
    if len == 0 {
        return None;
    }
    let mut i: usize = 0;
    let mut acc: u64 = 0;
    while i < len
        invariant
            i <= len,
            len == s@.len(),
            len > 0,
            all_digits(s@.subrange(0, i as int)),
            acc as int == digits_val(s@.subrange(0, i as int)),
        decreases len - i,
    {
        let c = s.get_char(i);
        let u = c as u32;
        if u < 48 || u > 57 {
            proof {
                assert(!is_digit(s@[i as int]));
            }
            return None;
        }
        let d = (u - 48) as u64;
        proof {
            assert(is_digit(s@[i as int]));
            assert(d as int == digit_val(s@[i as int]));
        }
        if acc > (u64::MAX - d) / 10 {
            proof {
                let pref = s@.subrange(0, i as int);
                let pref1 = s@.subrange(0, i + 1);
                assert(pref1.drop_last() =~= pref);
                assert(pref1.last() == s@[i as int]);
                let bound = (u64::MAX - d) as int;
                lemma_fundamental_div_mod(bound, 10);
                assert(acc as int * 10 >= (bound / 10 + 1) * 10) by (nonlinear_arith)
                    requires
                        acc as int >= bound / 10 + 1,
                ;
                assert((bound / 10 + 1) * 10 == (bound / 10) * 10 + 10);
                assert((bound / 10) * 10 >= bound - 9);
                assert(digits_val(pref1) > u64::MAX as int);
                assert(all_digits(pref1));
                if all_digits(s@) {
                    lemma_digits_val_prefix_le(s@, i + 1, len as int);
                    assert(s@.subrange(0, len as int) =~= s@);
                    assert(digits_val(s@) > u64::MAX as int);
                }
            }
            return None;
        }
        proof {
            let bound = (u64::MAX - d) as int;
            lemma_fundamental_div_mod(bound, 10);
            assert(acc as int * 10 <= (bound / 10) * 10) by (nonlinear_arith)
                requires
                    acc as int <= bound / 10,
            ;
            assert((bound / 10) * 10 <= bound);
            let pref = s@.subrange(0, i as int);
            let pref1 = s@.subrange(0, i + 1);
            assert(pref1.drop_last() =~= pref);
            assert(pref1.last() == s@[i as int]);
        }
        acc = acc * 10 + d;
        i = i + 1;
    }
    proof {
        assert(s@.subrange(0, len as int) =~= s@);
    }
    Some(acc)
}

/// Decode a whole string of decimal digits as a `u32`.
pub fn parse_u32(s: &str) -> (r: Option<u32>)
    ensures
        r is Some <==> is_u32_digits(s@),
        r matches Some(v) ==> v as int == digits_val(s@),
{
    match parse_u64(s) {
        None => {
            proof {
                if is_u32_digits(s@) {
                    assert(is_u64_digits(s@));
                }
            }
            None
        },
        Some(v) => {
            if v <= u32::MAX as u64 {
                Some(v as u32)
            } else {
                None
            }
        },
    }
}

/// Character for one digit value.
pub open spec fn digit_char(d: int) -> char {
    if d == 0 {
        '0'
    } else if d == 1 {
        '1'
    } else if d == 2 {
        '2'
    } else if d == 3 {
        '3'
    } else if d == 4 {
        '4'
    } else if d == 5 {
        '5'
    } else if d == 6 {
        '6'
    } else if d == 7 {
        '7'
    } else if d == 8 {
        '8'
    } else {
        '9'
    }
}

/// Decimal rendering of a non-negative number, most significant digit first.
pub open spec fn dec_digits(n: int) -> Seq<char>
    decreases n,
{
    if n < 10 {
        seq![digit_char(n)]
    } else {
        dec_digits(n / 10).push(digit_char(n % 10))
    }
}

pub proof fn lemma_dec_digits_wf(n: int)
    requires
        n >= 0,
    ensures
        dec_digits(n).len() >= 1,
        all_digits(dec_digits(n)),
        digits_val(dec_digits(n)) == n,
    decreases n,
{
    if n < 10 {
        let s = dec_digits(n);
        assert(s.drop_last() =~= Seq::<char>::empty());
        assert(digit_val(digit_char(n)) == n);
        assert(digits_val(s) == digits_val(s.drop_last()) * 10 + digit_val(s.last()));
    } else {
        lemma_fundamental_div_mod(n, 10);
        lemma_dec_digits_wf(n / 10);
        lemma_digits_val_push(dec_digits(n / 10), digit_char(n % 10));
        let s = dec_digits(n);
        assert(forall|i: int| 0 <= i < s.len() - 1 ==> s[i] == dec_digits(n / 10)[i]);
        assert(digit_val(digit_char(n % 10)) == n % 10);
    }
}

/// A string literal holding one digit, selected by value.
fn digit_str(d: u64) -> (r: &'static str)
    requires
        d < 10,
    ensures
        r@ =~= seq![digit_char(d as int)],
{
    proof {
        reveal_strlit("0");
        reveal_strlit("1");
        reveal_strlit("2");
        reveal_strlit("3");
        reveal_strlit("4");
        reveal_strlit("5");
        reveal_strlit("6");
        reveal_strlit("7");
        reveal_strlit("8");
        reveal_strlit("9");
    }
    if d == 0 {
        "0"
    } else if d == 1 {
        "1"
    } else if d == 2 {
        "2"
    } else if d == 3 {
        "3"
    } else if d == 4 {
        "4"
    } else if d == 5 {
        "5"
    } else if d == 6 {
        "6"
    } else if d == 7 {
        "7"
    } else if d == 8 {
        "8"
    } else {
        "9"
    }
}

/// A run of `k` zero characters.
pub open spec fn zeros(k: int) -> Seq<char>
    decreases k,
{
    if k <= 0 {
        Seq::empty()
    } else {
        seq!['0'] + zeros(k - 1)
    }
}

pub proof fn lemma_zeros(k: int)
    ensures
        zeros(k).len() == (if k <= 0 {
            0
        } else {
            k
        }),
        forall|j: int| 0 <= j < zeros(k).len() ==> zeros(k)[j] == '0',
    decreases k,
{
    if k > 0 {
        lemma_zeros(k - 1);
    }
}

/// `s` left-padded with zeros to width `w` (unchanged when already as wide).
pub open spec fn zero_pad(s: Seq<char>, w: int) -> Seq<char> {
    zeros(w - s.len()) + s
}

/// A leading zero does not change the value of a digit string.
pub proof fn lemma_digits_val_prepend_zero(s: Seq<char>)
    ensures
        digits_val(seq!['0'] + s) == digits_val(s),
    decreases s.len(),
{
    let z = seq!['0'] + s;
    if s.len() == 0 {
        assert(z =~= seq!['0']);
        assert(z.drop_last() =~= Seq::<char>::empty());
        assert(digits_val(Seq::<char>::empty()) == 0);
        assert(digits_val(z) == digits_val(z.drop_last()) * 10 + digit_val(z.last()));
        assert(digit_val('0') == 0);
        assert(digits_val(s) == 0);
    } else {
        assert(z.drop_last() =~= seq!['0'] + s.drop_last());
        assert(z.last() == s.last());
        lemma_digits_val_prepend_zero(s.drop_last());
    }
}

/// Zero padding keeps the value, the digits, and non-emptiness.
pub proof fn lemma_zero_pad(s: Seq<char>, w: int)
    requires
        all_digits(s),
    ensures
        digits_val(zero_pad(s, w)) == digits_val(s),
        all_digits(zero_pad(s, w)),
        zero_pad(s, w).len() >= s.len(),
        zero_pad(s, w).len() >= w,
    decreases w,
{
    lemma_zeros(w - s.len());
    if w - s.len() <= 0 {
        assert(zero_pad(s, w) =~= s);
    } else {
        let w1 = w - 1;
        lemma_zeros(w1 - s.len());
        lemma_zero_pad(s, w1);
        assert(zero_pad(s, w) =~= seq!['0'] + zero_pad(s, w1));
        lemma_digits_val_prepend_zero(zero_pad(s, w1));
    }
}

/// Render a `u64` in decimal.
pub fn u64_to_dec(n: u64) -> (r: String)
    ensures
        r@ == dec_digits(n as int),
    decreases n,
{
    if n < 10 {
        String::from_str(digit_str(n))
    } else {
        proof {
            lemma_fundamental_div_mod(n as int, 10);
        }
        let mut s = u64_to_dec(n / 10);
        s.append(digit_str(n % 10));
        proof {
            assert(dec_digits(n as int / 10) + seq![digit_char(n as int % 10)] =~= dec_digits(
                n as int,
            ));
        }
        s
    }
}

/// Render a `u64` in decimal, left-padded with zeros to width `w`.
pub fn u64_to_dec_pad(n: u64, w: usize) -> (r: String)
    ensures
        r@ == zero_pad(dec_digits(n as int), w as int),
{
    let d = u64_to_dec(n);
    let dl = d.as_str().unicode_len();
    let pad: usize = if w > dl {
        w - dl
    } else {
        0
    };
    proof {
        lemma_zeros(pad as int);
        if w <= dl {
            assert(zeros(w - d@.len()) =~= Seq::<char>::empty());
        }
    }
    let mut out = String::new();
    let mut k: usize = 0;
    while k < pad
        invariant
            k <= pad,
            out@ == zeros(k as int),
        decreases pad - k,
    {
        proof {
            reveal_strlit("0");
            lemma_zeros(k as int);
            lemma_zeros(k + 1);
            assert(zeros(k as int) + "0"@ =~= zeros(k + 1));
        }
        out.append("0");
        k = k + 1;
    }
    out.append(d.as_str());
    proof {
        assert(out@ =~= zero_pad(dec_digits(n as int), w as int));
    }
    out
}

} // verus!
