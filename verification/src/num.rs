//! Reading integers from token text and rendering them back to text.
//!
//! All interpreter values travel as text; the integer meaning of a value is
//! recovered by parsing on demand, and arithmetic results are written back in
//! canonical decimal form.

use vstd::prelude::*;

verus! {

/// Whether `c` is a decimal digit.
pub open spec fn is_digit_char(c: char) -> bool {
    ('0' as u32) <= (c as u32) && (c as u32) <= ('9' as u32)
}

/// The numeric value of a digit character.
pub open spec fn digit_of(c: char) -> int {
    (c as u32) - ('0' as u32)
}

/// Whether every character of `s` is a decimal digit.
pub open spec fn all_digits(s: Seq<char>) -> bool {
    forall|i: int| 0 <= i < s.len() ==> is_digit_char(s[i])
}

/// The value of a digit string, most significant digit first.
pub open spec fn digits_val(s: Seq<char>) -> int
    decreases s.len(),
{
    if s.len() == 0 {
        0
    } else {
        digits_val(s.drop_last()) * 10 + digit_of(s.last())
    }
}

pub proof fn lemma_digits_val_nonneg(s: Seq<char>)
    requires
        all_digits(s),
    ensures
        digits_val(s) >= 0,
    decreases s.len(),
{
    if s.len() > 0 {
        assert(all_digits(s.drop_last()));
        lemma_digits_val_nonneg(s.drop_last());
    }
}

/// The integer a token denotes: an optional sign followed by at least one
/// digit. Anything else, including an out-of-place character, denotes nothing.
pub open spec fn spec_parse_int(s: Seq<char>) -> Option<int> {
    if s.len() >= 1 && (s[0] == '-' || s[0] == '+') {
        if s.len() >= 2 && all_digits(s.skip(1)) {
            if s[0] == '-' {
                Some(-digits_val(s.skip(1)))
            } else {
                Some(digits_val(s.skip(1)))
            }
        } else {
            None
        }
    } else if s.len() >= 1 && all_digits(s) {
        Some(digits_val(s))
    } else {
        None
    }
}

/// The machine reading of a token: its integer meaning when it has one and
/// that meaning fits the machine integer range.
pub open spec fn spec_parse_i32(s: Seq<char>) -> Option<int> {
    match spec_parse_int(s) {
        Some(v) => if -0x8000_0000 <= v <= 0x7fff_ffff {
            Some(v)
        } else {
            None
        },
        None => None,
    }
}

/// Reads a token as a machine integer; `None` when the text is not an
/// integer or the integer does not fit.
pub fn parse_i32(s: &str) -> (r: Option<i32>)
    ensures
        match r {
            Some(v) => spec_parse_i32(s@) == Some(v as int),
            None => spec_parse_i32(s@) is None,
        },
{
    let n = s.unicode_len();
    if n == 0 {
        return None;
    }
    let first = s.get_char(0);
    let neg = first == '-';
    let has_sign = neg || first == '+';
    let start: usize = if has_sign {
        1
    } else {
        0
    };
    if start >= n {
        return None;
    }
    let ghost digits = s@.skip(start as int);
    let mut i: usize = start;
    let mut acc: u64 = 0;
    proof {
        assert(digits.subrange(0, 0) =~= Seq::<char>::empty());
    }
    while i < n
        invariant
            n == s@.len(),
            start <= i <= n,
            start == (if has_sign { 1usize } else { 0usize }),
            start < n,
            has_sign == (s@[0] == '-' || s@[0] == '+'),
            neg == (s@[0] == '-'),
            digits == s@.skip(start as int),
            forall|m: int| start <= m < i ==> is_digit_char(s@[m]),
            forall|m: int| 0 <= m < n - start ==> digits[m] == s@[start + m],
            acc <= 0x1_0000_0000u64,
            digits_val(digits.subrange(0, i - start)) < 0x1_0000_0000 ==> acc == digits_val(
                digits.subrange(0, i - start),
            ),
            digits_val(digits.subrange(0, i - start)) >= 0x1_0000_0000 ==> acc
                == 0x1_0000_0000u64,
            digits_val(digits.subrange(0, i - start)) >= 0,
        decreases n - i,
    {
        let c = s.get_char(i);
        let cu = c as u32;
        if cu < ('0' as u32) || cu > ('9' as u32) {
            proof {
                assert(digits[i - start] == s@[i as int]);
                assert(!all_digits(digits));
                if has_sign {
                    assert(s@.skip(1) == digits);
                } else {
                    assert(digits =~= s@);
                }
            }
            return None;
        }
        let d = (cu - ('0' as u32)) as u64;
        let ghost pre = digits.subrange(0, i - start);
        let ghost post = digits.subrange(0, i + 1 - start);
        proof {
            assert(post.drop_last() =~= pre);
            assert(post.last() == s@[i as int]);
            assert(digits_val(post) == digits_val(pre) * 10 + digit_of(s@[i as int]));
        }
        if acc >= 0x1_0000_0000u64 {
            proof {
                assert(digits_val(pre) >= 0x1_0000_0000);
                assert(digits_val(pre) * 10 >= digits_val(pre)) by (nonlinear_arith)
                    requires digits_val(pre) >= 0;
                assert(digits_val(post) >= 0x1_0000_0000);
            }
            acc = 0x1_0000_0000u64;
        } else {
            proof {
                assert(digits_val(pre) < 0x1_0000_0000 && acc == digits_val(pre));
            }
            acc = acc * 10 + d;
            proof {
                assert(digits_val(post) == acc);
            }
            if acc >= 0x1_0000_0000u64 {
                acc = 0x1_0000_0000u64;
            }
        }
        i = i + 1;
    }
    proof {
        assert(digits.subrange(0, n - start) =~= digits);
        assert(all_digits(digits));
        if has_sign {
            assert(s@.skip(1) == digits);
        } else {
            assert(digits =~= s@);
        }
    }
    let v: i64 = if neg {
        -(acc as i64)
    } else {
        acc as i64
    };
    if v < -0x8000_0000i64 || v > 0x7fff_ffffi64 {
        return None;
    }
    Some(v as i32)
}

/// The digit character of a value below ten.
pub open spec fn digit_char(d: int) -> char {
    if d == 0 {
        '0'
    } else if d == 1 {
        '1'
    } else if d == 2 {
        '2'
    } else if d == 3 {
        '3'
    } else if d == 4 {
        '4'
    } else if d == 5 {
        '5'
    } else if d == 6 {
        '6'
    } else if d == 7 {
        '7'
    } else if d == 8 {
        '8'
    } else {
        '9'
    }
}

/// The canonical decimal rendering of a non-negative integer.
pub open spec fn dec_nat(n: int) -> Seq<char>
    decreases n,
    via dec_nat_decreases
{
    if n < 10 {
        seq![digit_char(n)]
    } else {
        dec_nat(n / 10) + seq![digit_char(n % 10)]
    }
}

#[via_fn]
proof fn dec_nat_decreases(n: int) {
    if n >= 10 {
        assert(n / 10 < n && n / 10 >= 0) by (nonlinear_arith)
            requires n >= 10;
    }
}

/// The canonical decimal rendering of an integer: a sign for negatives,
/// then the digits with no leading zero.
pub open spec fn dec_int(n: int) -> Seq<char> {
    if n < 0 {
        seq!['-'] + dec_nat(-n)
    } else {
        dec_nat(n)
    }
}

/// One digit as a string slice.
fn digit_str(d: u64) -> (r: &'static str)
    requires
        d < 10,
    ensures
        r@ == seq![digit_char(d as int)],
{
    if d == 0 {
        proof { reveal_strlit("0"); }
        let r = "0";
        proof { assert(r@ =~= seq![digit_char(d as int)]); }
        r
    } else if d == 1 {
        proof { reveal_strlit("1"); }
        let r = "1";
        proof { assert(r@ =~= seq![digit_char(d as int)]); }
        r
    } else if d == 2 {
        proof { reveal_strlit("2"); }
        let r = "2";
        proof { assert(r@ =~= seq![digit_char(d as int)]); }
        r
    } else if d == 3 {
        proof { reveal_strlit("3"); }
        let r = "3";
        proof { assert(r@ =~= seq![digit_char(d as int)]); }
        r
    } else if d == 4 {
        proof { reveal_strlit("4"); }
        let r = "4";
        proof { assert(r@ =~= seq![digit_char(d as int)]); }
        r
    } else if d == 5 {
        proof { reveal_strlit("5"); }
        let r = "5";
        proof { assert(r@ =~= seq![digit_char(d as int)]); }
        r
    } else if d == 6 {
        proof { reveal_strlit("6"); }
        let r = "6";
        proof { assert(r@ =~= seq![digit_char(d as int)]); }
        r
    } else if d == 7 {
        proof { reveal_strlit("7"); }
        let r = "7";
        proof { assert(r@ =~= seq![digit_char(d as int)]); }
        r
    } else if d == 8 {
        proof { reveal_strlit("8"); }
        let r = "8";
        proof { assert(r@ =~= seq![digit_char(d as int)]); }
        r
    } else {
        proof { reveal_strlit("9"); }
        let r = "9";
        proof { assert(r@ =~= seq![digit_char(d as int)]); }
        r
    }
}

/// The digit characters of `ds` read back to front.
pub open spec fn rev_digit_chars(ds: Seq<u64>) -> Seq<char> {
    Seq::new(ds.len(), |i: int| digit_char(ds[ds.len() - 1 - i] as int))
}

/// Renders an integer in canonical decimal form.
pub fn int_to_string(v: i32) -> (r: String)
    ensures
        r@ == dec_int(v as int),
{
    let neg = v < 0;
    let mut m: u64 = if neg {
        (-(v as i64)) as u64
    } else {
        v as u64
    };
    let ghost m0 = m as int;
    let mut ds: Vec<u64> = Vec::new();
    proof {
        assert(rev_digit_chars(ds@) =~= Seq::<char>::empty());
    }
    while m >= 10
        invariant
            0 <= m,
            neg == (v < 0),
            m0 == (if v < 0 { -(v as int) } else { v as int }),
            forall|k: int| 0 <= k < ds@.len() ==> ds@[k] < 10,
            dec_nat(m0) =~= dec_nat(m as int) + rev_digit_chars(ds@),
        decreases m,
    {
        let d = m % 10;
        let ghost old_ds = ds@;
        let ghost old_m = m as int;
        ds.push(d);
        m = m / 10;
        proof {
            assert(rev_digit_chars(ds@) =~= seq![digit_char(d as int)] + rev_digit_chars(old_ds));
            assert(dec_nat(old_m) == dec_nat(old_m / 10) + seq![digit_char(old_m % 10)]);
            assert(dec_nat(m0) =~= dec_nat(m as int) + rev_digit_chars(ds@));
        }
    }
    let last = m;
    let ghost final_chars = seq![digit_char(last as int)] + rev_digit_chars(ds@);
    proof {
        assert(dec_nat(m as int) == seq![digit_char(m as int)]);
        assert(dec_nat(m0) =~= final_chars);
    }
    let mut out = String::new();
    if neg {
        proof { reveal_strlit("-"); }
        out.append("-");
        proof {
            assert(out@ =~= seq!['-']);
        }
    }
    let ghost head = out@;
    proof {
        assert(head == (if neg { seq!['-'] } else { Seq::<char>::empty() }));
    }
    out.append(digit_str(last));
    proof {
        assert(final_chars.len() == 1 + rev_digit_chars(ds@).len());
        assert(final_chars.take(1) =~= seq![digit_char(last as int)]);
        assert(out@ =~= head + final_chars.take(final_chars.len() - ds@.len()));
    }
    let mut k: usize = ds.len();
    while k > 0
        invariant
            k <= ds@.len(),
            neg == (v < 0),
            m0 == (if v < 0 { -(v as int) } else { v as int }),
            final_chars == dec_nat(m0),
            final_chars == seq![digit_char(last as int)] + rev_digit_chars(ds@),
            head == (if neg { seq!['-'] } else { Seq::<char>::empty() }),
            final_chars.len() >= ds@.len(),
            forall|j: int| 0 <= j < ds@.len() ==> ds@[j] < 10,
            out@ =~= head + final_chars.take(final_chars.len() - k),
        decreases k,
    {
        k = k - 1;
        let ghost before = out@;
        out.append(digit_str(ds[k]));
        proof {
            assert(rev_digit_chars(ds@)[ds@.len() - 1 - k] == digit_char(ds@[k as int] as int));
            assert(final_chars[final_chars.len() - 1 - k] == digit_char(ds@[k as int] as int));
            assert(out@ =~= head + final_chars.take(final_chars.len() - k));
        }
    }
    proof {
        assert(final_chars.take(final_chars.len() as int) =~= final_chars);
        if neg {
            assert(out@ =~= seq!['-'] + dec_nat(m0));
            assert(m0 == -(v as int));
        } else {
            assert(out@ =~= dec_nat(m0));
        }
    }
    out
}

} // verus!
