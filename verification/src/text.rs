//! Decimal text: rendering integers in their canonical decimal form and
//! parsing integer literals, both against exact specifications.

use vstd::prelude::*;

use crate::datum::TDim;

verus! {

/// A decimal digit.
pub open spec fn is_digit(c: char) -> bool {
    48 <= (c as u32) <= 57
}

/// The value of a decimal digit.
pub open spec fn digit_val(c: char) -> int {
    (c as u32) - 48
}

/// The digit character for a value below ten.
pub open spec fn digit_char(d: int) -> char {
    if d == 0 {
        '0'
    } else if d == 1 {
        '1'
    } else if d == 2 {
        '2'
    } else if d == 3 {
        '3'
    } else if d == 4 {
        '4'
    } else if d == 5 {
        '5'
    } else if d == 6 {
        '6'
    } else if d == 7 {
        '7'
    } else if d == 8 {
        '8'
    } else {
        '9'
    }
}

/// Every character is a decimal digit.
pub open spec fn all_digits(s: Seq<char>) -> bool {
    forall|i: int| 0 <= i < s.len() ==> is_digit(#[trigger] s[i])
}

/// The value of a digit string, most significant digit first.
pub open spec fn digits_val(s: Seq<char>) -> int
    decreases s.len(),
{
    if s.len() == 0 {
        0
    } else {
        digits_val(s.drop_last()) * 10 + digit_val(s.last())
    }
}

/// An optionally signed, non-empty run of decimal digits.
pub open spec fn int_literal_ok(s: Seq<char>) -> bool {
    if s.len() == 0 {
        false
    } else if s[0] == '-' || s[0] == '+' {
        s.len() >= 2 && all_digits(s.skip(1))
    } else {
        all_digits(s)
    }
}

/// The signed value of an integer literal.
pub open spec fn int_literal_val(s: Seq<char>) -> int {
    if s.len() > 0 && s[0] == '-' {
        -digits_val(s.skip(1))
    } else if s.len() > 0 && s[0] == '+' {
        digits_val(s.skip(1))
    } else {
        digits_val(s)
    }
}

/// The canonical decimal rendering of a non-negative value.
pub open spec fn dec_rep(n: int) -> Seq<char>
    decreases n,
{
    if n < 10 {
        seq![digit_char(n)]
    } else {
        dec_rep(n / 10).push(digit_char(n % 10))
    }
}

/// The canonical decimal rendering of a signed value.
pub open spec fn int_rep(v: int) -> Seq<char> {
    if v < 0 {
        seq!['-'] + dec_rep(-v)
    } else {
        dec_rep(v)
    }
}

/// The rendering of a boolean.
pub open spec fn bool_rep(b: bool) -> Seq<char> {
    if b {
        seq!['t', 'r', 'u', 'e']
    } else {
        seq!['f', 'a', 'l', 's', 'e']
    }
}

/// The rendering of a symbolic dimension: its value where it is resolved,
/// `S` and the symbol id where it is not.
pub open spec fn tdim_rep(d: TDim) -> Seq<char> {
    match d {
        TDim::Val(v) => int_rep(v as int),
        TDim::Sym(id) => seq!['S'] + dec_rep(id as int),
    }
}

/// A digit string has a non-negative value.
pub proof fn lemma_digits_val_nonneg(s: Seq<char>)
    requires
        all_digits(s),
    ensures
        digits_val(s) >= 0,
    decreases s.len(),
{
    if s.len() > 0 {
        assert(forall|i: int|
            0 <= i < s.drop_last().len() ==> is_digit(#[trigger] s.drop_last()[i]));
        lemma_digits_val_nonneg(s.drop_last());
        assert(is_digit(s.last()));
    }
}

/// A prefix of a digit string is worth no more than the whole string.
pub proof fn lemma_digits_prefix_le(s: Seq<char>, k: int)
    requires
        all_digits(s),
        0 <= k <= s.len(),
    ensures
        digits_val(s.take(k)) <= digits_val(s),
    decreases s.len() - k,
{
    if k < s.len() {
        lemma_digits_prefix_le(s, k + 1);
        assert(s.take(k + 1).drop_last() =~= s.take(k));
        assert(s.take(k + 1).last() == s[k]);
        assert(forall|i: int| 0 <= i < s.take(k).len() ==> is_digit(#[trigger] s.take(k)[i]));
        lemma_digits_val_nonneg(s.take(k));
        assert(digits_val(s.take(k + 1)) == digits_val(s.take(k)) * 10 + digit_val(s[k]));
        assert(digits_val(s.take(k)) * 10 >= digits_val(s.take(k))) by (nonlinear_arith)
            requires
                digits_val(s.take(k)) >= 0,
        ;
        assert(is_digit(s[k]));
    } else {
        assert(s.take(k) =~= s);
    }
}

/// The digit character of a digit value, as a one-character string.
fn digit_str(d: u8) -> (r: &'static str)
    requires
        d < 10,
    ensures
        r@ == seq![digit_char(d as int)],
{
    proof {
        reveal_strlit("0");
        reveal_strlit("1");
        reveal_strlit("2");
        reveal_strlit("3");
        reveal_strlit("4");
        reveal_strlit("5");
        reveal_strlit("6");
        reveal_strlit("7");
        reveal_strlit("8");
        reveal_strlit("9");
    }
    let r = match d {
        0 => "0",
        1 => "1",
        2 => "2",
        3 => "3",
        4 => "4",
        5 => "5",
        6 => "6",
        7 => "7",
        8 => "8",
        _ => "9",
    };
    proof {
        assert(r@ =~= seq![digit_char(d as int)]);
    }
    r
}

/// Render a non-negative value in decimal.
pub fn render_u64(v: u64) -> (r: String)
    ensures
        r@ == dec_rep(v as int),
    decreases v,
{
    if v < 10 {
        let s = digit_str(v as u8);
        let r = s.to_owned();
        proof {
            assert(r@ =~= dec_rep(v as int));
        }
        r
    } else {
        let mut r = render_u64(v / 10);
        let d = digit_str((v % 10) as u8);
        r.append(d);
        proof {
            assert(r@ =~= dec_rep((v / 10) as int).push(digit_char((v % 10) as int)));
        }
        r
    }
}

/// Render a signed value in decimal, with a leading minus sign where it is
/// negative.
pub fn render_i128(v: i128) -> (r: String)
    requires
        -0x8000000000000000 <= v,
        v <= u64::MAX,
    ensures
        r@ == int_rep(v as int),
{
    if v < 0 {
        proof {
            reveal_strlit("-");
        }
        let mag: u64 = (-v) as u64;
        let mut r = "-".to_owned();
        let m = render_u64(mag);
        r.append(m.as_str());
        proof {
            assert(r@ =~= int_rep(v as int));
        }
        r
    } else {
        render_u64(v as u64)
    }
}

/// Parse an integer literal whose value must lie in `[min, max]`.  `Ok`
/// exactly when the text is a well-formed literal and its value is in
/// range.
pub fn parse_int(s: &str, min: i128, max: i128) -> (r: Option<i128>)
    requires
        min <= 0 <= max,
        max <= u64::MAX,
        -0x10000000000000000 <= min,
    ensures
        match r {
            Some(v) => int_literal_ok(s@) && v == int_literal_val(s@) && min <= v <= max,
            None => !(int_literal_ok(s@) && min <= int_literal_val(s@) <= max),
        },
{
    let n = s.unicode_len();
    if n == 0 {
        return None;
    }
    let c0 = s.get_char(0);
    let neg = c0 == '-';
    let signed = neg || c0 == '+';
    let start: usize = if signed {
        1
    } else {
        0
    };
    if n == start {
        return None;
    }
    let ghost digits = s@.skip(start as int);
    proof {
        if start == 0 {
            assert(s@.skip(0) =~= s@);
        }
    }
    let limit: i128 = if neg {
        -min
    } else {
        max
    };
    let mut acc: i128 = 0;
    let mut i: usize = start;
    proof {
        assert(digits.take(0) =~= Seq::<char>::empty());
    }
    while i < n
        invariant
            start <= i <= n,
            n == s@.len(),
            start == 0 || start == 1,
            start == 1 ==> (s@[0] == '-' || s@[0] == '+'),
            start == 0 ==> !(s@[0] == '-' || s@[0] == '+'),
            neg == (s@[0] == '-'),
            n > start,
            digits == s@.skip(start as int),
            start == 0 ==> digits == s@,
            neg ==> limit == -min,
            !neg ==> limit == max,
            min <= 0 <= max,
            max <= u64::MAX,
            -0x10000000000000000 <= min,
            forall|k: int| 0 <= k < i - start ==> is_digit(#[trigger] digits[k]),
            acc == digits_val(digits.take(i - start)),
            0 <= acc <= limit,
        decreases n - i,
    {
        let c = s.get_char(i);
        let cu = c as u32;
        if cu < 48 || cu > 57 {
            proof {
                assert(digits[i - start] == s@[i as int]);
                assert(!is_digit(digits[i - start]));
                assert(!int_literal_ok(s@));
            }
            return None;
        }
        let d = (cu - 48) as i128;
        proof {
            assert(digits.take(i - start + 1).drop_last() =~= digits.take(i - start));
            assert(digits.take(i - start + 1).last() == digits[i - start]);
        }
        let over = if d > limit {
            true
        } else {
            acc > (limit - d) / 10
        };
        if over {
            proof {
                // the value of the digits seen so far already exceeds the
                // limit, and more digits can only increase it
                let cur = digits_val(digits.take(i - start + 1));
                assert(cur == acc * 10 + d);
                if d > limit {
                    assert(acc * 10 >= 0) by (nonlinear_arith)
                        requires
                            acc >= 0,
                    ;
                } else {
                    assert(acc * 10 + d > limit) by (nonlinear_arith)
                        requires
                            acc > (limit - d) / 10,
                            acc >= 0,
                            0 <= d <= limit,
                            limit >= 0,
                    ;
                }
                if int_literal_ok(s@) {
                    assert(all_digits(digits));
                    lemma_digits_prefix_le(digits, i - start + 1);
                    assert(digits_val(digits) > limit);
                    lemma_digits_val_nonneg(digits);
                    if neg {
                        assert(int_literal_val(s@) == -digits_val(digits));
                        assert(int_literal_val(s@) < min);
                    } else {
                        assert(int_literal_val(s@) == digits_val(digits));
                        assert(int_literal_val(s@) > max);
                    }
                }
            }
            return None;
        }
        proof {
            assert(acc * 10 + d <= limit) by (nonlinear_arith)
                requires
                    acc <= (limit - d) / 10,
                    acc >= 0,
                    0 <= d <= limit,
                    limit >= 0,
            ;
            assert(acc * 10 >= 0) by (nonlinear_arith)
                requires
                    acc >= 0,
            ;
        }
        acc = acc * 10 + d;
        i = i + 1;
    }
    proof {
        assert(digits.take(n - start) =~= digits);
        assert(all_digits(digits));
        if start == 0 {
            assert(s@.skip(0) =~= s@);
        }
        assert(int_literal_ok(s@));
        if neg {
            assert(int_literal_val(s@) == -digits_val(digits));
        }
    }
    if neg {
        Some(-acc)
    } else {
        Some(acc)
    }
}

/// Parse a boolean literal: exactly `true` or `false`.
pub fn parse_bool(s: &str) -> (r: Option<bool>)
    ensures
        match r {
            Some(b) => s@ == bool_rep(b),
            None => s@ != bool_rep(true) && s@ != bool_rep(false),
        },
{
    let n = s.unicode_len();
    if n == 4 {
        if s.get_char(0) == 't' && s.get_char(1) == 'r' && s.get_char(2) == 'u' && s.get_char(3)
            == 'e' {
            proof {
                assert(s@ =~= bool_rep(true));
            }
            return Some(true);
        }
        proof {
            assert(s@ != bool_rep(true));
            assert(s@ != bool_rep(false));
        }
        None
    } else if n == 5 {
        if s.get_char(0) == 'f' && s.get_char(1) == 'a' && s.get_char(2) == 'l' && s.get_char(3)
            == 's' && s.get_char(4) == 'e' {
            proof {
                assert(s@ =~= bool_rep(false));
            }
            return Some(false);
        }
        proof {
            assert(s@ != bool_rep(false));
            assert(s@ != bool_rep(true));
        }
        None
    } else {
        None
    }
}

/// Render a boolean.
pub fn render_bool(b: bool) -> (r: String)
    ensures
        r@ == bool_rep(b),
{
    proof {
        reveal_strlit("true");
        reveal_strlit("false");
    }
    let r = if b {
        "true".to_owned()
    } else {
        "false".to_owned()
    };
    proof {
        assert(r@ =~= bool_rep(b));
    }
    r
}

/// Render a symbolic dimension.
pub fn render_tdim(d: &TDim) -> (r: String)
    ensures
        r@ == tdim_rep(*d),
{
    match d {
        TDim::Val(v) => render_i128(*v as i128),
        TDim::Sym(id) => {
            proof {
                reveal_strlit("S");
            }
            let mut r = "S".to_owned();
            let m = render_u64(*id);
            r.append(m.as_str());
            proof {
                assert(r@ =~= tdim_rep(*d));
            }
            r
        },
    }
}

} // verus!
