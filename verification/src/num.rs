//! Decimal numbers as text: parsing unsigned values and formatting
//! integers, with exact character-level specifications.

use vstd::prelude::*;
use vstd::string::StrSliceExecFns;
use vstd::string::StringExecFns;

verus! {

/// `c` is a decimal digit.
pub open spec fn is_digit(c: char) -> bool {
    48 <= c as int <= 57
}

/// The numeric value of a digit character.
pub open spec fn digit_val(c: char) -> int {
    c as int - 48
}

/// All characters of `s` are decimal digits.
pub open spec fn all_digits(s: Seq<char>) -> bool {
    forall|i: int| 0 <= i < s.len() ==> is_digit(#[trigger] s[i])
}

/// The value of a digit string, most significant digit first.
pub open spec fn digits_val(s: Seq<char>) -> int
    decreases s.len(),
{
    if s.len() == 0 {
        0
    } else {
        digits_val(s.drop_last()) * 10 + digit_val(s.last())
    }
}

/// A digit string has a non-negative value.
pub proof fn lemma_digits_val_nonneg(s: Seq<char>)
    requires
        all_digits(s),
    ensures
        digits_val(s) >= 0,
    decreases s.len(),
{
    if s.len() > 0 {
        assert(all_digits(s.drop_last())) by {
            assert(forall|i: int|
                0 <= i < s.len() - 1 ==> s.drop_last()[i] == #[trigger] s[i]);
        }
        lemma_digits_val_nonneg(s.drop_last());
    }
}

/// Every prefix of a digit string has a value no larger than the whole.
pub proof fn lemma_digits_val_prefix(s: Seq<char>, i: int)
    requires
        all_digits(s),
        0 <= i <= s.len(),
    ensures
        digits_val(s.take(i)) <= digits_val(s),
    decreases s.len() - i,
{
    if i < s.len() {
        lemma_digits_val_prefix(s, i + 1);
        let t = s.take(i + 1);
        assert(t.drop_last() =~= s.take(i));
        assert(all_digits(s.take(i))) by {
            assert(forall|k: int| 0 <= k < i ==> s.take(i)[k] == #[trigger] s[k]);
        }
        lemma_digits_val_nonneg(s.take(i));
        assert(t.last() == s[i]);
        assert(is_digit(s[i]));
        assert(digits_val(t) == digits_val(s.take(i)) * 10 + digit_val(s[i]));
        assert(digits_val(s.take(i)) * 10 >= digits_val(s.take(i))) by (nonlinear_arith)
            requires
                digits_val(s.take(i)) >= 0,
        ;
    } else {
        assert(s.take(i) =~= s);
    }
}

/// The value denoted by a non-empty all-digit string, if it fits in `u64`.
pub open spec fn parse_u64_spec(s: Seq<char>) -> Option<u64> {
    if s.len() > 0 && all_digits(s) && digits_val(s) <= u64::MAX {
        Some(digits_val(s) as u64)
    } else {
        None
    }
}

/// Parse a decimal `u64`: digits only, no sign, overflow rejected.
pub fn parse_u64(s: &str) -> (r: Option<u64>)
    ensures
        r == parse_u64_spec(s@),
{
    let len = s.unicode_len();
    if len == 0 {
        return None;
    }
    let mut acc: u64 = 0;
    let mut i: usize = 0;
    while i < len
        invariant
            i <= len,
            len == s@.len(),
            len > 0,
            all_digits(s@.take(i as int)),
            acc == digits_val(s@.take(i as int)),
        decreases len - i,
    {
        let c = s.get_char(i);
        let code = c as u32;
        if code < 48 || code > 57 {
            proof {
                assert(!is_digit(s@[i as int]));
            }
            return None;
        }
        let d: u64 = (code - 48) as u64;
        let ghost pre = s@.take(i as int);
        let ghost cur = s@.take(i as int + 1);
        proof {
            assert(cur.drop_last() =~= pre);
            assert(cur.last() == s@[i as int]);
            assert(all_digits(cur)) by {
                assert(forall|k: int| 0 <= k < i ==> cur[k] == pre[k]);
            }
            assert(digits_val(cur) == acc * 10 + d);
        }
        if acc > (u64::MAX - d) / 10 {
            proof {
                assert(acc * 10 + d > u64::MAX) by (nonlinear_arith)
                    requires
                        acc > (u64::MAX - d) / 10,
                        d <= 9,
                ;
                assert(digits_val(cur) > u64::MAX);
                if all_digits(s@) {
                    lemma_digits_val_prefix(s@, i as int + 1);
                    assert(digits_val(s@) > u64::MAX);
                }
            }
            return None;
        }
        proof {
            assert(acc * 10 + d <= u64::MAX) by (nonlinear_arith)
                requires
                    acc <= (u64::MAX - d) / 10,
                    d <= 9,
                    acc >= 0,
            ;
        }
        acc = acc * 10 + d;
        i += 1;
    }
    proof {
        assert(s@.take(len as int) =~= s@);
    }
    Some(acc)
}

/// The digit character for a value in 0 ..= 9.
pub open spec fn dec_digit_char(d: int) -> char {
    if d == 0 {
        '0'
    } else if d == 1 {
        '1'
    } else if d == 2 {
        '2'
    } else if d == 3 {
        '3'
    } else if d == 4 {
        '4'
    } else if d == 5 {
        '5'
    } else if d == 6 {
        '6'
    } else if d == 7 {
        '7'
    } else if d == 8 {
        '8'
    } else {
        '9'
    }
}

/// The decimal digit string of a non-negative integer.
pub open spec fn dec_str(n: int) -> Seq<char>
    decreases n,
{
    if n < 10 {
        seq![dec_digit_char(n)]
    } else {
        dec_str(n / 10).push(dec_digit_char(n % 10))
    }
}

/// The decimal string of an integer, with a leading minus when negative.
pub open spec fn int_str(n: int) -> Seq<char> {
    if n < 0 {
        seq!['-'] + dec_str(-n)
    } else {
        dec_str(n)
    }
}

/// The one-character string for a digit value.
fn digit_str(d: u64) -> (r: &'static str)
    requires
        d <= 9,
    ensures
        r@ =~= seq![dec_digit_char(d as int)],
{
    proof {
        reveal_strlit("0");
        reveal_strlit("1");
        reveal_strlit("2");
        reveal_strlit("3");
        reveal_strlit("4");
        reveal_strlit("5");
        reveal_strlit("6");
        reveal_strlit("7");
        reveal_strlit("8");
        reveal_strlit("9");
    }
    if d == 0 {
        "0"
    } else if d == 1 {
        "1"
    } else if d == 2 {
        "2"
    } else if d == 3 {
        "3"
    } else if d == 4 {
        "4"
    } else if d == 5 {
        "5"
    } else if d == 6 {
        "6"
    } else if d == 7 {
        "7"
    } else if d == 8 {
        "8"
    } else {
        "9"
    }
}

/// Format a `u64` in decimal.
pub fn u64_to_string(n: u64) -> (r: String)
    ensures
        r@ == dec_str(n as int),
    decreases n,
{
    if n < 10 {
        digit_str(n).to_owned()
    } else {
        let mut s = u64_to_string(n / 10);
        s.append(digit_str(n % 10));
        proof {
            assert(s@ =~= dec_str(n as int / 10).push(dec_digit_char(n as int % 10)));
        }
        s
    }
}

/// Format an `i32` in decimal, with a minus sign when negative.
pub fn i32_to_string(n: i32) -> (r: String)
    ensures
        r@ == int_str(n as int),
{
    if n >= 0 {
        let r = u64_to_string(n as u64);
        r
    } else {
        let wide: i64 = n as i64;
        let mag: u64 = (-wide) as u64;
        proof {
            assert(mag == -(n as int));
        }
        let mut s = String::new();
        proof {
            reveal_strlit("-");
        }
        s.append("-");
        let digits = u64_to_string(mag);
        s.append(digits.as_str());
        proof {
            assert("-"@ =~= seq!['-']);
            assert(s@ =~= seq!['-'] + dec_str(-(n as int)));
        }
        s
    }
}

} // verus!
