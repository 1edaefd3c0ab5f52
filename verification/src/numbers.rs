//! Decimal printing and parsing of task identifiers.

use vstd::prelude::*;
use crate::strutil::push_char;

verus! {

pub open spec fn is_digit(c: char) -> bool {
    '0' <= c && c <= '9'
}

pub open spec fn digit_val(c: char) -> int {
    (c as u32) - 48
}

pub open spec fn char_of_digit(d: int) -> char {
    ((d + 48) as u8) as char
}

/// The decimal digits of a non-negative number, most significant first.
pub open spec fn dec_digits(n: int) -> Seq<char>
    decreases n,
{
    if n <= 9 {
        seq![char_of_digit(n)]
    } else {
        dec_digits(n / 10) + seq![char_of_digit(n % 10)]
    }
}

/// The decimal form of a number, with a leading minus sign when negative.
pub open spec fn dec_of_i32(n: int) -> Seq<char> {
    if n < 0 {
        seq!['-'] + dec_digits(-n)
    } else {
        dec_digits(n)
    }
}

fn push_u32_digits(s: &mut String, n: u32)
    ensures
        final(s)@ == old(s)@ + dec_digits(n as int),
    decreases n,
{
    if n <= 9 {
        push_char(s, ((n + 48) as u8) as char);
        proof {
            assert(final(s)@ =~= old(s)@ + dec_digits(n as int));
        }
    } else {
        push_u32_digits(s, n / 10);
        push_char(s, ((n % 10 + 48) as u8) as char);
        proof {
            assert(final(s)@ =~= old(s)@ + dec_digits(n as int));
        }
    }
}

/// Appends the decimal form of `n` to the string.
pub fn push_i32_dec(s: &mut String, n: i32)
    ensures
        final(s)@ == old(s)@ + dec_of_i32(n as int),
{
    if n < 0 {
        push_char(s, '-');
        let m: u32 = (-(n as i64)) as u32;
        push_u32_digits(s, m);
        proof {
            assert(final(s)@ =~= old(s)@ + dec_of_i32(n as int));
        }
    } else {
        push_u32_digits(s, n as u32);
    }
}

/// Accumulator values are capped here so that a machine word can carry them;
/// anything above the cap is already outside the range of an `i32`.
pub open spec fn cap_acc(x: int) -> int {
    if x > 0x1_0000_0000 {
        0x1_0000_0001
    } else {
        x
    }
}

/// Reads a run of decimal digits starting at `i`, extending the accumulator;
/// returns the (capped) value and the position after the last digit.
pub open spec fn digits_run(t: Seq<char>, i: int, acc: int) -> (int, int)
    decreases t.len() - i,
{
    if 0 <= i < t.len() && is_digit(t[i]) {
        digits_run(t, i + 1, cap_acc(acc * 10 + digit_val(t[i])))
    } else {
        (acc, i)
    }
}

/// What `str::parse::<i32>` accepts: an optional sign, then only digits,
/// with the value in range.
pub open spec fn i32_of_str(s: Seq<char>) -> Option<int> {
    if s.len() == 0 {
        None
    } else {
        let neg = s[0] == '-';
        let start: int = if s[0] == '-' || s[0] == '+' {
            1
        } else {
            0
        };
        if start >= s.len() || !is_digit(s[start]) {
            None
        } else {
            let (v, end) = digits_run(s, start, 0);
            let sv = if neg {
                -v
            } else {
                v
            };
            if end == s.len() && -0x8000_0000 <= sv <= 0x7FFF_FFFF {
                Some(sv)
            } else {
                None
            }
        }
    }
}

/// The message reported when an identifier cannot be read as a number.
pub open spec fn invalid_id_msg(s: Seq<char>) -> Seq<char> {
    "Error: Invalid Task ID '"@ + s + "'. Must be a number."@
}

pub(crate) fn digits_run_x(t: &str, i: usize, n: usize, acc: i64) -> (r: (i64, usize))
    requires
        n == t@.len(),
        i <= n,
        0 <= acc <= 0x1_0000_0001,
    ensures
        (r.0 as int, r.1 as int) == digits_run(t@, i as int, acc as int),
        i <= r.1 <= n,
        0 <= r.0 <= 0x1_0000_0001,
    decreases n - i,
{
    if i < n {
        let c = t.get_char(i);
        let v: u32 = c as u32;
        if 48 <= v && v <= 57 {
            let mut acc2: i64 = acc * 10 + ((v - 48) as i64);
            if acc2 > 0x1_0000_0000 {
                acc2 = 0x1_0000_0001;
            }
            return digits_run_x(t, i + 1, n, acc2);
        }
        (acc, i)
    } else {
        (acc, i)
    }
}

/// Reads a task identifier the way the command line hands it over:
/// an optional sign followed by digits, nothing else around it.
pub fn parse_task_id(s: &str) -> (r: Result<i32, String>)
    ensures
        r is Ok <==> i32_of_str(s@) is Some,
        r matches Ok(v) ==> i32_of_str(s@) == Some(v as int),
        r matches Err(m) ==> m@ == invalid_id_msg(s@),
{
    let n: usize = s.unicode_len();
    let mut ok: bool = false;
    let mut value: i32 = 0;
    if n > 0 {
        let c0 = s.get_char(0);
        let neg = c0 == '-';
        let start: usize = if c0 == '-' || c0 == '+' {
            1
        } else {
            0
        };
        if start < n {
            let c1 = s.get_char(start);
            let v1: u32 = c1 as u32;
            if 48 <= v1 && v1 <= 57 {
                let (v, end) = digits_run_x(s, start, n, 0);
                if end == n {
                    if neg {
                        if v <= 0x8000_0000 {
                            ok = true;
                            value = (-v) as i32;
                        }
                    } else {
                        if v <= 0x7FFF_FFFF {
                            ok = true;
                            value = v as i32;
                        }
                    }
                }
            }
        }
    }
    if ok {
        Ok(value)
    } else {
        let mut m = String::new();
        m.append("Error: Invalid Task ID '");
        m.append(s);
        m.append("'. Must be a number.");
        proof {
            assert(m@ =~= invalid_id_msg(s@));
        }
        Err(m)
    }
}

} // verus!
