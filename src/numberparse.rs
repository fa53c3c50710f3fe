//! The JSON number grammar, with integer/float disambiguation.
use vstd::prelude::*;

verus! {

pub const MINUS: u8 = 45;

pub const PLUS: u8 = 43;

pub const DOT: u8 = 46;

pub const ZERO: u8 = 48;

/// 2^63, the magnitude of `i64::MIN`.
pub const TWO_POW_63: u64 = 9223372036854775808;

/// A numeric literal: an integer that fits in an `i64`, or a literal that needs a
/// double (a fraction, an exponent, or an integer out of range), given by the span
/// of its text in the input.
#[derive(Debug, Clone, Copy, PartialEq, Eq, Structural)]
pub enum Number {
    I64(i64),
    F64 { start: usize, end: usize },
}

pub open spec fn is_digit(b: u8) -> bool {
    48 <= b <= 57
}

/// The first offset at or after `i` that holds no digit.
pub open spec fn digits_end(s: Seq<u8>, i: int) -> int
    decreases s.len() - i,
{
    if i < 0 || i >= s.len() || !is_digit(s[i]) {
        i
    } else {
        digits_end(s, i + 1)
    }
}

/// The value of the decimal digits in `a..b`.
pub open spec fn digits_value(s: Seq<u8>, a: int, b: int) -> int
    decreases b - a,
{
    if b <= a {
        0
    } else {
        digits_value(s, a, b - 1) * 10 + (s[b - 1] - ZERO)
    }
}

/// Where the digits of the integer part start: after an optional minus sign.
pub open spec fn int_start(s: Seq<u8>, i: int) -> int {
    if i < s.len() && s[i] == MINUS {
        i + 1
    } else {
        i
    }
}

/// Where the integer part ends: a lone zero, or a run of digits.
pub open spec fn int_end(s: Seq<u8>, p: int) -> int {
    if s[p] == ZERO {
        p + 1
    } else {
        digits_end(s, p)
    }
}

pub open spec fn is_exponent_mark(b: u8) -> bool {
    b == 101 || b == 69
}

/// The end of the literal at `i`, or the offset at which it breaks the grammar.
pub open spec fn number_end(s: Seq<u8>, i: int) -> Result<int, int> {
    let p = int_start(s, i);
    if p >= s.len() || !is_digit(s[p]) {
        Err(p)
    } else {
        let ie = int_end(s, p);
        if s[p] == ZERO && ie < s.len() && is_digit(s[ie]) {
            Err(ie)
        } else {
            let fe: Result<int, int> = if ie < s.len() && s[ie] == DOT {
                let f = digits_end(s, ie + 1);
                if f == ie + 1 {
                    Err(f)
                } else {
                    Ok(f)
                }
            } else {
                Ok(ie)
            };
            match fe {
                Err(e) => Err(e),
                Ok(f) => if f < s.len() && is_exponent_mark(s[f]) {
                    let q = if f + 1 < s.len() && (s[f + 1] == PLUS || s[f + 1] == MINUS) {
                        f + 2
                    } else {
                        f + 1
                    };
                    let ee = digits_end(s, q);
                    if ee == q {
                        Err(q)
                    } else {
                        Ok(ee)
                    }
                } else {
                    Ok(f)
                },
            }
        }
    }
}

/// What the literal at `i` denotes: an `i64` where it has neither fraction nor exponent
/// and its value fits, else the span of a literal that needs a double; or the offset at
/// which it breaks the grammar.
pub open spec fn number_spec(s: Seq<u8>, i: int) -> Result<Number, int> {
    match number_end(s, i) {
        Err(e) => Err(e),
        Ok(end) => {
            let p = int_start(s, i);
            let neg = p != i;
            let mag = digits_value(s, p, int_end(s, p));
            let v = if neg {
                -mag
            } else {
                mag
            };
            if end == int_end(s, p) && i64::MIN <= v <= i64::MAX {
                Ok(Number::I64(v as i64))
            } else {
                Ok(Number::F64 { start: i as usize, end: end as usize })
            }
        },
    }
}

proof fn lemma_digits_value_nonneg(s: Seq<u8>, a: int, b: int)
    requires
        forall|k: int| a <= k < b ==> is_digit(s[k]),
    ensures
        digits_value(s, a, b) >= 0,
    decreases b - a,
{
    if b > a {
        lemma_digits_value_nonneg(s, a, b - 1);
    }
}

proof fn lemma_digits_end(s: Seq<u8>, i: int)
    requires
        0 <= i <= s.len(),
    ensures
        i <= digits_end(s, i) <= s.len(),
        forall|k: int| i <= k < digits_end(s, i) ==> is_digit(s[k]),
        digits_end(s, i) < s.len() ==> !is_digit(s[digits_end(s, i)]),
    decreases s.len() - i,
{
    if i < s.len() && is_digit(s[i]) {
        lemma_digits_end(s, i + 1);
    }
}

/// Skips the digits from `i` on.
fn skip_digits(s: &Vec<u8>, i: usize) -> (r: usize)
    requires
        i <= s.len(),
    ensures
        r == digits_end(s@, i as int),
        i <= r <= s.len(),
{
    let mut k = i;
    while k < s.len() && 48 <= s[k] && s[k] <= 57
        invariant
            i <= k <= s.len(),
            digits_end(s@, i as int) == digits_end(s@, k as int),
        decreases s.len() - k,
    {
        k += 1;
    }
    k
}

/// The magnitude of the digits in `a..b`, or `None` where it exceeds 2^63.
fn digits_magnitude(s: &Vec<u8>, a: usize, b: usize) -> (r: Option<u64>)
    requires
        a <= b <= s.len(),
        forall|k: int| a <= k < b ==> is_digit(s@[k]),
    ensures
        match r {
            Some(m) => m == digits_value(s@, a as int, b as int) && m <= TWO_POW_63,
            None => digits_value(s@, a as int, b as int) > TWO_POW_63,
        },
{
    let mut acc: u64 = 0;
    let mut big = false;
    let mut k = a;
    while k < b
        invariant
            a <= k <= b <= s.len(),
            forall|j: int| a <= j < b ==> is_digit(s@[j]),
            !big ==> acc == digits_value(s@, a as int, k as int) && acc <= TWO_POW_63,
            big ==> digits_value(s@, a as int, k as int) > TWO_POW_63,
        decreases b - k,
    {
        let d = (s[k] - ZERO) as u64;
        proof {
            lemma_digits_value_nonneg(s@, a as int, k as int);
        }
        if !big {
            if acc <= 922337203685477580 {
                acc = acc * 10 + d;
                if acc > TWO_POW_63 {
                    big = true;
                }
            } else {
                big = true;
            }
        }
        k += 1;
    }
    if big {
        None
    } else {
        Some(acc)
    }
}

/// Parses the number literal at `i` by the JSON grammar; also returns where it ends.
pub fn parse_number_end(s: &Vec<u8>, i: usize) -> (r: Result<(Number, usize), usize>)
    requires
        i <= s.len(),
    ensures
        match number_spec(s@, i as int) {
            Ok(n) => r is Ok && r->Ok_0.0 == n && number_end(s@, i as int) == Ok::<int, int>(
                r->Ok_0.1 as int,
            ) && r->Ok_0.1 <= s.len(),
            Err(e) => r == Err::<(Number, usize), usize>(e as usize),
        },
        match r {
            Ok((Number::F64 { start, end }, _)) => start == i && i <= end <= s.len(),
            _ => true,
        },
        i < s.len() && s@[i as int] != MINUS ==> match r {
            Ok((Number::I64(n), _)) => n >= 0,
            _ => true,
        },
{
    let len = s.len();
    let neg = i < len && s[i] == MINUS;
    let p = if neg {
        i + 1
    } else {
        i
    };
    if p >= len || !(48 <= s[p] && s[p] <= 57) {
        return Err(p);
    }
    let ie = if s[p] == ZERO {
        p + 1
    } else {
        skip_digits(s, p)
    };
    proof {
        lemma_digits_end(s@, p as int);
    }
    if s[p] == ZERO && ie < len && 48 <= s[ie] && s[ie] <= 57 {
        return Err(ie);
    }
    let mut f = ie;
    if ie < len && s[ie] == DOT {
        f = skip_digits(s, ie + 1);
        if f == ie + 1 {
            return Err(f);
        }
    }
    let mut end = f;
    if f < len && (s[f] == 101 || s[f] == 69) {
        let q = if f + 1 < len && (s[f + 1] == PLUS || s[f + 1] == MINUS) {
            f + 2
        } else {
            f + 1
        };
        end = skip_digits(s, q);
        if end == q {
            return Err(q);
        }
    }
    if end == ie {
        match digits_magnitude(s, p, ie) {
            Some(m) => {
                if neg {
                    if m == TWO_POW_63 {
                        return Ok((Number::I64(i64::MIN), end));
                    }
                    return Ok((Number::I64(-(m as i64)), end));
                } else if m < TWO_POW_63 {
                    return Ok((Number::I64(m as i64), end));
                }
            },
            None => {},
        }
    }
    Ok((Number::F64 { start: i, end }, end))
}

/// Parses the number literal at `i` by the JSON grammar.
pub fn parse_number(s: &Vec<u8>, i: usize) -> (r: Result<Number, usize>)
    requires
        i <= s.len(),
    ensures
        match number_spec(s@, i as int) {
            Ok(n) => r == Ok::<Number, usize>(n),
            Err(e) => r == Err::<Number, usize>(e as usize),
        },
        match r {
            Ok(Number::F64 { start, end }) => start == i && i <= end <= s.len(),
            _ => true,
        },
        i < s.len() && s@[i as int] != MINUS ==> match r {
            Ok(Number::I64(n)) => n >= 0,
            _ => true,
        },
{
    match parse_number_end(s, i) {
        Ok((n, _)) => Ok(n),
        Err(e) => Err(e),
    }
}

} // verus!
