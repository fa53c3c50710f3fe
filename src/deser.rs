//! The token cursor: a walk over the structural indexes with typed extraction.
use vstd::prelude::*;
use vstd::slice::slice_subrange;
use vstd::utf8::{valid_utf8, decode_utf8};
use crate::error::{Error, ErrorType};
use crate::numberparse::{Number, number_spec, parse_number, is_digit, MINUS};
use crate::stage1::{find_structural_indexes, structurals, scan_state, lemma_structurals_bounded};
use crate::stringparse::{unescape_from, unescape_in_place, quote_before_backslash, QUOTE};

verus! {

/// Documents at or above 4 GiB are refused: offsets are stored in 32 bits.
pub const MAX_INPUT_LEN: usize = 4294967295;

/// A cursor over the input and its structural indexes. `idx` counts the tokens
/// consumed; `iidx` is the byte offset of the last one.
#[derive(Debug)]
pub struct Deserializer {
    pub input: Vec<u8>,
    pub structural_indexes: Vec<u32>,
    pub idx: usize,
    pub iidx: usize,
}

/// Whether every byte of `s` in `a..b` is a digit or a minus sign.
pub open spec fn integral_span(s: Seq<u8>, a: int, b: int) -> bool {
    forall|k: int| a <= k < b ==> is_digit(s[k]) || s[k] == MINUS
}

/// Relies on `std::str::from_utf8`: it accepts exactly the valid UTF-8 byte sequences,
/// and the text it returns is those bytes, borrowed in place.
#[verifier::external_body]
pub(crate) fn utf8_str<'a>(b: &'a [u8]) -> (r: Option<&'a str>)
    ensures
        r is Some <==> valid_utf8(b@),
        r is Some ==> r->Some_0@ == decode_utf8(b@),
{
    std::str::from_utf8(b).ok()
}

impl Deserializer {
    pub open spec fn wf(&self) -> bool {
        &&& self.input.len() <= MAX_INPUT_LEN
        &&& self.idx <= self.structural_indexes.len()
        &&& forall|k: int|
            0 <= k < self.structural_indexes.len() ==> self.structural_indexes@[k]
                < self.input.len()
        &&& self.idx > 0 ==> self.iidx == self.structural_indexes@[self.idx - 1]
        &&& self.idx == 0 ==> self.iidx == 0
    }

    /// The byte offset of the next token, if there is one.
    pub open spec fn next_offset(&self) -> Option<int> {
        if self.idx < self.structural_indexes.len() {
            Some(self.structural_indexes@[self.idx as int] as int)
        } else {
            None
        }
    }

    /// A cursor before the first token. Fails where the input reaches the 4 GiB
    /// ceiling or an index points past its end.
    pub fn new(input: Vec<u8>, structural_indexes: Vec<u32>) -> (r: Result<Deserializer, Error>)
        ensures
            match r {
                Ok(d) => d.wf() && d.input == input && d.structural_indexes == structural_indexes
                    && d.idx == 0 && d.iidx == 0,
                Err(e) => input.len() > MAX_INPUT_LEN || exists|k: int|
                    0 <= k < structural_indexes.len() && structural_indexes@[k] >= input.len(),
            },
            input.len() <= MAX_INPUT_LEN && (forall|k: int|
                0 <= k < structural_indexes.len() ==> structural_indexes@[k] < input.len())
                ==> r is Ok,
    {
        if input.len() > MAX_INPUT_LEN {
            return Err(Error::new(MAX_INPUT_LEN, ErrorType::InputTooLarge));
        }
        let mut k: usize = 0;
        while k < structural_indexes.len()
            invariant
                k <= structural_indexes.len(),
                forall|j: int| 0 <= j < k ==> structural_indexes@[j] < input.len(),
            decreases structural_indexes.len() - k,
        {
            if structural_indexes[k] as usize >= input.len() {
                return Err(Error::new(structural_indexes[k] as usize, ErrorType::Syntax));
            }
            k += 1;
        }
        Ok(Deserializer { input, structural_indexes, idx: 0, iidx: 0 })
    }

    /// Indexes the input and returns a cursor before its first token. Fails where the
    /// input reaches the 4 GiB ceiling or ends inside a string literal.
    pub fn from_slice(input: Vec<u8>) -> (r: Result<Deserializer, Error>)
        ensures
            match r {
                Ok(d) => d.wf() && d.input == input && d.idx == 0 && d.iidx == 0 && !scan_state(input@, input.len() as int).0
                    && d.structural_indexes@ == structurals(input@, input.len() as int),
                Err(e) => input.len() > MAX_INPUT_LEN || scan_state(input@, input.len() as int).0,
            },
            input.len() <= MAX_INPUT_LEN && !scan_state(input@, input.len() as int).0 ==> r is Ok,
    {
        let idx = match find_structural_indexes(&input) {
            Ok(idx) => idx,
            Err(e) => return Err(e),
        };
        proof {
            lemma_structurals_bounded(input@, input.len() as int);
        }
        Deserializer::new(input, idx)
    }

    /// Advances to the next token and returns its first byte.
    pub fn next(&mut self) -> (r: Result<u8, Error>)
        requires
            old(self).wf(),
        ensures
            final(self).wf(),
            final(self).input == old(self).input,
            final(self).structural_indexes == old(self).structural_indexes,
            match old(self).next_offset() {
                Some(off) => r == Ok::<u8, Error>(old(self).input@[off])
                    && final(self).idx == old(self).idx + 1 && final(self).iidx == off,
                None => r == Err::<u8, Error>(Error { index: old(self).iidx, error: ErrorType::UnexpectedEnd })
                    && final(self).idx == old(self).idx && final(self).iidx == old(self).iidx,
            },
            r is Err ==> r->Err_0.index <= old(self).input.len(),
    {
        if self.idx < self.structural_indexes.len() {
            self.iidx = self.structural_indexes[self.idx] as usize;
            self.idx = self.idx + 1;
            Ok(self.input[self.iidx])
        } else {
            Err(Error::new(self.iidx, ErrorType::UnexpectedEnd))
        }
    }

    /// The first byte of the next token, without advancing.
    pub fn peek(&self) -> (r: Result<u8, Error>)
        requires
            self.wf(),
        ensures
            match self.next_offset() {
                Some(off) => r == Ok::<u8, Error>(self.input@[off]),
                None => r == Err::<u8, Error>(Error { index: self.iidx, error: ErrorType::UnexpectedEnd }),
            },
            r is Err ==> r->Err_0.index <= self.input.len(),
    {
        if self.idx < self.structural_indexes.len() {
            Ok(self.input[self.structural_indexes[self.idx] as usize])
        } else {
            Err(Error::new(self.iidx, ErrorType::UnexpectedEnd))
        }
    }
    /// Whether every byte in `a..b` is a digit or a minus sign.
    fn span_is_integral(s: &Vec<u8>, a: usize, b: usize) -> (r: bool)
        requires
            a <= b <= s.len(),
        ensures
            r == integral_span(s@, a as int, b as int),
    {
        let mut k = a;
        while k < b
            invariant
                a <= k <= b <= s.len(),
                integral_span(s@, a as int, k as int),
            decreases b - k,
        {
            if !((48 <= s[k] && s[k] <= 57) || s[k] == MINUS) {
                return false;
            }
            k += 1;
        }
        true
    }

    /// Takes the next token as a strictly integer literal.
    pub fn parse_signed(&mut self) -> (r: Result<i64, Error>)
        requires
            old(self).wf(),
        ensures
            final(self).wf(),
            final(self).input == old(self).input,
            final(self).structural_indexes == old(self).structural_indexes,
            match old(self).next_offset() {
                None => r == Err::<i64, Error>(Error { index: old(self).iidx, error: ErrorType::UnexpectedEnd }),
                Some(off) => {
                    let s = old(self).input@;
                    if s[off] == MINUS || is_digit(s[off]) {
                        match number_spec(s, off) {
                            Ok(Number::I64(n)) => r == Ok::<i64, Error>(n),
                            Ok(Number::F64 { start, end }) => r == Err::<i64, Error>(Error {
                                index: off as usize,
                                error: if integral_span(s, start as int, end as int) {
                                    ErrorType::IntegerTooLarge
                                } else {
                                    ErrorType::ExpectedSigned
                                },
                            }),
                            Err(p) => r == Err::<i64, Error>(Error { index: p as usize, error: ErrorType::Syntax }),
                        }
                    } else {
                        r == Err::<i64, Error>(Error { index: off as usize, error: ErrorType::ExpectedSigned })
                    }
                },
            },
    {
        let b = match self.next() {
            Ok(b) => b,
            Err(e) => return Err(e),
        };
        if b == MINUS || (48 <= b && b <= 57) {
            match parse_number(&self.input, self.iidx) {
                Ok(Number::I64(n)) => Ok(n),
                Ok(Number::F64 { start, end }) => {
                    if Self::span_is_integral(&self.input, start, end) {
                        Err(Error::new(self.iidx, ErrorType::IntegerTooLarge))
                    } else {
                        Err(Error::new(self.iidx, ErrorType::ExpectedSigned))
                    }
                },
                Err(p) => Err(Error::new(p, ErrorType::Syntax)),
            }
        } else {
            Err(Error::new(self.iidx, ErrorType::ExpectedSigned))
        }
    }

    /// Takes the next token as a strictly integer literal without a sign.
    pub fn parse_unsigned(&mut self) -> (r: Result<u64, Error>)
        requires
            old(self).wf(),
        ensures
            final(self).wf(),
            final(self).input == old(self).input,
            final(self).structural_indexes == old(self).structural_indexes,
            match old(self).next_offset() {
                None => r == Err::<u64, Error>(Error { index: old(self).iidx, error: ErrorType::UnexpectedEnd }),
                Some(off) => {
                    let s = old(self).input@;
                    if is_digit(s[off]) {
                        match number_spec(s, off) {
                            Ok(Number::I64(n)) => n >= 0 && r == Ok::<u64, Error>(n as u64),
                            Ok(Number::F64 { start, end }) => r == Err::<u64, Error>(Error {
                                index: off as usize,
                                error: if integral_span(s, start as int, end as int) {
                                    ErrorType::IntegerTooLarge
                                } else {
                                    ErrorType::ExpectedUnsigned
                                },
                            }),
                            Err(p) => r == Err::<u64, Error>(Error { index: p as usize, error: ErrorType::Syntax }),
                        }
                    } else {
                        r == Err::<u64, Error>(Error { index: off as usize, error: ErrorType::ExpectedUnsigned })
                    }
                },
            },
    {
        let b = match self.next() {
            Ok(b) => b,
            Err(e) => return Err(e),
        };
        if 48 <= b && b <= 57 {
            match parse_number(&self.input, self.iidx) {
                Ok(Number::I64(n)) => Ok(n as u64),
                Ok(Number::F64 { start, end }) => {
                    if Self::span_is_integral(&self.input, start, end) {
                        Err(Error::new(self.iidx, ErrorType::IntegerTooLarge))
                    } else {
                        Err(Error::new(self.iidx, ErrorType::ExpectedUnsigned))
                    }
                },
                Err(p) => Err(Error::new(p, ErrorType::Syntax)),
            }
        } else {
            Err(Error::new(self.iidx, ErrorType::ExpectedUnsigned))
        }
    }

    /// Takes the next token as any numeric literal. An integer literal comes back as
    /// `Number::I64`, to be widened by the caller.
    pub fn parse_double(&mut self) -> (r: Result<Number, Error>)
        requires
            old(self).wf(),
        ensures
            final(self).wf(),
            final(self).input == old(self).input,
            final(self).structural_indexes == old(self).structural_indexes,
            match old(self).next_offset() {
                None => r == Err::<Number, Error>(Error { index: old(self).iidx, error: ErrorType::UnexpectedEnd }),
                Some(off) => {
                    let s = old(self).input@;
                    if s[off] == MINUS || is_digit(s[off]) {
                        match number_spec(s, off) {
                            Ok(n) => r == Ok::<Number, Error>(n),
                            Err(p) => r == Err::<Number, Error>(Error { index: p as usize, error: ErrorType::Syntax }),
                        }
                    } else {
                        r == Err::<Number, Error>(Error { index: off as usize, error: ErrorType::ExpectedFloat })
                    }
                },
            },
    {
        let b = match self.next() {
            Ok(b) => b,
            Err(e) => return Err(e),
        };
        if b == MINUS || (48 <= b && b <= 57) {
            match parse_number(&self.input, self.iidx) {
                Ok(n) => Ok(n),
                Err(p) => Err(Error::new(p, ErrorType::Syntax)),
            }
        } else {
            Err(Error::new(self.iidx, ErrorType::ExpectedFloat))
        }
    }

    /// Decodes, in place, the string whose opening quote is the current token, and
    /// returns where its content now stands: its offset and its length. A string
    /// without escapes is returned where it stands in the input, which is left as it was.
    pub fn parse_str_(&mut self) -> (r: Result<(usize, usize), Error>)
        requires
            old(self).wf(),
        ensures
            final(self).wf(),
            final(self).idx == old(self).idx,
            final(self).iidx == old(self).iidx,
            final(self).structural_indexes == old(self).structural_indexes,
            final(self).input.len() == old(self).input.len(),
            old(self).idx > 0 ==> final(self).input@.subrange(0, old(self).iidx + 1)
                == old(self).input@.subrange(0, old(self).iidx + 1),
            ({
                let s = old(self).input@;
                let i = old(self).iidx;
                if old(self).idx == 0 || s[i as int] != QUOTE {
                    r == Err::<(usize, usize), Error>(Error { index: i, error: ErrorType::Syntax })
                        && final(self).input@ == old(self).input@
                } else {
                    match unescape_from(s, i + 1) {
                        Ok((out, end)) => i + 1 + out.len() <= s.len() && out.len() <= end - (i + 1)
                            && r == Ok::<(usize, usize), Error>(((i + 1) as usize, out.len() as usize))
                            && final(self).input@.subrange(i + 1, i + 1 + out.len()) == out,
                        Err((e, p)) => r == Err::<(usize, usize), Error>(Error { index: p as usize, error: e }),
                    }
                }
            }),
            old(self).idx > 0 && quote_before_backslash(old(self).input@, old(self).iidx + 1)
                ==> final(self).input@ == old(self).input@,
        r is Ok ==> r->Ok_0.0 + r->Ok_0.1 <= final(self).input.len(),
    {
        if self.idx == 0 || self.input[self.iidx] != QUOTE {
            return Err(Error::new(self.iidx, ErrorType::Syntax));
        }
        let start = self.iidx + 1;
        proof {
            crate::stringparse::lemma_unescape_within_input(self.input@, start as int);
        }
        match unescape_in_place(&mut self.input, start) {
            Ok(n) => Ok((start, n)),
            Err(e) => Err(e),
        }
    }

    /// Decodes the string whose opening quote is the current token into an owned
    /// `String`; content that is not valid UTF-8 is refused.
    pub fn parse_string(&mut self) -> (r: Result<String, Error>)
        requires
            old(self).wf(),
        ensures
            final(self).wf(),
            final(self).idx == old(self).idx,
            final(self).structural_indexes == old(self).structural_indexes,
            ({
                let s = old(self).input@;
                let i = old(self).iidx;
                if old(self).idx == 0 || s[i as int] != QUOTE {
                    r == Err::<String, Error>(Error { index: i, error: ErrorType::Syntax })
                } else {
                    match unescape_from(s, i + 1) {
                        Ok((out, end)) => if valid_utf8(out) {
                            r is Ok && r->Ok_0@ == decode_utf8(out)
                        } else {
                            r == Err::<String, Error>(Error { index: i, error: ErrorType::InvalidUtf8 })
                        },
                        Err((e, p)) => r == Err::<String, Error>(Error { index: p as usize, error: e }),
                    }
                }
            }),
    {
        let (start, n) = match self.parse_str_() {
            Ok(x) => x,
            Err(e) => return Err(e),
        };
        let ghost s = old(self).input@;
        let whole = self.input.as_slice();
        let bytes = slice_subrange(whole, start, start + n);
        proof {
            if let Ok((out, end)) = unescape_from(s, start as int) {
                assert(bytes@ =~= self.input@.subrange(start as int, start + n));
            }
        }
        match utf8_str(bytes) {
            Some(t) => Ok(t.to_owned()),
            None => Err(Error::new(self.iidx, ErrorType::InvalidUtf8)),
        }
    }
    /// Decodes the string whose opening quote is the current token and returns it as
    /// text borrowed from the rewritten input: no copy is made.
    pub fn parse_borrowed_str<'a>(&'a mut self) -> (r: Result<&'a str, Error>)
        requires
            old(self).wf(),
        ensures
            ({
                let s = old(self).input@;
                let i = old(self).iidx;
                if old(self).idx == 0 || s[i as int] != QUOTE {
                    r == Err::<&str, Error>(Error { index: i, error: ErrorType::Syntax })
                } else {
                    match unescape_from(s, i + 1) {
                        Ok((out, end)) => if valid_utf8(out) {
                            r is Ok && r->Ok_0@ == decode_utf8(out)
                        } else {
                            r == Err::<&str, Error>(Error { index: i, error: ErrorType::InvalidUtf8 })
                        },
                        Err((e, p)) => r == Err::<&str, Error>(Error { index: p as usize, error: e }),
                    }
                }
            }),
    {
        let (start, n) = match self.parse_str_() {
            Ok(x) => x,
            Err(e) => return Err(e),
        };
        let ghost s = old(self).input@;
        let iidx = self.iidx;
        let whole = self.input.as_slice();
        let bytes = slice_subrange(whole, start, start + n);
        proof {
            if let Ok((out, end)) = unescape_from(s, start as int) {
                assert(bytes@ =~= self.input@.subrange(start as int, start + n));
            }
        }
        match utf8_str(bytes) {
            Some(t) => Ok(t),
            None => Err(Error::new(iidx, ErrorType::InvalidUtf8)),
        }
    }
}

} // verus!
