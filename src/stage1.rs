//! The structural indexer: one pass over the input that records where each token starts.
use vstd::prelude::*;
use crate::error::{Error, ErrorType};
use crate::stringparse::{QUOTE, BACKSLASH};
use crate::deser::MAX_INPUT_LEN;

verus! {

/// Whether the byte is JSON whitespace.
pub open spec fn is_ws(b: u8) -> bool {
    b == 32 || b == 9 || b == 10 || b == 13
}

/// Whether the byte is structural punctuation: `{ } [ ] : ,`.
pub open spec fn is_punct(b: u8) -> bool {
    b == 123 || b == 125 || b == 91 || b == 93 || b == 58 || b == 44
}

/// Whether the scan is inside a string literal after the first `n` bytes, and whether
/// the last of them was an escaping backslash.
pub open spec fn scan_state(s: Seq<u8>, n: int) -> (bool, bool)
    decreases n,
{
    if n <= 0 {
        (false, false)
    } else {
        let (ins, esc) = scan_state(s, n - 1);
        let b = s[n - 1];
        if !ins {
            (b == QUOTE, false)
        } else if esc {
            (true, false)
        } else if b == BACKSLASH {
            (true, true)
        } else if b == QUOTE {
            (false, false)
        } else {
            (true, false)
        }
    }
}

/// Whether a token starts at `i`: outside any string, a punctuation byte, an opening
/// quote, or the first byte of a literal (one that follows the start, whitespace or
/// punctuation).
pub open spec fn starts_token(s: Seq<u8>, i: int) -> bool {
    let b = s[i];
    !scan_state(s, i).0 && (is_punct(b) || b == QUOTE || (!is_ws(b) && (i == 0 || is_ws(s[i - 1])
        || is_punct(s[i - 1]))))
}

/// The offsets among the first `n` bytes at which a token starts, in increasing order.
pub open spec fn structurals(s: Seq<u8>, n: int) -> Seq<u32>
    decreases n,
{
    if n <= 0 {
        Seq::empty()
    } else if starts_token(s, n - 1) {
        structurals(s, n - 1).push((n - 1) as u32)
    } else {
        structurals(s, n - 1)
    }
}

pub proof fn lemma_structurals_bounded(s: Seq<u8>, n: int)
    requires
        0 <= n,
    ensures
        forall|k: int| 0 <= k < structurals(s, n).len() ==> structurals(s, n)[k] < n,
        structurals(s, n).len() <= n,
    decreases n,
{
    if n > 0 {
        lemma_structurals_bounded(s, n - 1);
    }
}

/// Whether the byte is JSON whitespace.
pub fn is_whitespace(b: u8) -> (r: bool)
    ensures
        r == is_ws(b),
{
    b == 32 || b == 9 || b == 10 || b == 13
}

/// Whether the byte is structural punctuation.
pub fn is_structural_punct(b: u8) -> (r: bool)
    ensures
        r == is_punct(b),
{
    b == 123 || b == 125 || b == 91 || b == 93 || b == 58 || b == 44
}

/// Indexes the input: the offsets at which tokens start, in increasing order. Fails
/// where the input reaches the 4 GiB ceiling or ends inside a string literal.
pub fn find_structural_indexes(input: &Vec<u8>) -> (r: Result<Vec<u32>, Error>)
    ensures
        match r {
            Ok(idx) => input.len() <= MAX_INPUT_LEN && !scan_state(input@, input.len() as int).0
                && idx@ == structurals(input@, input.len() as int),
            Err(e) => (input.len() > MAX_INPUT_LEN && e.error == ErrorType::InputTooLarge) || (
            input.len() <= MAX_INPUT_LEN && scan_state(input@, input.len() as int).0
                && e == Error { index: input.len(), error: ErrorType::Syntax }),
        },
{
    let len = input.len();
    if len > MAX_INPUT_LEN {
        return Err(Error::new(len, ErrorType::InputTooLarge));
    }
    let mut out: Vec<u32> = Vec::new();
    let mut in_string = false;
    let mut escaped = false;
    let mut i: usize = 0;
    while i < len
        invariant
            len == input.len() <= MAX_INPUT_LEN,
            i <= len,
            (in_string, escaped) == scan_state(input@, i as int),
            out@ == structurals(input@, i as int),
        decreases len - i,
    {
        let b = input[i];
        if !in_string {
            let starts = is_structural_punct(b) || b == QUOTE || (!is_whitespace(b) && (i == 0
                || is_whitespace(input[i - 1]) || is_structural_punct(input[i - 1])));
            if starts {
                out.push(i as u32);
            }
            in_string = b == QUOTE;
            escaped = false;
        } else if escaped {
            escaped = false;
        } else if b == BACKSLASH {
            escaped = true;
        } else if b == QUOTE {
            in_string = false;
        }
        i += 1;
    }
    if in_string {
        return Err(Error::new(len, ErrorType::Syntax));
    }
    Ok(out)
}

} // verus!
