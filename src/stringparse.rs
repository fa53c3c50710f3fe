//! Decoding of JSON string literals, rewriting the input buffer in place.
use vstd::prelude::*;
use crate::error::{Error, ErrorType};

verus! {

pub const QUOTE: u8 = 34;

pub const BACKSLASH: u8 = 92;

pub const LOWER_U: u8 = 117;

/// The byte that the simple escape `\c` stands for, or 0 where `c` is not in the table.
pub open spec fn escape_spec(c: u8) -> u8 {
    if c == 34 {
        34
    } else if c == 92 {
        92
    } else if c == 47 {
        47
    } else if c == 98 {
        8
    } else if c == 102 {
        12
    } else if c == 110 {
        10
    } else if c == 114 {
        13
    } else if c == 116 {
        9
    } else {
        0
    }
}

/// The value of a hexadecimal digit, or -1 where the byte is none.
pub open spec fn hex_spec(b: u8) -> int {
    if 48 <= b <= 57 {
        b - 48
    } else if 97 <= b <= 102 {
        b - 87
    } else if 65 <= b <= 70 {
        b - 55
    } else {
        -1
    }
}

/// The value of the four hexadecimal digits at `i`, or -1 where one of them is no digit.
pub open spec fn hex4_spec(s: Seq<u8>, i: int) -> int {
    let a = hex_spec(s[i]);
    let b = hex_spec(s[i + 1]);
    let c = hex_spec(s[i + 2]);
    let d = hex_spec(s[i + 3]);
    if a < 0 || b < 0 || c < 0 || d < 0 {
        -1
    } else {
        a * 4096 + b * 256 + c * 16 + d
    }
}

/// The UTF-8 encoding of a code point below 0x110000.
pub open spec fn utf8_encode(cp: int) -> Seq<u8> {
    if cp < 0x80 {
        seq![cp as u8]
    } else if cp < 0x800 {
        seq![(0xC0 + cp / 64) as u8, (0x80 + cp % 64) as u8]
    } else if cp < 0x10000 {
        seq![(0xE0 + cp / 4096) as u8, (0x80 + (cp / 64) % 64) as u8, (0x80 + cp % 64) as u8]
    } else {
        seq![
            (0xF0 + cp / 262144) as u8,
            (0x80 + (cp / 4096) % 64) as u8,
            (0x80 + (cp / 64) % 64) as u8,
            (0x80 + cp % 64) as u8,
        ]
    }
}

/// The code point that the `\u` escape at `i` denotes, with the number of input bytes
/// it spans (a surrogate pair spans two escapes).
pub open spec fn unicode_codepoint_spec(s: Seq<u8>, i: int) -> Result<(int, int), ErrorType> {
    if s.len() - i < 6 {
        Err(ErrorType::Syntax)
    } else {
        let h = hex4_spec(s, i + 2);
        if h < 0 {
            Err(ErrorType::InvalidUnicodeCodepoint)
        } else if 0xD800 <= h < 0xDC00 {
            if s.len() - i >= 12 && s[i + 6] == BACKSLASH && s[i + 7] == LOWER_U {
                let l = hex4_spec(s, i + 8);
                if 0xDC00 <= l < 0xE000 {
                    Ok((0x10000 + (h - 0xD800) * 1024 + (l - 0xDC00), 12))
                } else {
                    Err(ErrorType::InvalidUnicodeCodepoint)
                }
            } else {
                Err(ErrorType::InvalidUnicodeCodepoint)
            }
        } else if 0xDC00 <= h < 0xE000 {
            Err(ErrorType::InvalidUnicodeCodepoint)
        } else {
            Ok((h, 6))
        }
    }
}

/// The outcome of decoding string content: the decoded bytes and the offset of the
/// closing quote, or an error kind and the offset where it was detected.
pub type Decoded = Result<(Seq<u8>, int), (ErrorType, int)>;

pub open spec fn prepend(p: Seq<u8>, r: Decoded) -> Decoded {
    match r {
        Ok((out, end)) => Ok((p + out, end)),
        Err(e) => Err(e),
    }
}

/// Decodes the string content that starts at `i`, up to its closing quote.
#[verifier::opaque]
pub open spec fn unescape_from(s: Seq<u8>, i: int) -> Decoded
    decreases s.len() - i,
{
    if i < 0 || i >= s.len() {
        Err((ErrorType::Syntax, s.len() as int))
    } else if s[i] == QUOTE {
        Ok((Seq::empty(), i))
    } else if s[i] == BACKSLASH {
        if i + 1 >= s.len() {
            Err((ErrorType::Syntax, s.len() as int))
        } else if s[i + 1] == LOWER_U {
            match unicode_codepoint_spec(s, i) {
                Ok((cp, n)) => if n > 0 {
                    prepend(utf8_encode(cp), unescape_from(s, i + n))
                } else {
                    Err((ErrorType::Syntax, i))
                },
                Err(e) => Err((e, i)),
            }
        } else if escape_spec(s[i + 1]) != 0 {
            prepend(seq![escape_spec(s[i + 1])], unescape_from(s, i + 2))
        } else {
            Err((ErrorType::InvalidEscape, i))
        }
    } else {
        prepend(seq![s[i]], unescape_from(s, i + 1))
    }
}

/// Whether the content at `i` reaches its closing quote before any backslash.
pub open spec fn quote_before_backslash(s: Seq<u8>, i: int) -> bool
    decreases s.len() - i,
{
    if i < 0 || i >= s.len() {
        false
    } else if s[i] == QUOTE {
        true
    } else if s[i] == BACKSLASH {
        false
    } else {
        quote_before_backslash(s, i + 1)
    }
}

proof fn lemma_prepend_assoc(a: Seq<u8>, b: Seq<u8>, r: Decoded)
    ensures
        prepend(a, prepend(b, r)) == prepend(a + b, r),
{
    match r {
        Ok((out, end)) => {
            assert(a + (b + out) =~= (a + b) + out);
        },
        Err(_) => {},
    }
}

proof fn lemma_prepend_empty(r: Decoded)
    ensures
        prepend(Seq::empty(), r) == r,
{
    match r {
        Ok((out, end)) => {
            assert(Seq::<u8>::empty() + out =~= out);
        },
        Err(_) => {},
    }
}

/// Looks up a simple escape; 0 where `c` is not in the table.
pub fn escape_byte(c: u8) -> (r: u8)
    ensures
        r == escape_spec(c),
{
    if c == 34 {
        34
    } else if c == 92 {
        92
    } else if c == 47 {
        47
    } else if c == 98 {
        8
    } else if c == 102 {
        12
    } else if c == 110 {
        10
    } else if c == 114 {
        13
    } else if c == 116 {
        9
    } else {
        0
    }
}

/// The value of a hexadecimal digit, or -1.
pub fn hex_digit(b: u8) -> (r: i32)
    ensures
        r == hex_spec(b),
{
    if 48 <= b && b <= 57 {
        b as i32 - 48
    } else if 97 <= b && b <= 102 {
        b as i32 - 87
    } else if 65 <= b && b <= 70 {
        b as i32 - 55
    } else {
        -1
    }
}

/// The value of four hexadecimal digits at `i`, or -1.
pub fn parse_hex4(s: &Vec<u8>, i: usize) -> (r: i32)
    requires
        i + 4 <= s.len(),
    ensures
        r == hex4_spec(s@, i as int),
{
    let a = hex_digit(s[i]);
    let b = hex_digit(s[i + 1]);
    let c = hex_digit(s[i + 2]);
    let d = hex_digit(s[i + 3]);
    if a < 0 || b < 0 || c < 0 || d < 0 {
        -1
    } else {
        a * 4096 + b * 256 + c * 16 + d
    }
}

/// Decodes the `\u` escape at `i` (the backslash) to a code point and the number of
/// input bytes it spans, joining a high and a low surrogate.
pub fn handle_unicode_codepoint(s: &Vec<u8>, i: usize) -> (r: Result<(u32, usize), ErrorType>)
    requires
        i < s.len(),
    ensures
        match r {
            Ok((cp, n)) => unicode_codepoint_spec(s@, i as int) == Ok::<(int, int), ErrorType>(
                (cp as int, n as int),
            ),
            Err(e) => unicode_codepoint_spec(s@, i as int) == Err::<(int, int), ErrorType>(e),
        },
{
    if s.len() - i < 6 {
        return Err(ErrorType::Syntax);
    }
    let h = parse_hex4(s, i + 2);
    if h < 0 {
        Err(ErrorType::InvalidUnicodeCodepoint)
    } else if 0xD800 <= h && h < 0xDC00 {
        if s.len() - i >= 12 && s[i + 6] == BACKSLASH && s[i + 7] == LOWER_U {
            let l = parse_hex4(s, i + 8);
            if 0xDC00 <= l && l < 0xE000 {
                let cp = 0x10000 + (h - 0xD800) * 1024 + (l - 0xDC00);
                Ok((cp as u32, 12))
            } else {
                Err(ErrorType::InvalidUnicodeCodepoint)
            }
        } else {
            Err(ErrorType::InvalidUnicodeCodepoint)
        }
    } else if 0xDC00 <= h && h < 0xE000 {
        Err(ErrorType::InvalidUnicodeCodepoint)
    } else {
        Ok((h as u32, 6))
    }
}

/// Writes the UTF-8 encoding of `cp` at `w` and returns its length.
fn write_utf8(buf: &mut Vec<u8>, w: usize, cp: u32) -> (n: usize)
    requires
        cp < 0x110000,
        w + utf8_encode(cp as int).len() <= old(buf).len(),
    ensures
        n == utf8_encode(cp as int).len(),
        final(buf).len() == old(buf).len(),
        final(buf)@.subrange(w as int, w + n) == utf8_encode(cp as int),
        forall|k: int|
            0 <= k < old(buf).len() && (k < w || k >= w + n) ==> final(buf)@[k] == old(buf)@[k],
{
    if cp < 0x80 {
        buf.set(w, cp as u8);
        assert(buf@.subrange(w as int, w + 1) =~= utf8_encode(cp as int));
        1
    } else if cp < 0x800 {
        buf.set(w, (0xC0 + cp / 64) as u8);
        buf.set(w + 1, (0x80 + cp % 64) as u8);
        assert(buf@.subrange(w as int, w + 2) =~= utf8_encode(cp as int));
        2
    } else if cp < 0x10000 {
        buf.set(w, (0xE0 + cp / 4096) as u8);
        buf.set(w + 1, (0x80 + (cp / 64) % 64) as u8);
        buf.set(w + 2, (0x80 + cp % 64) as u8);
        assert(buf@.subrange(w as int, w + 3) =~= utf8_encode(cp as int));
        3
    } else {
        buf.set(w, (0xF0 + cp / 262144) as u8);
        buf.set(w + 1, (0x80 + (cp / 4096) % 64) as u8);
        buf.set(w + 2, (0x80 + (cp / 64) % 64) as u8);
        buf.set(w + 3, (0x80 + cp % 64) as u8);
        assert(buf@.subrange(w as int, w + 4) =~= utf8_encode(cp as int));
        4
    }
}

proof fn lemma_codepoint_bounds(s: Seq<u8>, i: int)
    requires
        0 <= i,
        unicode_codepoint_spec(s, i) is Ok,
    ensures
        ({
            let (cp, n) = unicode_codepoint_spec(s, i)->Ok_0;
            &&& 0 <= cp < 0x110000
            &&& n == 6 || n == 12
            &&& i + n <= s.len()
            &&& utf8_encode(cp).len() <= n
        }),
{
}

/// Two buffers of one length that agree from `i` on decode alike from `i`.
proof fn lemma_codepoint_same(a: Seq<u8>, b: Seq<u8>, i: int)
    requires
        0 <= i < a.len(),
        a.len() == b.len(),
        forall|k: int| i <= k < a.len() ==> a[k] == b[k],
    ensures
        unicode_codepoint_spec(a, i) == unicode_codepoint_spec(b, i),
{
    if a.len() - i >= 6 {
        assert(hex4_spec(a, i + 2) == hex4_spec(b, i + 2));
        if a.len() - i >= 12 {
            assert(hex4_spec(a, i + 8) == hex4_spec(b, i + 8));
        }
    }
}

proof fn lemma_unescape_end(s: Seq<u8>, i: int)
    requires
        0 <= i,
        i >= s.len() || (s[i] == BACKSLASH && i + 1 >= s.len()),
    ensures
        unescape_from(s, i) == Err::<(Seq<u8>, int), (ErrorType, int)>((ErrorType::Syntax, s.len() as int)),
{
    reveal(unescape_from);
}

proof fn lemma_unescape_quote(s: Seq<u8>, i: int)
    requires
        0 <= i < s.len(),
        s[i] == QUOTE,
    ensures
        unescape_from(s, i) == Ok::<(Seq<u8>, int), (ErrorType, int)>((Seq::empty(), i)),
{
    reveal(unescape_from);
}

proof fn lemma_unescape_plain(s: Seq<u8>, i: int)
    requires
        0 <= i < s.len(),
        s[i] != QUOTE,
        s[i] != BACKSLASH,
    ensures
        unescape_from(s, i) == prepend(seq![s[i]], unescape_from(s, i + 1)),
{
    reveal(unescape_from);
}

proof fn lemma_unescape_simple(s: Seq<u8>, i: int)
    requires
        0 <= i,
        i + 1 < s.len(),
        s[i] == BACKSLASH,
        s[i + 1] != LOWER_U,
    ensures
        escape_spec(s[i + 1]) != 0 ==> unescape_from(s, i) == prepend(
            seq![escape_spec(s[i + 1])],
            unescape_from(s, i + 2),
        ),
        escape_spec(s[i + 1]) == 0 ==> unescape_from(s, i) == Err::<(Seq<u8>, int), (ErrorType, int)>(
            (ErrorType::InvalidEscape, i),
        ),
{
    reveal(unescape_from);
}

proof fn lemma_unescape_unicode(s: Seq<u8>, i: int)
    requires
        0 <= i,
        i + 1 < s.len(),
        s[i] == BACKSLASH,
        s[i + 1] == LOWER_U,
    ensures
        match unicode_codepoint_spec(s, i) {
            Ok((cp, n)) => unescape_from(s, i) == prepend(utf8_encode(cp), unescape_from(s, i + n)),
            Err(e) => unescape_from(s, i) == Err::<(Seq<u8>, int), (ErrorType, int)>((e, i)),
        },
{
    reveal(unescape_from);
    if unicode_codepoint_spec(s, i) is Ok {
        lemma_codepoint_bounds(s, i);
    }
}

/// Decoding never reaches past the input: an error is reported at an offset inside it
/// or at its end, and a decoded string ends at a closing quote inside it (so content
/// with no closing quote always fails) and is no longer than the raw content.
pub proof fn lemma_unescape_within_input(s: Seq<u8>, i: int)
    requires
        0 <= i,
    ensures
        match unescape_from(s, i) {
            Ok((out, end)) => i <= end < s.len() && s[end] == QUOTE && out.len() <= end - i,
            Err((e, p)) => p <= s.len(),
        },
    decreases s.len() - i,
{
    reveal(unescape_from);
    if i < s.len() && s[i] != QUOTE {
        if s[i] == BACKSLASH {
            if i + 1 < s.len() {
                if s[i + 1] == LOWER_U {
                    if unicode_codepoint_spec(s, i) is Ok {
                        lemma_codepoint_bounds(s, i);
                        let n = unicode_codepoint_spec(s, i)->Ok_0.1;
                        lemma_unescape_within_input(s, i + n);
                    }
                } else if escape_spec(s[i + 1]) != 0 {
                    lemma_unescape_within_input(s, i + 2);
                }
            }
        } else {
            lemma_unescape_within_input(s, i + 1);
        }
    }
}

/// A string made of one simple escape decodes to the single byte that the escape table
/// gives for it.
pub proof fn lemma_simple_escape_string(s: Seq<u8>, i: int)
    requires
        0 <= i,
        i + 2 < s.len(),
        s[i] == BACKSLASH,
        s[i + 1] != LOWER_U,
        escape_spec(s[i + 1]) != 0,
        s[i + 2] == QUOTE,
    ensures
        unescape_from(s, i) == Ok::<(Seq<u8>, int), (ErrorType, int)>(
            (seq![escape_spec(s[i + 1])], i + 2),
        ),
{
    lemma_unescape_simple(s, i);
    lemma_unescape_quote(s, i + 2);
    assert(seq![escape_spec(s[i + 1])] + Seq::<u8>::empty() =~= seq![escape_spec(s[i + 1])]);
}

/// A string made of one `\u` escape (or one surrogate pair of them) decodes to the UTF-8
/// encoding of the code point it denotes; an escape that denotes none, such as a lone
/// surrogate, is refused as an invalid code point at the backslash.
pub proof fn lemma_unicode_escape_string(s: Seq<u8>, i: int)
    requires
        0 <= i,
        i + 1 < s.len(),
        s[i] == BACKSLASH,
        s[i + 1] == LOWER_U,
    ensures
        match unicode_codepoint_spec(s, i) {
            Ok((cp, n)) => i + n < s.len() && s[i + n] == QUOTE ==> unescape_from(s, i) == Ok::<
                (Seq<u8>, int),
                (ErrorType, int),
            >((utf8_encode(cp), i + n)),
            Err(e) => unescape_from(s, i) == Err::<(Seq<u8>, int), (ErrorType, int)>((e, i)),
        },
{
    lemma_unescape_unicode(s, i);
    if let Ok((cp, n)) = unicode_codepoint_spec(s, i) {
        lemma_codepoint_bounds(s, i);
        if i + n < s.len() && s[i + n] == QUOTE {
            lemma_unescape_quote(s, i + n);
            assert(utf8_encode(cp) + Seq::<u8>::empty() =~= utf8_encode(cp));
        }
    }
}

/// Content that reaches its closing quote before any backslash decodes to itself.
pub proof fn lemma_no_escape_is_verbatim(s: Seq<u8>, i: int)
    requires
        0 <= i,
        quote_before_backslash(s, i),
    ensures
        unescape_from(s, i) is Ok,
        unescape_from(s, i)->Ok_0.0 == s.subrange(i, unescape_from(s, i)->Ok_0.1),
    decreases s.len() - i,
{
    reveal(unescape_from);
    if s[i] == QUOTE {
        assert(Seq::<u8>::empty() =~= s.subrange(i, i));
    } else {
        lemma_no_escape_is_verbatim(s, i + 1);
        let end = unescape_from(s, i + 1)->Ok_0.1;
        lemma_unescape_within_input(s, i + 1);
        assert(seq![s[i]] + s.subrange(i + 1, end) =~= s.subrange(i, end));
    }
}

/// Whether the content at `i` reaches its closing quote before any backslash.
pub fn no_escape_before_quote(s: &Vec<u8>, i: usize) -> (r: bool)
    requires
        i <= s.len(),
    ensures
        r == quote_before_backslash(s@, i as int),
{
    let mut k = i;
    while k < s.len() && s[k] != QUOTE && s[k] != BACKSLASH
        invariant
            i <= k <= s.len(),
            quote_before_backslash(s@, i as int) == quote_before_backslash(s@, k as int),
        decreases s.len() - k,
    {
        k += 1;
    }
    k < s.len() && s[k] == QUOTE
}

/// Decodes, in place, the string content that starts at `start` (just after the opening
/// quote). On success the decoded bytes stand at `start..start + len` and `len` is
/// returned. Content that reaches its closing quote before any backslash is returned
/// as it stands, with no byte of the buffer rewritten.
pub fn unescape_in_place(buf: &mut Vec<u8>, start: usize) -> (r: Result<usize, Error>)
    requires
        start <= old(buf).len(),
    ensures
        final(buf).len() == old(buf).len(),
        final(buf)@.subrange(0, start as int) == old(buf)@.subrange(0, start as int),
        match unescape_from(old(buf)@, start as int) {
            Ok((out, end)) => start + out.len() <= old(buf).len() && r == Ok::<usize, Error>(out.len() as usize) && final(buf)@.subrange(
                start as int,
                start + out.len(),
            ) == out,
            Err((e, pos)) => r is Err && r->Err_0.error == e && r->Err_0.index == pos,
        },
        quote_before_backslash(old(buf)@, start as int) ==> final(buf)@ == old(buf)@,
        r is Ok ==> start + r->Ok_0 <= old(buf).len(),
{
    let ghost s = buf@;
    let len = buf.len();
    let mut r: usize = start;
    // The run before the first quote or backslash is left where it is.
    while r < len && buf[r] != QUOTE && buf[r] != BACKSLASH
        invariant
            start <= r <= len,
            len == buf.len(),
            buf@ == s,
            s == old(buf)@,
            unescape_from(s, start as int) == prepend(
                s.subrange(start as int, r as int),
                unescape_from(s, r as int),
            ),
            quote_before_backslash(s, start as int) == quote_before_backslash(s, r as int),
        decreases len - r,
    {
        proof {
            lemma_unescape_plain(s, r as int);
            lemma_prepend_assoc(s.subrange(start as int, r as int), seq![s[r as int]], unescape_from(s, r + 1));
            assert(s.subrange(start as int, r as int) + seq![s[r as int]] =~= s.subrange(start as int, r + 1));
        }
        r += 1;
    }
    if r == len {
        proof {
            lemma_unescape_end(s, r as int);
        }
        return Err(Error::new(len, ErrorType::Syntax));
    }
    if buf[r] == QUOTE {
        proof {
            lemma_unescape_quote(s, r as int);
            lemma_prepend_empty(unescape_from(s, r as int));
            assert(s.subrange(start as int, r as int) + Seq::<u8>::empty() =~= s.subrange(start as int, r as int));
        }
        return Ok(r - start);
    }
    let mut w: usize = r;
    loop
        invariant
            start <= w <= r <= len,
            len == buf.len(),
            len == s.len(),
            s == old(buf)@,
            forall|k: int| r <= k < len ==> buf@[k] == s[k],
            buf@.subrange(0, start as int) == s.subrange(0, start as int),
            unescape_from(s, start as int) == prepend(
                buf@.subrange(start as int, w as int),
                unescape_from(s, r as int),
            ),
            !quote_before_backslash(s, start as int),
        decreases len - r,
    {
        if r >= len {
            proof {
                lemma_unescape_end(s, r as int);
            }
            return Err(Error::new(len, ErrorType::Syntax));
        }
        let b = buf[r];
        if b == QUOTE {
            proof {
                lemma_unescape_quote(s, r as int);
                assert(buf@.subrange(start as int, w as int) + Seq::<u8>::empty() =~= buf@.subrange(start as int, w as int));
            }
            return Ok(w - start);
        }
        let ghost before = buf@;
        if b == BACKSLASH {
            if r + 1 >= len {
                proof {
                    lemma_unescape_end(s, r as int);
                }
                return Err(Error::new(len, ErrorType::Syntax));
            }
            let c = buf[r + 1];
            if c == LOWER_U {
                proof {
                    lemma_unescape_unicode(s, r as int);
                    lemma_codepoint_same(buf@, s, r as int);
                }
                match handle_unicode_codepoint(buf, r) {
                    Ok((cp, n)) => {
                        proof {
                            lemma_codepoint_bounds(s, r as int);
                        }
                        let m = write_utf8(buf, w, cp);
                        proof {
                            lemma_prepend_assoc(before.subrange(start as int, w as int), utf8_encode(cp as int), unescape_from(s, r + n));
                            assert(buf@.subrange(start as int, w + m) =~= before.subrange(start as int, w as int) + utf8_encode(cp as int));
                        }
                        w += m;
                        r += n;
                    },
                    Err(e) => {
                        return Err(Error::new(r, e));
                    },
                }
            } else {
                proof {
                    lemma_unescape_simple(s, r as int);
                }
                let e = escape_byte(c);
                if e == 0 {
                    return Err(Error::new(r, ErrorType::InvalidEscape));
                }
                buf.set(w, e);
                proof {
                    lemma_prepend_assoc(before.subrange(start as int, w as int), seq![e], unescape_from(s, r + 2));
                    assert(buf@.subrange(start as int, w + 1) =~= before.subrange(start as int, w as int) + seq![e]);
                }
                w += 1;
                r += 2;
            }
        } else {
            buf.set(w, b);
            proof {
                lemma_unescape_plain(s, r as int);
                lemma_prepend_assoc(before.subrange(start as int, w as int), seq![b], unescape_from(s, r + 1));
                assert(buf@.subrange(start as int, w + 1) =~= before.subrange(start as int, w as int) + seq![b]);
            }
            w += 1;
            r += 1;
        }
        assert(buf@.subrange(0, start as int) =~= s.subrange(0, start as int));
    }
}

/// Decodes the string content that starts at `start` into a fresh buffer, leaving the
/// input as it is.
pub fn unescape_to_vec(s: &Vec<u8>, start: usize) -> (r: Result<Vec<u8>, Error>)
    requires
        start <= s.len(),
    ensures
        match unescape_from(s@, start as int) {
            Ok((out, end)) => r is Ok && r->Ok_0@ == out,
            Err((e, pos)) => r is Err && r->Err_0.error == e && r->Err_0.index == pos,
        },
{
    let len = s.len();
    let mut out: Vec<u8> = Vec::new();
    let mut r: usize = start;
    loop
        invariant
            start <= r <= len,
            len == s.len(),
            unescape_from(s@, start as int) == prepend(out@, unescape_from(s@, r as int)),
        decreases len - r,
    {
        if r >= len {
            proof {
                lemma_unescape_end(s@, r as int);
            }
            return Err(Error::new(len, ErrorType::Syntax));
        }
        let b = s[r];
        let ghost before = out@;
        if b == QUOTE {
            proof {
                lemma_unescape_quote(s@, r as int);
                assert(out@ + Seq::<u8>::empty() =~= out@);
            }
            return Ok(out);
        }
        if b == BACKSLASH {
            if r + 1 >= len {
                proof {
                    lemma_unescape_end(s@, r as int);
                }
                return Err(Error::new(len, ErrorType::Syntax));
            }
            let c = s[r + 1];
            if c == LOWER_U {
                proof {
                    lemma_unescape_unicode(s@, r as int);
                }
                match handle_unicode_codepoint(s, r) {
                    Ok((cp, n)) => {
                        proof {
                            lemma_codepoint_bounds(s@, r as int);
                        }
                        let mut tmp: Vec<u8> = vec![0u8, 0u8, 0u8, 0u8];
                        let m = write_utf8(&mut tmp, 0, cp);
                        let mut k: usize = 0;
                        while k < m
                            invariant
                                k <= m <= 4,
                                tmp.len() == 4,
                                tmp@.subrange(0, m as int) == utf8_encode(cp as int),
                                out@ == before + tmp@.subrange(0, k as int),
                            decreases m - k,
                        {
                            out.push(tmp[k]);
                            proof {
                                assert(tmp@.subrange(0, k + 1) =~= tmp@.subrange(0, k as int).push(tmp@[k as int]));
                            }
                            k += 1;
                        }
                        proof {
                            lemma_prepend_assoc(before, utf8_encode(cp as int), unescape_from(s@, r + n));
                        }
                        r += n;
                    },
                    Err(e) => {
                        return Err(Error::new(r, e));
                    },
                }
            } else {
                proof {
                    lemma_unescape_simple(s@, r as int);
                }
                let e = escape_byte(c);
                if e == 0 {
                    return Err(Error::new(r, ErrorType::InvalidEscape));
                }
                out.push(e);
                proof {
                    lemma_prepend_assoc(before, seq![e], unescape_from(s@, r + 2));
                    assert(before.push(e) =~= before + seq![e]);
                }
                r += 2;
            }
        } else {
            out.push(b);
            proof {
                lemma_unescape_plain(s@, r as int);
                lemma_prepend_assoc(before, seq![b], unescape_from(s@, r + 1));
                assert(before.push(b) =~= before + seq![b]);
            }
            r += 1;
        }
    }
}

/// Where content that reaches its closing quote before any backslash ends: the offset
/// of that quote.
pub fn verbatim_end(s: &Vec<u8>, i: usize) -> (r: usize)
    requires
        i <= s.len(),
        quote_before_backslash(s@, i as int),
    ensures
        i <= r < s.len(),
        unescape_from(s@, i as int) == Ok::<(Seq<u8>, int), (ErrorType, int)>(
            (s@.subrange(i as int, r as int), r as int),
        ),
{
    let mut k = i;
    proof {
        lemma_prepend_empty(unescape_from(s@, i as int));
        assert(s@.subrange(i as int, i as int) =~= Seq::<u8>::empty());
    }
    while s[k] != QUOTE
        invariant
            i <= k < s.len(),
            quote_before_backslash(s@, k as int),
            unescape_from(s@, i as int) == prepend(
                s@.subrange(i as int, k as int),
                unescape_from(s@, k as int),
            ),
        decreases s.len() - k,
    {
        proof {
            assert(quote_before_backslash(s@, k + 1));
            assert(k + 1 < s.len());
            lemma_unescape_plain(s@, k as int);
            lemma_prepend_assoc(s@.subrange(i as int, k as int), seq![s@[k as int]], unescape_from(s@, k + 1));
            assert(s@.subrange(i as int, k as int) + seq![s@[k as int]] =~= s@.subrange(i as int, k + 1));
        }
        k += 1;
    }
    proof {
        lemma_unescape_quote(s@, k as int);
        assert(s@.subrange(i as int, k as int) + Seq::<u8>::empty() =~= s@.subrange(i as int, k as int));
    }
    k
}

} // verus!
