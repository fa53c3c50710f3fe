//! Building an owned value tree from a document: a walk over its structural indexes.
use vstd::prelude::*;
use vstd::utf8::{valid_utf8, decode_utf8};
use crate::deser::{utf8_str, MAX_INPUT_LEN};
use crate::error::{Error, ErrorType};
use crate::numberparse::{Number, number_spec, number_end, parse_number_end, is_digit, MINUS};
use crate::stage1::{find_structural_indexes, structurals, scan_state, is_ws, is_punct,
    lemma_structurals_bounded, is_whitespace, is_structural_punct};
use crate::stringparse::{quote_before_backslash, unescape_from, unescape_to_vec, no_escape_before_quote, verbatim_end, QUOTE};
use std::borrow::Cow;
use vstd::slice::slice_subrange;
use crate::borrowed::{BorrowedValue, borrowed_well_formed, keys_unique as borrowed_keys_unique, insert_entry as borrowed_insert_entry,
    lemma_key_index_found as borrowed_lemma_key_index_found, lemma_key_index_absent as borrowed_lemma_key_index_absent};
use crate::value::{OwnedValue, key_index, insert_entry, well_formed, keys_unique, lemma_key_index_absent, lemma_key_index_found};

verus! {

broadcast use vstd::std_specs::vec::axiom_vec_index_decreases;

/// What a document denotes, token by token: a double is given by the span of its
/// literal; a string carries whether its literal held no escape.
pub ghost enum Doc {
    Null,
    Bool(bool),
    Int(i64),
    Float(int, int),
    Str(Seq<char>, bool),
    Arr(Seq<Doc>),
    Obj(Seq<(Seq<char>, Doc)>),
}

pub open spec fn ends_atom(s: Seq<u8>, e: int) -> bool {
    e == s.len() || (0 <= e < s.len() && (is_ws(s[e]) || is_punct(s[e])))
}

/// Whether the literal `lit` stands at `o`, followed by the end, whitespace or punctuation.
pub open spec fn atom_ok(s: Seq<u8>, o: int, lit: Seq<u8>) -> bool {
    0 <= o && o + lit.len() <= s.len() && s.subrange(o, o + lit.len()) == lit && ends_atom(
        s,
        o + lit.len(),
    )
}

/// The text of the string literal whose opening quote is at `o`.
pub open spec fn string_at(s: Seq<u8>, o: int) -> Option<Seq<char>> {
    match unescape_from(s, o + 1) {
        Ok((out, end)) => if valid_utf8(out) {
            Some(decode_utf8(out))
        } else {
            None
        },
        Err(_) => None,
    }
}

/// The index of the first entry whose key is `k`, or -1.
pub open spec fn doc_key_index_from(acc: Seq<(Seq<char>, Doc)>, k: Seq<char>, j: int) -> int
    decreases acc.len() - j,
{
    if j < 0 || j >= acc.len() {
        -1
    } else if acc[j].0 == k {
        j
    } else {
        doc_key_index_from(acc, k, j + 1)
    }
}

/// Inserts an entry: a later value for a key replaces the earlier one in its place.
pub open spec fn obj_insert(acc: Seq<(Seq<char>, Doc)>, k: Seq<char>, d: Doc) -> Seq<(Seq<char>, Doc)> {
    let j = doc_key_index_from(acc, k, 0);
    if j >= 0 {
        acc.update(j, (k, d))
    } else {
        acc.push((k, d))
    }
}

pub open spec fn tok(s: Seq<u8>, t: Seq<u32>, k: int) -> u8 {
    s[t[k] as int]
}

/// The value whose first token is token `k`, and the index of the token after it.
pub open spec fn parse_doc(s: Seq<u8>, t: Seq<u32>, k: int) -> Option<(Doc, int)>
    decreases t.len() - k, 0int,
{
    if k < 0 || k >= t.len() || t[k] >= s.len() {
        None
    } else {
        let o = t[k] as int;
        let b = s[o];
        if b == 123 {
            if k + 1 < t.len() && t[k + 1] < s.len() && tok(s, t, k + 1) == 125 {
                Some((Doc::Obj(Seq::empty()), k + 2))
            } else {
                parse_members(s, t, k + 1, Seq::empty())
            }
        } else if b == 91 {
            if k + 1 < t.len() && t[k + 1] < s.len() && tok(s, t, k + 1) == 93 {
                Some((Doc::Arr(Seq::empty()), k + 2))
            } else {
                parse_elems(s, t, k + 1, Seq::empty())
            }
        } else if b == QUOTE {
            match string_at(s, o) {
                Some(x) => Some((Doc::Str(x, quote_before_backslash(s, o + 1)), k + 1)),
                None => None,
            }
        } else if b == 116 {
            if atom_ok(s, o, seq![116u8, 114u8, 117u8, 101u8]) {
                Some((Doc::Bool(true), k + 1))
            } else {
                None
            }
        } else if b == 102 {
            if atom_ok(s, o, seq![102u8, 97u8, 108u8, 115u8, 101u8]) {
                Some((Doc::Bool(false), k + 1))
            } else {
                None
            }
        } else if b == 110 {
            if atom_ok(s, o, seq![110u8, 117u8, 108u8, 108u8]) {
                Some((Doc::Null, k + 1))
            } else {
                None
            }
        } else if b == MINUS || is_digit(b) {
            match number_end(s, o) {
                Ok(e) => if ends_atom(s, e) {
                    match number_spec(s, o) {
                        Ok(Number::I64(n)) => Some((Doc::Int(n), k + 1)),
                        Ok(Number::F64 { start, end }) => Some((Doc::Float(start as int, end as int), k + 1)),
                        Err(_) => None,
                    }
                } else {
                    None
                },
                Err(_) => None,
            }
        } else {
            None
        }
    }
}

/// The elements of an array from token `k` on, after those in `acc`.
pub open spec fn parse_elems(s: Seq<u8>, t: Seq<u32>, k: int, acc: Seq<Doc>) -> Option<(Doc, int)>
    decreases t.len() - k, 1int,
{
    if k < 0 || k >= t.len() {
        None
    } else {
        match parse_doc(s, t, k) {
            None => None,
            Some((d, k2)) => if k2 <= k || k2 >= t.len() || t[k2] >= s.len() {
                None
            } else if tok(s, t, k2) == 44 {
                parse_elems(s, t, k2 + 1, acc.push(d))
            } else if tok(s, t, k2) == 93 {
                Some((Doc::Arr(acc.push(d)), k2 + 1))
            } else {
                None
            },
        }
    }
}

/// The members of an object from token `k` on, inserted after those in `acc`.
pub open spec fn parse_members(s: Seq<u8>, t: Seq<u32>, k: int, acc: Seq<(Seq<char>, Doc)>) -> Option<(Doc, int)>
    decreases t.len() - k, 1int,
{
    if k < 0 || k + 2 >= t.len() || t[k] >= s.len() || t[k + 1] >= s.len() {
        None
    } else if tok(s, t, k) != QUOTE || tok(s, t, k + 1) != 58 {
        None
    } else {
        match string_at(s, t[k] as int) {
            None => None,
            Some(key) => match parse_doc(s, t, k + 2) {
                None => None,
                Some((d, k2)) => if k2 <= k + 2 || k2 >= t.len() || t[k2] >= s.len() {
                    None
                } else if tok(s, t, k2) == 44 {
                    parse_members(s, t, k2 + 1, obj_insert(acc, key, d))
                } else if tok(s, t, k2) == 125 {
                    Some((Doc::Obj(obj_insert(acc, key, d)), k2 + 1))
                } else {
                    None
                },
            },
        }
    }
}

/// The document the tokens `t` of `s` form: one value spanning all of them.
pub open spec fn parse_document(s: Seq<u8>, t: Seq<u32>) -> Option<Doc> {
    match parse_doc(s, t, 0) {
        Some((d, k)) => if k == t.len() {
            Some(d)
        } else {
            None
        },
        None => None,
    }
}

/// Whether the value `v` is what `d` denotes, where `fl(start, end, bits)` says which
/// bit patterns stand for the double literal at `start..end`.
pub open spec fn models(v: OwnedValue, d: Doc, fl: spec_fn(int, int, u64) -> bool) -> bool
    decreases v,
{
    match (v, d) {
        (OwnedValue::Null, Doc::Null) => true,
        (OwnedValue::Bool(a), Doc::Bool(b)) => a == b,
        (OwnedValue::I64(a), Doc::Int(b)) => a == b,
        (OwnedValue::F64(bits), Doc::Float(st, en)) => fl(st, en, bits),
        (OwnedValue::String(x), Doc::Str(y, _)) => x@ == y,
        (OwnedValue::Array(a), Doc::Arr(ds)) => a.len() == ds.len() && forall|i: int|
            0 <= i < a.len() ==> models(#[trigger] a@[i], ds[i], fl),
        (OwnedValue::Object(o), Doc::Obj(ds)) => o.len() == ds.len() && forall|i: int|
            0 <= i < o.len() ==> (#[trigger] o@[i]).0@ == ds[i].0 && models(o@[i].1, ds[i].1, fl),
        _ => false,
    }
}


/// Which bit patterns the caller's `f` may give for the double literal at `start..end`.
pub open spec fn float_spec<F: Fn(usize, usize) -> u64>(f: F) -> spec_fn(int, int, u64) -> bool {
    |st: int, en: int, b: u64| call_ensures(f, (st as usize, en as usize), b)
}

proof fn lemma_doc_key_index(
    entries: Seq<(String, OwnedValue)>,
    acc: Seq<(Seq<char>, Doc)>,
    k: Seq<char>,
    j: int,
)
    requires
        0 <= j <= entries.len(),
        entries.len() == acc.len(),
        forall|i: int| 0 <= i < entries.len() ==> (#[trigger] entries[i]).0@ == acc[i].0,
    ensures
        crate::value::key_index_from(entries, k, j) == doc_key_index_from(acc, k, j),
    decreases entries.len() - j,
{
    if j < entries.len() {
        assert(entries[j].0@ == acc[j].0);
        lemma_doc_key_index(entries, acc, k, j + 1);
    }
}

/// Whether the literal `lit` stands at `o`, followed by the end, whitespace or punctuation.
fn check_atom(s: &Vec<u8>, o: usize, lit: &Vec<u8>) -> (r: bool)
    requires
        o <= s.len(),
    ensures
        r == atom_ok(s@, o as int, lit@),
{
    if s.len() - o < lit.len() {
        return false;
    }
    let mut i: usize = 0;
    while i < lit.len()
        invariant
            o + lit.len() <= s.len(),
            i <= lit.len(),
            forall|j: int| 0 <= j < i ==> s@[o + j] == lit@[j],
        decreases lit.len() - i,
    {
        if s[o + i] != lit[i] {
            assert(s@.subrange(o as int, o + lit.len())[i as int] != lit@[i as int]);
            return false;
        }
        i += 1;
    }
    assert(s@.subrange(o as int, o + lit.len()) =~= lit@);
    ends_atom_at(s, o + lit.len())
}

fn ends_atom_at(s: &Vec<u8>, e: usize) -> (r: bool)
    requires
        e <= s.len(),
    ensures
        r == ends_atom(s@, e as int),
{
    e == s.len() || is_whitespace(s[e]) || is_structural_punct(s[e])
}

/// The text of the string literal whose opening quote is at `o`.
fn string_value(s: &Vec<u8>, o: usize) -> (r: Option<String>)
    requires
        o < s.len(),
    ensures
        r is Some <==> string_at(s@, o as int) is Some,
        r is Some ==> r->Some_0@ == string_at(s@, o as int)->Some_0,
{
    match unescape_to_vec(s, o + 1) {
        Ok(bytes) => match utf8_str(bytes.as_slice()) {
            Some(x) => Some(x.to_owned()),
            None => None,
        },
        Err(_) => None,
    }
}

fn syntax(s: &Vec<u8>, t: &Vec<u32>, k: usize) -> (r: Error) {
    if k < t.len() {
        Error::new(t[k] as usize, ErrorType::Syntax)
    } else {
        Error::new(s.len(), ErrorType::UnexpectedEnd)
    }
}

/// Builds the value whose first token is token `k`; returns it with the index of the
/// token after it.
pub fn build_value<F: Fn(usize, usize) -> u64>(s: &Vec<u8>, t: &Vec<u32>, k: usize, f: &F) -> (r: Result<(OwnedValue, usize), Error>)
    requires
        forall|a: usize, b: usize| call_requires(*f, (a, b)),
    ensures
        r is Ok <==> parse_doc(s@, t@, k as int) is Some,
        r is Ok ==> r->Ok_0.1 == parse_doc(s@, t@, k as int)->Some_0.1 && models(
            r->Ok_0.0,
            parse_doc(s@, t@, k as int)->Some_0.0,
            float_spec(*f),
        ),
        r is Ok ==> well_formed(r->Ok_0.0),
    decreases t.len() - k, 0int,
{
    if k >= t.len() || t[k] as usize >= s.len() {
        return Err(syntax(s, t, k));
    }
    let o = t[k] as usize;
    let b = s[o];
    if b == 123 {
        if k + 1 < t.len() && (t[k + 1] as usize) < s.len() && s[t[k + 1] as usize] == 125 {
            return Ok((OwnedValue::Object(Vec::new()), k + 2));
        }
        build_object(s, t, k + 1, f)
    } else if b == 91 {
        if k + 1 < t.len() && (t[k + 1] as usize) < s.len() && s[t[k + 1] as usize] == 93 {
            return Ok((OwnedValue::Array(Vec::new()), k + 2));
        }
        build_array(s, t, k + 1, f)
    } else if b == QUOTE {
        match string_value(s, o) {
            Some(x) => Ok((OwnedValue::String(x), k + 1)),
            None => Err(syntax(s, t, k)),
        }
    } else if b == 116 {
        if check_atom(s, o, &vec![116u8, 114u8, 117u8, 101u8]) {
            Ok((OwnedValue::Bool(true), k + 1))
        } else {
            Err(syntax(s, t, k))
        }
    } else if b == 102 {
        if check_atom(s, o, &vec![102u8, 97u8, 108u8, 115u8, 101u8]) {
            Ok((OwnedValue::Bool(false), k + 1))
        } else {
            Err(syntax(s, t, k))
        }
    } else if b == 110 {
        if check_atom(s, o, &vec![110u8, 117u8, 108u8, 108u8]) {
            Ok((OwnedValue::Null, k + 1))
        } else {
            Err(syntax(s, t, k))
        }
    } else if b == MINUS || (48 <= b && b <= 57) {
        match parse_number_end(s, o) {
            Ok((n, e)) => {
                if !ends_atom_at(s, e) {
                    return Err(syntax(s, t, k));
                }
                match n {
                    Number::I64(i) => Ok((OwnedValue::I64(i), k + 1)),
                    Number::F64 { start, end } => {
                        let bits = f(start, end);
                        Ok((OwnedValue::F64(bits), k + 1))
                    },
                }
            },
            Err(p) => Err(Error::new(p, ErrorType::Syntax)),
        }
    } else {
        Err(syntax(s, t, k))
    }
}

/// Builds the elements of an array from token `k` on, up to its closing bracket.
fn build_array<F: Fn(usize, usize) -> u64>(s: &Vec<u8>, t: &Vec<u32>, k: usize, f: &F) -> (r: Result<(OwnedValue, usize), Error>)
    requires
        forall|a: usize, b: usize| call_requires(*f, (a, b)),
    ensures
        r is Ok <==> parse_elems(s@, t@, k as int, Seq::empty()) is Some,
        r is Ok ==> r->Ok_0.1 == parse_elems(s@, t@, k as int, Seq::empty())->Some_0.1 && models(
            r->Ok_0.0,
            parse_elems(s@, t@, k as int, Seq::empty())->Some_0.0,
            float_spec(*f),
        ),
        r is Ok ==> well_formed(r->Ok_0.0),
    decreases t.len() - k, 1int,
{
    let ghost acc: Seq<Doc> = Seq::empty();
    let mut out: Vec<OwnedValue> = Vec::new();
    let mut kk = k;
    loop
        invariant
            k <= kk,
            forall|a: usize, b: usize| call_requires(*f, (a, b)),
            parse_elems(s@, t@, k as int, Seq::empty()) == parse_elems(s@, t@, kk as int, acc),
            out.len() == acc.len(),
            forall|i: int| 0 <= i < out.len() ==> models(#[trigger] out@[i], acc[i], float_spec(*f)),
            forall|i: int| 0 <= i < out.len() ==> well_formed(#[trigger] out@[i]),
        decreases t.len() - kk,
    {
        if kk >= t.len() {
            return Err(syntax(s, t, kk));
        }
        let (v, k2) = match build_value(s, t, kk, f) {
            Ok(x) => x,
            Err(e) => return Err(e),
        };
        let ghost d = parse_doc(s@, t@, kk as int)->Some_0.0;
        if k2 <= kk || k2 >= t.len() || t[k2] as usize >= s.len() {
            return Err(syntax(s, t, k2));
        }
        let c = s[t[k2] as usize];
        out.push(v);
        proof {
            acc = acc.push(d);
        }
        if c == 44 {
            kk = k2 + 1;
        } else if c == 93 {
            proof {
                // naming the value lets the solver unfold the spec functions applied to it
                let w = OwnedValue::Array(out);
                assert(w->Array_0 == out);
            }
            return Ok((OwnedValue::Array(out), k2 + 1));
        } else {
            return Err(syntax(s, t, k2));
        }
    }
}

/// Builds the members of an object from token `k` on, up to its closing brace; a
/// later value for a key replaces the earlier one in its place.
fn build_object<F: Fn(usize, usize) -> u64>(s: &Vec<u8>, t: &Vec<u32>, k: usize, f: &F) -> (r: Result<(OwnedValue, usize), Error>)
    requires
        forall|a: usize, b: usize| call_requires(*f, (a, b)),
    ensures
        r is Ok <==> parse_members(s@, t@, k as int, Seq::empty()) is Some,
        r is Ok ==> r->Ok_0.1 == parse_members(s@, t@, k as int, Seq::empty())->Some_0.1 && models(
            r->Ok_0.0,
            parse_members(s@, t@, k as int, Seq::empty())->Some_0.0,
            float_spec(*f),
        ),
        r is Ok ==> well_formed(r->Ok_0.0),
    decreases t.len() - k, 1int,
{
    let ghost acc: Seq<(Seq<char>, Doc)> = Seq::empty();
    let mut out: Vec<(String, OwnedValue)> = Vec::new();
    let mut kk = k;
    loop
        invariant
            k <= kk,
            forall|a: usize, b: usize| call_requires(*f, (a, b)),
            parse_members(s@, t@, k as int, Seq::empty()) == parse_members(s@, t@, kk as int, acc),
            out.len() == acc.len(),
            forall|i: int|
                0 <= i < out.len() ==> (#[trigger] out@[i]).0@ == acc[i].0 && models(
                    out@[i].1,
                    acc[i].1,
                    float_spec(*f),
                ),
            forall|i: int| 0 <= i < out.len() ==> well_formed((#[trigger] out@[i]).1),
            keys_unique(out@),
        decreases t.len() - kk,
    {
        if kk >= t.len() || t.len() - kk <= 2 || t[kk] as usize >= s.len() || t[kk + 1] as usize >= s.len() {
            return Err(syntax(s, t, kk));
        }
        if s[t[kk] as usize] != QUOTE || s[t[kk + 1] as usize] != 58 {
            return Err(syntax(s, t, kk));
        }
        let key = match string_value(s, t[kk] as usize) {
            Some(x) => x,
            None => return Err(syntax(s, t, kk)),
        };
        let (v, k2) = match build_value(s, t, kk + 2, f) {
            Ok(x) => x,
            Err(e) => return Err(e),
        };
        let ghost d = parse_doc(s@, t@, kk + 2)->Some_0.0;
        if k2 <= kk + 2 || k2 >= t.len() || t[k2] as usize >= s.len() {
            return Err(syntax(s, t, k2));
        }
        let c = s[t[k2] as usize];
        proof {
            lemma_doc_key_index(out@, acc, key@, 0);
        }
        let ghost before = out@;
        proof {
            lemma_key_index_found(out@, key@, 0);
            if key_index(out@, key@) == -1 {
                lemma_key_index_absent(out@, key@, 0);
            }
        }
        insert_entry(&mut out, key, v);
        assert(forall|i: int| 0 <= i < before.len() ==> (#[trigger] out@[i]).0@ == before[i].0@);
        proof {
            acc = obj_insert(acc, key@, d);
        }
        if c == 44 {
            kk = k2 + 1;
        } else if c == 125 {
            proof {
                // naming the value lets the solver unfold the spec functions applied to it
                let w = OwnedValue::Object(out);
                assert(w->Object_0 == out);
            }
            return Ok((OwnedValue::Object(out), k2 + 1));
        } else {
            return Err(syntax(s, t, k2));
        }
    }
}

/// Parses a whole document into an owned value tree. `float_bits(start, end)` gives the
/// bit pattern of the double that the literal at `start..end` of the input denotes.
pub fn to_owned_value<F: Fn(usize, usize) -> u64>(input: &Vec<u8>, float_bits: &F) -> (r: Result<OwnedValue, Error>)
    requires
        forall|a: usize, b: usize| call_requires(*float_bits, (a, b)),
    ensures
        ({
            let n = input.len() as int;
            let ok_input = input.len() <= MAX_INPUT_LEN && !scan_state(input@, n).0;
            let doc = parse_document(input@, structurals(input@, n));
            &&& r is Ok <==> ok_input && doc is Some
            &&& r is Ok ==> models(r->Ok_0, doc->Some_0, float_spec(*float_bits))
        }),
        input.len() <= MAX_INPUT_LEN && scan_state(input@, input.len() as int).0 ==> r
            == Err::<OwnedValue, Error>(Error { index: input.len(), error: ErrorType::Syntax }),
        r is Ok ==> well_formed(r->Ok_0),
{
    let idx = match find_structural_indexes(input) {
        Ok(idx) => idx,
        Err(e) => return Err(e),
    };
    let (v, k) = match build_value(input, &idx, 0, float_bits) {
        Ok(x) => x,
        Err(e) => return Err(e),
    };
    if k != idx.len() {
        return Err(syntax(input, &idx, k));
    }
    Ok(v)
}

/// Whether the borrowed value `v` is what `d` denotes, a string without escapes being
/// borrowed from the input; `fl(start, end, bits)` says which
/// bit patterns stand for the double literal at `start..end`.
pub open spec fn models_borrowed<'v>(v: BorrowedValue<'v>, d: Doc, fl: spec_fn(int, int, u64) -> bool) -> bool
    decreases v,
{
    match (v, d) {
        (BorrowedValue::Null, Doc::Null) => true,
        (BorrowedValue::Bool(a), Doc::Bool(b)) => a == b,
        (BorrowedValue::I64(a), Doc::Int(b)) => a == b,
        (BorrowedValue::F64(bits), Doc::Float(st, en)) => fl(st, en, bits),
        (BorrowedValue::String(x), Doc::Str(y, plain)) => x@ == y && (plain ==> x is Borrowed),
        (BorrowedValue::Array(a), Doc::Arr(ds)) => a.len() == ds.len() && forall|i: int|
            0 <= i < a.len() ==> models_borrowed(#[trigger] a@[i], ds[i], fl),
        (BorrowedValue::Object(o), Doc::Obj(ds)) => o.len() == ds.len() && forall|i: int|
            0 <= i < o.len() ==> (#[trigger] o@[i]).0@ == ds[i].0 && models_borrowed(o@[i].1, ds[i].1, fl),
        _ => false,
    }
}

proof fn lemma_doc_key_index_borrowed<'v>(
    entries: Seq<(Cow<'v, str>, BorrowedValue<'v>)>,
    acc: Seq<(Seq<char>, Doc)>,
    k: Seq<char>,
    j: int,
)
    requires
        0 <= j <= entries.len(),
        entries.len() == acc.len(),
        forall|i: int| 0 <= i < entries.len() ==> (#[trigger] entries[i]).0@ == acc[i].0,
    ensures
        crate::borrowed::key_index_from(entries, k, j) == doc_key_index_from(acc, k, j),
    decreases entries.len() - j,
{
    if j < entries.len() {
        assert(entries[j].0@ == acc[j].0);
        lemma_doc_key_index_borrowed(entries, acc, k, j + 1);
    }
}

/// The text of the string literal whose opening quote is at `o`: borrowed from the
/// input where it holds no escape, decoded into an owned string where it does.
fn string_cow<'a>(s: &'a Vec<u8>, o: usize) -> (r: Option<Cow<'a, str>>)
    requires
        o < s.len(),
    ensures
        r is Some <==> string_at(s@, o as int) is Some,
        r is Some ==> r->Some_0@ == string_at(s@, o as int)->Some_0,
        r is Some && quote_before_backslash(s@, o + 1) ==> r->Some_0 is Borrowed,
{
    if no_escape_before_quote(s, o + 1) {
        let end = verbatim_end(s, o + 1);
        let bytes = slice_subrange(s.as_slice(), o + 1, end);
        match utf8_str(bytes) {
            Some(x) => Some(Cow::Borrowed(x)),
            None => None,
        }
    } else {
        match string_value(s, o) {
            Some(x) => Some(Cow::Owned(x)),
            None => None,
        }
    }
}

/// Builds the borrowed value whose first token is token `k`; returns it with the index
/// of the token after it.
pub fn build_borrowed_value<'a, F: Fn(usize, usize) -> u64>(s: &'a Vec<u8>, t: &Vec<u32>, k: usize, f: &F) -> (r: Result<(BorrowedValue<'a>, usize), Error>)
    requires
        forall|a: usize, b: usize| call_requires(*f, (a, b)),
    ensures
        r is Ok <==> parse_doc(s@, t@, k as int) is Some,
        r is Ok ==> r->Ok_0.1 == parse_doc(s@, t@, k as int)->Some_0.1 && models_borrowed(
            r->Ok_0.0,
            parse_doc(s@, t@, k as int)->Some_0.0,
            float_spec(*f),
        ),
        r is Ok ==> borrowed_well_formed(r->Ok_0.0),
    decreases t.len() - k, 0int,
{
    if k >= t.len() || t[k] as usize >= s.len() {
        return Err(syntax(s, t, k));
    }
    let o = t[k] as usize;
    let b = s[o];
    if b == 123 {
        if k + 1 < t.len() && (t[k + 1] as usize) < s.len() && s[t[k + 1] as usize] == 125 {
            return Ok((BorrowedValue::Object(Vec::new()), k + 2));
        }
        build_borrowed_object(s, t, k + 1, f)
    } else if b == 91 {
        if k + 1 < t.len() && (t[k + 1] as usize) < s.len() && s[t[k + 1] as usize] == 93 {
            return Ok((BorrowedValue::Array(Vec::new()), k + 2));
        }
        build_borrowed_array(s, t, k + 1, f)
    } else if b == QUOTE {
        match string_cow(s, o) {
            Some(x) => Ok((BorrowedValue::String(x), k + 1)),
            None => Err(syntax(s, t, k)),
        }
    } else if b == 116 {
        if check_atom(s, o, &vec![116u8, 114u8, 117u8, 101u8]) {
            Ok((BorrowedValue::Bool(true), k + 1))
        } else {
            Err(syntax(s, t, k))
        }
    } else if b == 102 {
        if check_atom(s, o, &vec![102u8, 97u8, 108u8, 115u8, 101u8]) {
            Ok((BorrowedValue::Bool(false), k + 1))
        } else {
            Err(syntax(s, t, k))
        }
    } else if b == 110 {
        if check_atom(s, o, &vec![110u8, 117u8, 108u8, 108u8]) {
            Ok((BorrowedValue::Null, k + 1))
        } else {
            Err(syntax(s, t, k))
        }
    } else if b == MINUS || (48 <= b && b <= 57) {
        match parse_number_end(s, o) {
            Ok((n, e)) => {
                if !ends_atom_at(s, e) {
                    return Err(syntax(s, t, k));
                }
                match n {
                    Number::I64(i) => Ok((BorrowedValue::I64(i), k + 1)),
                    Number::F64 { start, end } => {
                        let bits = f(start, end);
                        Ok((BorrowedValue::F64(bits), k + 1))
                    },
                }
            },
            Err(p) => Err(Error::new(p, ErrorType::Syntax)),
        }
    } else {
        Err(syntax(s, t, k))
    }
}

/// Builds the elements of a borrowed array from token `k` on, up to its closing bracket.
fn build_borrowed_array<'a, F: Fn(usize, usize) -> u64>(s: &'a Vec<u8>, t: &Vec<u32>, k: usize, f: &F) -> (r: Result<(BorrowedValue<'a>, usize), Error>)
    requires
        forall|a: usize, b: usize| call_requires(*f, (a, b)),
    ensures
        r is Ok <==> parse_elems(s@, t@, k as int, Seq::empty()) is Some,
        r is Ok ==> r->Ok_0.1 == parse_elems(s@, t@, k as int, Seq::empty())->Some_0.1 && models_borrowed(
            r->Ok_0.0,
            parse_elems(s@, t@, k as int, Seq::empty())->Some_0.0,
            float_spec(*f),
        ),
        r is Ok ==> borrowed_well_formed(r->Ok_0.0),
    decreases t.len() - k, 1int,
{
    let ghost acc: Seq<Doc> = Seq::empty();
    let mut out: Vec<BorrowedValue<'a>> = Vec::new();
    let mut kk = k;
    loop
        invariant
            k <= kk,
            forall|a: usize, b: usize| call_requires(*f, (a, b)),
            parse_elems(s@, t@, k as int, Seq::empty()) == parse_elems(s@, t@, kk as int, acc),
            out.len() == acc.len(),
            forall|i: int| 0 <= i < out.len() ==> models_borrowed(#[trigger] out@[i], acc[i], float_spec(*f)),
            forall|i: int| 0 <= i < out.len() ==> borrowed_well_formed(#[trigger] out@[i]),
        decreases t.len() - kk,
    {
        if kk >= t.len() {
            return Err(syntax(s, t, kk));
        }
        let (v, k2) = match build_borrowed_value(s, t, kk, f) {
            Ok(x) => x,
            Err(e) => return Err(e),
        };
        let ghost d = parse_doc(s@, t@, kk as int)->Some_0.0;
        if k2 <= kk || k2 >= t.len() || t[k2] as usize >= s.len() {
            return Err(syntax(s, t, k2));
        }
        let c = s[t[k2] as usize];
        out.push(v);
        proof {
            acc = acc.push(d);
        }
        if c == 44 {
            kk = k2 + 1;
        } else if c == 93 {
            proof {
                // naming the value lets the solver unfold the spec functions applied to it
                let w = BorrowedValue::Array(out);
                assert(w->Array_0 == out);
            }
            return Ok((BorrowedValue::Array(out), k2 + 1));
        } else {
            return Err(syntax(s, t, k2));
        }
    }
}

/// Builds the members of a borrowed object from token `k` on, up to its closing brace; a
/// later value for a key replaces the earlier one in its place.
fn build_borrowed_object<'a, F: Fn(usize, usize) -> u64>(s: &'a Vec<u8>, t: &Vec<u32>, k: usize, f: &F) -> (r: Result<(BorrowedValue<'a>, usize), Error>)
    requires
        forall|a: usize, b: usize| call_requires(*f, (a, b)),
    ensures
        r is Ok <==> parse_members(s@, t@, k as int, Seq::empty()) is Some,
        r is Ok ==> r->Ok_0.1 == parse_members(s@, t@, k as int, Seq::empty())->Some_0.1 && models_borrowed(
            r->Ok_0.0,
            parse_members(s@, t@, k as int, Seq::empty())->Some_0.0,
            float_spec(*f),
        ),
        r is Ok ==> borrowed_well_formed(r->Ok_0.0),
    decreases t.len() - k, 1int,
{
    let ghost acc: Seq<(Seq<char>, Doc)> = Seq::empty();
    let mut out: Vec<(Cow<'a, str>, BorrowedValue<'a>)> = Vec::new();
    let mut kk = k;
    loop
        invariant
            k <= kk,
            forall|a: usize, b: usize| call_requires(*f, (a, b)),
            parse_members(s@, t@, k as int, Seq::empty()) == parse_members(s@, t@, kk as int, acc),
            out.len() == acc.len(),
            forall|i: int|
                0 <= i < out.len() ==> (#[trigger] out@[i]).0@ == acc[i].0 && models_borrowed(
                    out@[i].1,
                    acc[i].1,
                    float_spec(*f),
                ),
            forall|i: int| 0 <= i < out.len() ==> borrowed_well_formed((#[trigger] out@[i]).1),
            borrowed_keys_unique(out@),
        decreases t.len() - kk,
    {
        if kk >= t.len() || t.len() - kk <= 2 || t[kk] as usize >= s.len() || t[kk + 1] as usize >= s.len() {
            return Err(syntax(s, t, kk));
        }
        if s[t[kk] as usize] != QUOTE || s[t[kk + 1] as usize] != 58 {
            return Err(syntax(s, t, kk));
        }
        let key = match string_cow(s, t[kk] as usize) {
            Some(x) => x,
            None => return Err(syntax(s, t, kk)),
        };
        let (v, k2) = match build_borrowed_value(s, t, kk + 2, f) {
            Ok(x) => x,
            Err(e) => return Err(e),
        };
        let ghost d = parse_doc(s@, t@, kk + 2)->Some_0.0;
        if k2 <= kk + 2 || k2 >= t.len() || t[k2] as usize >= s.len() {
            return Err(syntax(s, t, k2));
        }
        let c = s[t[k2] as usize];
        proof {
            lemma_doc_key_index_borrowed(out@, acc, key@, 0);
        }
        let ghost before = out@;
        proof {
            borrowed_lemma_key_index_found(out@, key@, 0);
            if crate::borrowed::key_index(out@, key@) == -1 {
                borrowed_lemma_key_index_absent(out@, key@, 0);
            }
        }
        borrowed_insert_entry(&mut out, key, v);
        assert(forall|i: int| 0 <= i < before.len() ==> (#[trigger] out@[i]).0@ == before[i].0@);
        proof {
            acc = obj_insert(acc, key@, d);
        }
        if c == 44 {
            kk = k2 + 1;
        } else if c == 125 {
            proof {
                // naming the value lets the solver unfold the spec functions applied to it
                let w = BorrowedValue::Object(out);
                assert(w->Object_0 == out);
            }
            return Ok((BorrowedValue::Object(out), k2 + 1));
        } else {
            return Err(syntax(s, t, k2));
        }
    }
}

/// Parses a whole document into a borrowed value tree: strings without escapes are
/// slices of `input`. `float_bits(start, end)` gives the bit pattern of the double that
/// the literal at `start..end` denotes.
pub fn to_borrowed_value<'a, F: Fn(usize, usize) -> u64>(input: &'a Vec<u8>, float_bits: &F) -> (r: Result<BorrowedValue<'a>, Error>)
    requires
        forall|a: usize, b: usize| call_requires(*float_bits, (a, b)),
    ensures
        ({
            let n = input.len() as int;
            let ok_input = input.len() <= MAX_INPUT_LEN && !scan_state(input@, n).0;
            let doc = parse_document(input@, structurals(input@, n));
            &&& r is Ok <==> ok_input && doc is Some
            &&& r is Ok ==> models_borrowed(r->Ok_0, doc->Some_0, float_spec(*float_bits))
        }),
        input.len() <= MAX_INPUT_LEN && scan_state(input@, input.len() as int).0 ==> r
            == Err::<BorrowedValue<'a>, Error>(Error { index: input.len(), error: ErrorType::Syntax }),
        r is Ok ==> borrowed_well_formed(r->Ok_0),
{
    let idx = match find_structural_indexes(input) {
        Ok(idx) => idx,
        Err(e) => return Err(e),
    };
    let (v, k) = match build_borrowed_value(input, &idx, 0, float_bits) {
        Ok(x) => x,
        Err(e) => return Err(e),
    };
    if k != idx.len() {
        return Err(syntax(input, &idx, k));
    }
    Ok(v)
}

} // verus!
