//! The borrowed value tree: strings that needed no unescaping stay slices of the input.
use vstd::prelude::*;
use std::borrow::Cow;
use crate::value::{close_spec, close_ok, OwnedValue, str_equal, find_key_str, key_index as owned_key_index};

verus! {

broadcast use vstd::std_specs::vec::axiom_vec_index_decreases;

/// The text of a copy-on-write string.
pub fn cow_str<'a, 'v>(c: &'a Cow<'v, str>) -> (r: &'a str)
    ensures
        r@ == c@,
{
    match c {
        Cow::Borrowed(b) => *b,
        Cow::Owned(o) => o.as_str(),
    }
}

/// Whether two copy-on-write strings hold the same characters.
pub fn cow_equal<'v>(a: &Cow<'v, str>, b: &Cow<'v, str>) -> (r: bool)
    ensures
        r == (a@ == b@),
{
    str_equal(cow_str(a), cow_str(b))
}

/// A JSON value whose strings may borrow from the rewritten input: a string that
/// needed no unescaping is a slice of it, others are owned. A double is held as its
/// IEEE 754 bit pattern; an object is a sequence of entries in insertion order.
#[derive(Debug)]
pub enum BorrowedValue<'v> {
    Null,
    Bool(bool),
    I64(i64),
    F64(u64),
    String(Cow<'v, str>),
    Array(Vec<BorrowedValue<'v>>),
    Object(Vec<(Cow<'v, str>, BorrowedValue<'v>)>),
}

/// Structural equality: like tags with equal contents; arrays element by element;
/// objects of one size where, for each entry of the first, the first entry of the
/// second with its key has an equal value (their order does not count).
pub open spec fn borrowed_eq<'v>(a: BorrowedValue<'v>, b: BorrowedValue<'v>) -> bool
    decreases a,
{
    match (a, b) {
        (BorrowedValue::Null, BorrowedValue::Null) => true,
        (BorrowedValue::Bool(x), BorrowedValue::Bool(y)) => x == y,
        (BorrowedValue::I64(x), BorrowedValue::I64(y)) => x == y,
        (BorrowedValue::F64(x), BorrowedValue::F64(y)) => x == y,
        (BorrowedValue::String(x), BorrowedValue::String(y)) => x@ == y@,
        (BorrowedValue::Array(x), BorrowedValue::Array(y)) => x.len() == y.len() && forall|i: int|
            0 <= i < x.len() ==> borrowed_eq(#[trigger] x@[i], y@[i]),
        (BorrowedValue::Object(x), BorrowedValue::Object(y)) => x.len() == y.len() && forall|i: int|
            0 <= i < x.len() ==> {
                let j = key_index(y@, (#[trigger] x@[i]).0@);
                0 <= j && borrowed_eq(x@[i].1, y@[j].1)
            },
        _ => false,
    }
}


/// Whether the keys of `entries` are distinct.
pub open spec fn keys_unique<'v>(entries: Seq<(Cow<'v, str>, BorrowedValue<'v>)>) -> bool {
    forall|i: int, j: int|
        0 <= i < entries.len() && 0 <= j < entries.len() && i != j ==> (#[trigger] entries[i]).0@
            != (#[trigger] entries[j]).0@
}

/// A well-formed value: the keys of each object in it are distinct.
pub open spec fn borrowed_well_formed<'v>(v: BorrowedValue<'v>) -> bool
    decreases v,
{
    match v {
        BorrowedValue::Array(a) => forall|i: int| 0 <= i < a.len() ==> borrowed_well_formed(#[trigger] a@[i]),
        BorrowedValue::Object(o) => keys_unique(o@) && forall|i: int|
            0 <= i < o.len() ==> borrowed_well_formed((#[trigger] o@[i]).1),
        _ => true,
    }
}

/// The index of the first entry of `entries` at or after `j` whose key is `k`, or -1.
pub open spec fn key_index_from<'v>(entries: Seq<(Cow<'v, str>, BorrowedValue<'v>)>, k: Seq<char>, j: int) -> int
    decreases entries.len() - j,
{
    if j < 0 || j >= entries.len() {
        -1
    } else if entries[j].0@ == k {
        j
    } else {
        key_index_from(entries, k, j + 1)
    }
}

/// The index of the first entry of `entries` whose key is `k`, or -1.
pub open spec fn key_index<'v>(entries: Seq<(Cow<'v, str>, BorrowedValue<'v>)>, k: Seq<char>) -> int {
    key_index_from(entries, k, 0)
}

/// A key that is found is the key of the entry found.
pub proof fn lemma_key_index_found<'v>(entries: Seq<(Cow<'v, str>, BorrowedValue<'v>)>, k: Seq<char>, j: int)
    requires
        0 <= j,
    ensures
        key_index_from(entries, k, j) == -1 || (j <= key_index_from(entries, k, j) < entries.len()
            && entries[key_index_from(entries, k, j)].0@ == k),
    decreases entries.len() - j,
{
    if j < entries.len() && entries[j].0@ != k {
        lemma_key_index_found(entries, k, j + 1);
    }
}

/// A key that is not found is the key of no entry.
pub proof fn lemma_key_index_absent<'v>(entries: Seq<(Cow<'v, str>, BorrowedValue<'v>)>, k: Seq<char>, j: int)
    requires
        0 <= j,
        key_index_from(entries, k, j) == -1,
    ensures
        forall|i: int| j <= i < entries.len() ==> (#[trigger] entries[i]).0@ != k,
    decreases entries.len() - j,
{
    if j < entries.len() {
        lemma_key_index_absent(entries, k, j + 1);
    }
}

/// In entries with distinct keys, the key of entry `i` is found at `i`.
pub proof fn lemma_key_index_unique<'v>(entries: Seq<(Cow<'v, str>, BorrowedValue<'v>)>, i: int)
    requires
        keys_unique(entries),
        0 <= i < entries.len(),
    ensures
        key_index(entries, entries[i].0@) == i,
{
    lemma_key_index_from_unique(entries, i, 0);
}

proof fn lemma_key_index_from_unique<'v>(entries: Seq<(Cow<'v, str>, BorrowedValue<'v>)>, i: int, j: int)
    requires
        keys_unique(entries),
        0 <= j <= i < entries.len(),
    ensures
        key_index_from(entries, entries[i].0@, j) == i,
    decreases i - j,
{
    if j < i {
        assert(entries[j].0@ != entries[i].0@);
        lemma_key_index_from_unique(entries, i, j + 1);
    }
}

/// Inserts an entry into an object: a later value for a key replaces the earlier one
/// in its place; a new key goes at the end.
pub fn insert_entry<'v>(entries: &mut Vec<(Cow<'v, str>, BorrowedValue<'v>)>, k: Cow<'v, str>, v: BorrowedValue<'v>)
    ensures
        ({
            let j = key_index(old(entries)@, k@);
            if j >= 0 {
                final(entries)@ == old(entries)@.update(j, (k, v))
            } else {
                final(entries)@ == old(entries)@.push((k, v))
            }
        }),
{
    match find_key(entries, &k) {
        Some(j) => {
            entries.set(j, (k, v));
        },
        None => {
            entries.push((k, v));
        },
    }
}

/// Finds the first entry with key `k`.
pub fn find_key<'v>(entries: &Vec<(Cow<'v, str>, BorrowedValue<'v>)>, k: &Cow<'v, str>) -> (r: Option<usize>)
    ensures
        match r {
            Some(j) => j == key_index(entries@, k@) && j < entries.len(),
            None => key_index(entries@, k@) == -1,
        },
{
    let mut j: usize = 0;
    while j < entries.len()
        invariant
            j <= entries.len(),
            key_index(entries@, k@) == key_index_from(entries@, k@, j as int),
        decreases entries.len() - j,
    {
        if cow_equal(&entries[j].0, k) {
            return Some(j);
        }
        j += 1;
    }
    None
}

impl<'v> BorrowedValue<'v> {
    /// Structural equality, as `borrowed_eq` states it.
    pub fn equals(&self, other: &BorrowedValue<'v>) -> (r: bool)
        ensures
            r == borrowed_eq(*self, *other),
        decreases *self,
    {
        match self {
            BorrowedValue::Null => match other {
                BorrowedValue::Null => true,
                _ => false,
            },
            BorrowedValue::Bool(x) => match other {
                BorrowedValue::Bool(y) => *x == *y,
                _ => false,
            },
            BorrowedValue::I64(x) => match other {
                BorrowedValue::I64(y) => *x == *y,
                _ => false,
            },
            BorrowedValue::F64(x) => match other {
                BorrowedValue::F64(y) => *x == *y,
                _ => false,
            },
            BorrowedValue::String(x) => match other {
                BorrowedValue::String(y) => {
                    cow_equal(x, y)
                },
                _ => false,
            },
            BorrowedValue::Array(x) => match other {
                BorrowedValue::Array(y) => {
                    Self::arrays_equal(x, y)
                },
                _ => false,
            },
            BorrowedValue::Object(x) => match other {
                BorrowedValue::Object(y) => {
                    Self::objects_equal(x, y)
                },
                _ => false,
            },
        }
    }

    fn arrays_equal(x: &Vec<BorrowedValue<'v>>, y: &Vec<BorrowedValue<'v>>) -> (r: bool)
        ensures
            r == (x.len() == y.len() && forall|i: int|
                0 <= i < x.len() ==> borrowed_eq(#[trigger] x@[i], y@[i])),
        decreases x,
    {
        if x.len() != y.len() {
            return false;
        }
        let mut i: usize = 0;
        while i < x.len()
            invariant
                i <= x.len() == y.len(),
                forall|k: int| 0 <= k < i ==> borrowed_eq(#[trigger] x@[k], y@[k]),
            decreases x.len() - i,
        {
            proof {
                assert(decreases_to!(x => x[i as int]));
            }
            if !x[i].equals(&y[i]) {
                return false;
            }
            i += 1;
        }
        true
    }

    fn objects_equal(x: &Vec<(Cow<'v, str>, BorrowedValue<'v>)>, y: &Vec<(Cow<'v, str>, BorrowedValue<'v>)>) -> (r: bool)
        ensures
            r == (x.len() == y.len() && forall|i: int|
                0 <= i < x.len() ==> {
                    let j = key_index(y@, (#[trigger] x@[i]).0@);
                    0 <= j && borrowed_eq(x@[i].1, y@[j].1)
                }),
        decreases x,
    {
        if x.len() != y.len() {
            return false;
        }
        let mut i: usize = 0;
        while i < x.len()
            invariant
                i <= x.len() == y.len(),
                forall|k: int|
                    0 <= k < i ==> {
                        let j = key_index(y@, (#[trigger] x@[k]).0@);
                        0 <= j && borrowed_eq(x@[k].1, y@[j].1)
                    },
            decreases x.len() - i,
        {
            proof {
                assert(decreases_to!(x => x[i as int]));
            }
            match find_key(y, &x[i].0) {
                Some(j) => {
                    if !x[i].1.equals(&y[j].1) {
                        return false;
                    }
                },
                None => {
                    return false;
                },
            }
            i += 1;
        }
        true
    }
}

/// Structural equality with doubles compared by `fc`: like tags with equal contents;
/// arrays element by element;
/// objects of one size where, for each entry of the first, the first entry of the
/// second with its key has an equal value (their order does not count).
pub open spec fn borrowed_eq_by<'v>(a: BorrowedValue<'v>, b: BorrowedValue<'v>, fc: spec_fn(u64, u64) -> bool) -> bool
    decreases a,
{
    match (a, b) {
        (BorrowedValue::Null, BorrowedValue::Null) => true,
        (BorrowedValue::Bool(x), BorrowedValue::Bool(y)) => x == y,
        (BorrowedValue::I64(x), BorrowedValue::I64(y)) => x == y,
        (BorrowedValue::F64(x), BorrowedValue::F64(y)) => fc(x, y),
        (BorrowedValue::String(x), BorrowedValue::String(y)) => x@ == y@,
        (BorrowedValue::Array(x), BorrowedValue::Array(y)) => x.len() == y.len() && forall|i: int|
            0 <= i < x.len() ==> borrowed_eq_by(#[trigger] x@[i], y@[i], fc),
        (BorrowedValue::Object(x), BorrowedValue::Object(y)) => x.len() == y.len() && forall|i: int|
            0 <= i < x.len() ==> {
                let j = key_index(y@, (#[trigger] x@[i]).0@);
                0 <= j && borrowed_eq_by(x@[i].1, y@[j].1, fc)
            },
        _ => false,
    }
}

impl<'v> BorrowedValue<'v> {
    /// Structural equality with doubles compared by `close`, as `borrowed_eq_by` states it.
    pub fn equals_by<F: Fn(u64, u64) -> bool>(&self, other: &BorrowedValue<'v>, close: &F) -> (r: bool)
        requires
            close_ok(*close),
        ensures
            r == borrowed_eq_by(*self, *other, close_spec(*close)),
        decreases *self,
    {
        match self {
            BorrowedValue::Null => match other {
                BorrowedValue::Null => true,
                _ => false,
            },
            BorrowedValue::Bool(x) => match other {
                BorrowedValue::Bool(y) => *x == *y,
                _ => false,
            },
            BorrowedValue::I64(x) => match other {
                BorrowedValue::I64(y) => *x == *y,
                _ => false,
            },
            BorrowedValue::F64(x) => match other {
                BorrowedValue::F64(y) => close(*x, *y),
                _ => false,
            },
            BorrowedValue::String(x) => match other {
                BorrowedValue::String(y) => {
                    cow_equal(x, y)
                },
                _ => false,
            },
            BorrowedValue::Array(x) => match other {
                BorrowedValue::Array(y) => {
                    Self::arrays_equal_by(x, y, close)
                },
                _ => false,
            },
            BorrowedValue::Object(x) => match other {
                BorrowedValue::Object(y) => {
                    Self::objects_equal_by(x, y, close)
                },
                _ => false,
            },
        }
    }

    fn arrays_equal_by<F: Fn(u64, u64) -> bool>(x: &Vec<BorrowedValue<'v>>, y: &Vec<BorrowedValue<'v>>, close: &F) -> (r: bool)
        requires
            close_ok(*close),
        ensures
            r == (x.len() == y.len() && forall|i: int|
                0 <= i < x.len() ==> borrowed_eq_by(#[trigger] x@[i], y@[i], close_spec(*close))),
        decreases x,
    {
        if x.len() != y.len() {
            return false;
        }
        let mut i: usize = 0;
        while i < x.len()
            invariant
                close_ok(*close),
                i <= x.len() == y.len(),
                forall|k: int| 0 <= k < i ==> borrowed_eq_by(#[trigger] x@[k], y@[k], close_spec(*close)),
            decreases x.len() - i,
        {
            proof {
                assert(decreases_to!(x => x[i as int]));
            }
            if !x[i].equals_by(&y[i], close) {
                return false;
            }
            i += 1;
        }
        true
    }

    fn objects_equal_by<F: Fn(u64, u64) -> bool>(x: &Vec<(Cow<'v, str>, BorrowedValue<'v>)>, y: &Vec<(Cow<'v, str>, BorrowedValue<'v>)>, close: &F) -> (r: bool)
        requires
            close_ok(*close),
        ensures
            r == (x.len() == y.len() && forall|i: int|
                0 <= i < x.len() ==> {
                    let j = key_index(y@, (#[trigger] x@[i]).0@);
                    0 <= j && borrowed_eq_by(x@[i].1, y@[j].1, close_spec(*close))
                }),
        decreases x,
    {
        if x.len() != y.len() {
            return false;
        }
        let mut i: usize = 0;
        while i < x.len()
            invariant
                close_ok(*close),
                i <= x.len() == y.len(),
                forall|k: int|
                    0 <= k < i ==> {
                        let j = key_index(y@, (#[trigger] x@[k]).0@);
                        0 <= j && borrowed_eq_by(x@[k].1, y@[j].1, close_spec(*close))
                    },
            decreases x.len() - i,
        {
            proof {
                assert(decreases_to!(x => x[i as int]));
            }
            match find_key(y, &x[i].0) {
                Some(j) => {
                    if !x[i].1.equals_by(&y[j].1, close) {
                        return false;
                    }
                },
                None => {
                    return false;
                },
            }
            i += 1;
        }
        true
    }
}


impl<'v> BorrowedValue<'v> {
    pub open spec fn spec_as_bool(&self) -> Option<bool> {
        match self {
            BorrowedValue::Bool(b) => Some(*b),
            _ => None,
        }
    }

    pub open spec fn spec_as_i64(&self) -> Option<i64> {
        match self {
            BorrowedValue::I64(n) => Some(*n),
            _ => None,
        }
    }

    pub open spec fn spec_as_u64(&self) -> Option<u64> {
        match self {
            BorrowedValue::I64(n) => if *n >= 0 {
                Some(*n as u64)
            } else {
                None
            },
            _ => None,
        }
    }

    pub fn is_null(&self) -> (r: bool)
        ensures
            r == (*self is Null),
    {
        match self {
            BorrowedValue::Null => true,
            _ => false,
        }
    }

    /// The boolean held, if this is one.
    pub fn as_bool(&self) -> (r: Option<bool>)
        ensures
            r == self.spec_as_bool(),
    {
        match self {
            BorrowedValue::Bool(b) => Some(*b),
            _ => None,
        }
    }

    /// The integer held, if this is one.
    pub fn as_i64(&self) -> (r: Option<i64>)
        ensures
            r == self.spec_as_i64(),
    {
        match self {
            BorrowedValue::I64(n) => Some(*n),
            _ => None,
        }
    }

    /// The integer held, if this is a non-negative one.
    pub fn as_u64(&self) -> (r: Option<u64>)
        ensures
            r == self.spec_as_u64(),
    {
        match self {
            BorrowedValue::I64(n) => if *n >= 0 {
                Some(*n as u64)
            } else {
                None
            },
            _ => None,
        }
    }

    /// The bit pattern of the double held, if this is one.
    pub fn as_f64_bits(&self) -> (r: Option<u64>)
        ensures
            r == match *self {
                BorrowedValue::F64(b) => Some(b),
                _ => None::<u64>,
            },
    {
        match self {
            BorrowedValue::F64(b) => Some(*b),
            _ => None,
        }
    }

    /// The text held, if this is a string.
    pub fn as_str(&self) -> (r: Option<&str>)
        ensures
            match *self {
                BorrowedValue::String(s) => r is Some && r->Some_0@ == s@,
                _ => r is None,
            },
    {
        match self {
            BorrowedValue::String(s) => Some(cow_str(s)),
            _ => None,
        }
    }
}

impl<'v> PartialEq for BorrowedValue<'v> {
    fn eq(&self, other: &BorrowedValue<'v>) -> (r: bool) {
        self.equals(other)
    }
}

impl<'v> vstd::std_specs::cmp::PartialEqSpecImpl for BorrowedValue<'v> {
    open spec fn obeys_eq_spec() -> bool {
        true
    }

    open spec fn eq_spec(&self, other: &BorrowedValue<'v>) -> bool {
        borrowed_eq(*self, *other)
    }
}

impl<'v> PartialEq<bool> for BorrowedValue<'v> {
    fn eq(&self, other: &bool) -> (r: bool) {
        match self.as_bool() {
            Some(b) => b == *other,
            None => false,
        }
    }
}

impl<'v> vstd::std_specs::cmp::PartialEqSpecImpl<bool> for BorrowedValue<'v> {
    open spec fn obeys_eq_spec() -> bool {
        true
    }

    open spec fn eq_spec(&self, other: &bool) -> bool {
        self.spec_as_bool() == Some(*other)
    }
}

impl<'v> PartialEq<i8> for BorrowedValue<'v> {
    fn eq(&self, other: &i8) -> (r: bool) {
        match self.as_i64() {
            Some(n) => n == *other as i64,
            None => false,
        }
    }
}

impl<'v> vstd::std_specs::cmp::PartialEqSpecImpl<i8> for BorrowedValue<'v> {
    open spec fn obeys_eq_spec() -> bool {
        true
    }

    open spec fn eq_spec(&self, other: &i8) -> bool {
        self.spec_as_i64() == Some(*other as i64)
    }
}

impl<'v> PartialEq<i16> for BorrowedValue<'v> {
    fn eq(&self, other: &i16) -> (r: bool) {
        match self.as_i64() {
            Some(n) => n == *other as i64,
            None => false,
        }
    }
}

impl<'v> vstd::std_specs::cmp::PartialEqSpecImpl<i16> for BorrowedValue<'v> {
    open spec fn obeys_eq_spec() -> bool {
        true
    }

    open spec fn eq_spec(&self, other: &i16) -> bool {
        self.spec_as_i64() == Some(*other as i64)
    }
}

impl<'v> PartialEq<i32> for BorrowedValue<'v> {
    fn eq(&self, other: &i32) -> (r: bool) {
        match self.as_i64() {
            Some(n) => n == *other as i64,
            None => false,
        }
    }
}

impl<'v> vstd::std_specs::cmp::PartialEqSpecImpl<i32> for BorrowedValue<'v> {
    open spec fn obeys_eq_spec() -> bool {
        true
    }

    open spec fn eq_spec(&self, other: &i32) -> bool {
        self.spec_as_i64() == Some(*other as i64)
    }
}

impl<'v> PartialEq<i64> for BorrowedValue<'v> {
    fn eq(&self, other: &i64) -> (r: bool) {
        match self.as_i64() {
            Some(n) => n == *other as i64,
            None => false,
        }
    }
}

impl<'v> vstd::std_specs::cmp::PartialEqSpecImpl<i64> for BorrowedValue<'v> {
    open spec fn obeys_eq_spec() -> bool {
        true
    }

    open spec fn eq_spec(&self, other: &i64) -> bool {
        self.spec_as_i64() == Some(*other as i64)
    }
}

impl<'v> PartialEq<u8> for BorrowedValue<'v> {
    fn eq(&self, other: &u8) -> (r: bool) {
        match self.as_u64() {
            Some(n) => n == *other as u64,
            None => false,
        }
    }
}

impl<'v> vstd::std_specs::cmp::PartialEqSpecImpl<u8> for BorrowedValue<'v> {
    open spec fn obeys_eq_spec() -> bool {
        true
    }

    open spec fn eq_spec(&self, other: &u8) -> bool {
        self.spec_as_u64() == Some(*other as u64)
    }
}

impl<'v> PartialEq<u16> for BorrowedValue<'v> {
    fn eq(&self, other: &u16) -> (r: bool) {
        match self.as_u64() {
            Some(n) => n == *other as u64,
            None => false,
        }
    }
}

impl<'v> vstd::std_specs::cmp::PartialEqSpecImpl<u16> for BorrowedValue<'v> {
    open spec fn obeys_eq_spec() -> bool {
        true
    }

    open spec fn eq_spec(&self, other: &u16) -> bool {
        self.spec_as_u64() == Some(*other as u64)
    }
}

impl<'v> PartialEq<u32> for BorrowedValue<'v> {
    fn eq(&self, other: &u32) -> (r: bool) {
        match self.as_u64() {
            Some(n) => n == *other as u64,
            None => false,
        }
    }
}

impl<'v> vstd::std_specs::cmp::PartialEqSpecImpl<u32> for BorrowedValue<'v> {
    open spec fn obeys_eq_spec() -> bool {
        true
    }

    open spec fn eq_spec(&self, other: &u32) -> bool {
        self.spec_as_u64() == Some(*other as u64)
    }
}

impl<'v> PartialEq<u64> for BorrowedValue<'v> {
    fn eq(&self, other: &u64) -> (r: bool) {
        match self.as_u64() {
            Some(n) => n == *other as u64,
            None => false,
        }
    }
}

impl<'v> vstd::std_specs::cmp::PartialEqSpecImpl<u64> for BorrowedValue<'v> {
    open spec fn obeys_eq_spec() -> bool {
        true
    }

    open spec fn eq_spec(&self, other: &u64) -> bool {
        self.spec_as_u64() == Some(*other as u64)
    }
}

impl<'v> PartialEq<usize> for BorrowedValue<'v> {
    fn eq(&self, other: &usize) -> (r: bool) {
        match self.as_u64() {
            Some(n) => n == *other as u64,
            None => false,
        }
    }
}

impl<'v> vstd::std_specs::cmp::PartialEqSpecImpl<usize> for BorrowedValue<'v> {
    open spec fn obeys_eq_spec() -> bool {
        true
    }

    open spec fn eq_spec(&self, other: &usize) -> bool {
        self.spec_as_u64() == Some(*other as u64)
    }
}

impl<'v> BorrowedValue<'v> {
    pub open spec fn spec_str(&self) -> Option<Seq<char>> {
        match self {
            BorrowedValue::String(s) => Some(s@),
            _ => None,
        }
    }
}

impl<'v> PartialEq<str> for BorrowedValue<'v> {
    fn eq(&self, other: &str) -> (r: bool) {
        match self {
            BorrowedValue::String(s) => str_equal(cow_str(s), other),
            _ => false,
        }
    }
}

impl<'v> vstd::std_specs::cmp::PartialEqSpecImpl<str> for BorrowedValue<'v> {
    open spec fn obeys_eq_spec() -> bool {
        true
    }

    open spec fn eq_spec(&self, other: &str) -> bool {
        self.spec_str() == Some(other@)
    }
}

impl<'a, 'v> PartialEq<&'a str> for BorrowedValue<'v> {
    fn eq(&self, other: &&'a str) -> (r: bool) {
        match self {
            BorrowedValue::String(s) => str_equal(cow_str(s), *other),
            _ => false,
        }
    }
}

impl<'a, 'v> vstd::std_specs::cmp::PartialEqSpecImpl<&'a str> for BorrowedValue<'v> {
    open spec fn obeys_eq_spec() -> bool {
        true
    }

    open spec fn eq_spec(&self, other: &&'a str) -> bool {
        self.spec_str() == Some(other@)
    }
}

impl<'v> PartialEq<String> for BorrowedValue<'v> {
    fn eq(&self, other: &String) -> (r: bool) {
        match self {
            BorrowedValue::String(s) => str_equal(cow_str(s), other.as_str()),
            _ => false,
        }
    }
}

impl<'v> vstd::std_specs::cmp::PartialEqSpecImpl<String> for BorrowedValue<'v> {
    open spec fn obeys_eq_spec() -> bool {
        true
    }

    open spec fn eq_spec(&self, other: &String) -> bool {
        self.spec_str() == Some(other@)
    }
}

impl<'v> PartialEq<()> for BorrowedValue<'v> {
    fn eq(&self, other: &()) -> (r: bool) {
        self.is_null()
    }
}

impl<'v> vstd::std_specs::cmp::PartialEqSpecImpl<()> for BorrowedValue<'v> {
    open spec fn obeys_eq_spec() -> bool {
        true
    }

    open spec fn eq_spec(&self, other: &()) -> bool {
        *self is Null
    }
}


/// Equality across the two families, by the same structural rule as `borrowed_eq`.
pub open spec fn mixed_eq<'v>(a: BorrowedValue<'v>, b: OwnedValue) -> bool
    decreases a,
{
    match (a, b) {
        (BorrowedValue::Null, OwnedValue::Null) => true,
        (BorrowedValue::Bool(x), OwnedValue::Bool(y)) => x == y,
        (BorrowedValue::I64(x), OwnedValue::I64(y)) => x == y,
        (BorrowedValue::F64(x), OwnedValue::F64(y)) => x == y,
        (BorrowedValue::String(x), OwnedValue::String(y)) => x@ == y@,
        (BorrowedValue::Array(x), OwnedValue::Array(y)) => x.len() == y.len() && forall|i: int|
            0 <= i < x.len() ==> mixed_eq(#[trigger] x@[i], y@[i]),
        (BorrowedValue::Object(x), OwnedValue::Object(y)) => x.len() == y.len() && forall|i: int|
            0 <= i < x.len() ==> {
                let j = owned_key_index(y@, (#[trigger] x@[i]).0@);
                0 <= j && mixed_eq(x@[i].1, y@[j].1)
            },
        _ => false,
    }
}

impl<'v> BorrowedValue<'v> {
    /// Equality with an owned value, as `mixed_eq` states it.
    pub fn equals_owned(&self, other: &OwnedValue) -> (r: bool)
        ensures
            r == mixed_eq(*self, *other),
        decreases *self,
    {
        match self {
            BorrowedValue::Null => match other {
                OwnedValue::Null => true,
                _ => false,
            },
            BorrowedValue::Bool(x) => match other {
                OwnedValue::Bool(y) => *x == *y,
                _ => false,
            },
            BorrowedValue::I64(x) => match other {
                OwnedValue::I64(y) => *x == *y,
                _ => false,
            },
            BorrowedValue::F64(x) => match other {
                OwnedValue::F64(y) => *x == *y,
                _ => false,
            },
            BorrowedValue::String(x) => match other {
                OwnedValue::String(y) => str_equal(cow_str(x), y.as_str()),
                _ => false,
            },
            BorrowedValue::Array(x) => match other {
                OwnedValue::Array(y) => Self::arrays_equal_owned(x, y),
                _ => false,
            },
            BorrowedValue::Object(x) => match other {
                OwnedValue::Object(y) => Self::objects_equal_owned(x, y),
                _ => false,
            },
        }
    }

    fn arrays_equal_owned(x: &Vec<BorrowedValue<'v>>, y: &Vec<OwnedValue>) -> (r: bool)
        ensures
            r == (x.len() == y.len() && forall|i: int|
                0 <= i < x.len() ==> mixed_eq(#[trigger] x@[i], y@[i])),
        decreases x,
    {
        if x.len() != y.len() {
            return false;
        }
        let mut i: usize = 0;
        while i < x.len()
            invariant
                i <= x.len() == y.len(),
                forall|k: int| 0 <= k < i ==> mixed_eq(#[trigger] x@[k], y@[k]),
            decreases x.len() - i,
        {
            proof {
                assert(decreases_to!(x => x[i as int]));
            }
            if !x[i].equals_owned(&y[i]) {
                return false;
            }
            i += 1;
        }
        true
    }

    fn objects_equal_owned(x: &Vec<(Cow<'v, str>, BorrowedValue<'v>)>, y: &Vec<(String, OwnedValue)>) -> (r: bool)
        ensures
            r == (x.len() == y.len() && forall|i: int|
                0 <= i < x.len() ==> {
                    let j = owned_key_index(y@, (#[trigger] x@[i]).0@);
                    0 <= j && mixed_eq(x@[i].1, y@[j].1)
                }),
        decreases x,
    {
        if x.len() != y.len() {
            return false;
        }
        let mut i: usize = 0;
        while i < x.len()
            invariant
                i <= x.len() == y.len(),
                forall|k: int|
                    0 <= k < i ==> {
                        let j = owned_key_index(y@, (#[trigger] x@[k]).0@);
                        0 <= j && mixed_eq(x@[k].1, y@[j].1)
                    },
            decreases x.len() - i,
        {
            proof {
                assert(decreases_to!(x => x[i as int]));
            }
            match find_key_str(y, cow_str(&x[i].0)) {
                Some(j) => {
                    if !x[i].1.equals_owned(&y[j].1) {
                        return false;
                    }
                },
                None => {
                    return false;
                },
            }
            i += 1;
        }
        true
    }
}

impl<'v> PartialEq<OwnedValue> for BorrowedValue<'v> {
    fn eq(&self, other: &OwnedValue) -> (r: bool) {
        self.equals_owned(other)
    }
}

impl<'v> vstd::std_specs::cmp::PartialEqSpecImpl<OwnedValue> for BorrowedValue<'v> {
    open spec fn obeys_eq_spec() -> bool {
        true
    }

    open spec fn eq_spec(&self, other: &OwnedValue) -> bool {
        mixed_eq(*self, *other)
    }
}

impl<'v> PartialEq<i128> for BorrowedValue<'v> {
    fn eq(&self, other: &i128) -> (r: bool) {
        match self.as_i64() {
            Some(n) => n as i128 == *other,
            None => false,
        }
    }
}

impl<'v> vstd::std_specs::cmp::PartialEqSpecImpl<i128> for BorrowedValue<'v> {
    open spec fn obeys_eq_spec() -> bool {
        true
    }

    open spec fn eq_spec(&self, other: &i128) -> bool {
        match self.spec_as_i64() {
            Some(n) => n as int == *other as int,
            None => false,
        }
    }
}

impl<'v> PartialEq<u128> for BorrowedValue<'v> {
    fn eq(&self, other: &u128) -> (r: bool) {
        match self.as_u64() {
            Some(n) => n as u128 == *other,
            None => false,
        }
    }
}

impl<'v> vstd::std_specs::cmp::PartialEqSpecImpl<u128> for BorrowedValue<'v> {
    open spec fn obeys_eq_spec() -> bool {
        true
    }

    open spec fn eq_spec(&self, other: &u128) -> bool {
        match self.spec_as_u64() {
            Some(n) => n as int == *other as int,
            None => false,
        }
    }
}

impl<'v> PartialEq<BorrowedValue<'v>> for OwnedValue {
    fn eq(&self, other: &BorrowedValue<'v>) -> (r: bool) {
        other.equals_owned(self)
    }
}

impl<'v> vstd::std_specs::cmp::PartialEqSpecImpl<BorrowedValue<'v>> for OwnedValue {
    open spec fn obeys_eq_spec() -> bool {
        true
    }

    open spec fn eq_spec(&self, other: &BorrowedValue<'v>) -> bool {
        mixed_eq(*other, *self)
    }
}

} // verus!
