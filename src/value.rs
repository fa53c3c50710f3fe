//! The owned value tree and its structural equality.
use vstd::prelude::*;
use vstd::string::StrSliceExecFns;

verus! {

broadcast use vstd::std_specs::vec::axiom_vec_index_decreases;

/// A JSON value that owns all its data. A double is held as its IEEE 754 bit
/// pattern; an object is a sequence of entries in insertion order.
#[derive(Debug)]
pub enum OwnedValue {
    Null,
    Bool(bool),
    I64(i64),
    F64(u64),
    String(String),
    Array(Vec<OwnedValue>),
    Object(Vec<(String, OwnedValue)>),
}

/// The comparison of doubles that `f` makes: the pairs for which it answers `true`.
pub open spec fn close_spec<F: Fn(u64, u64) -> bool>(f: F) -> spec_fn(u64, u64) -> bool {
    |x: u64, y: u64| call_ensures(f, (x, y), true)
}

/// A comparison of doubles that accepts every pair and gives one answer for each.
pub open spec fn close_ok<F: Fn(u64, u64) -> bool>(f: F) -> bool {
    &&& forall|x: u64, y: u64| call_requires(f, (x, y))
    &&& forall|x: u64, y: u64, r1: bool, r2: bool|
        #![trigger call_ensures(f, (x, y), r1), call_ensures(f, (x, y), r2)]
        call_ensures(f, (x, y), r1) && call_ensures(f, (x, y), r2) ==> r1 == r2
}

/// Structural equality: like tags with equal contents; arrays element by element;
/// objects of one size where, for each entry of the first, the first entry of the
/// second with its key has an equal value (their order does not count).
pub open spec fn value_eq(a: OwnedValue, b: OwnedValue) -> bool
    decreases a,
{
    match (a, b) {
        (OwnedValue::Null, OwnedValue::Null) => true,
        (OwnedValue::Bool(x), OwnedValue::Bool(y)) => x == y,
        (OwnedValue::I64(x), OwnedValue::I64(y)) => x == y,
        (OwnedValue::F64(x), OwnedValue::F64(y)) => x == y,
        (OwnedValue::String(x), OwnedValue::String(y)) => x@ == y@,
        (OwnedValue::Array(x), OwnedValue::Array(y)) => x.len() == y.len() && forall|i: int|
            0 <= i < x.len() ==> value_eq(#[trigger] x@[i], y@[i]),
        (OwnedValue::Object(x), OwnedValue::Object(y)) => x.len() == y.len() && forall|i: int|
            0 <= i < x.len() ==> {
                let j = key_index(y@, (#[trigger] x@[i]).0@);
                0 <= j && value_eq(x@[i].1, y@[j].1)
            },
        _ => false,
    }
}


/// Whether the keys of `entries` are distinct.
pub open spec fn keys_unique(entries: Seq<(String, OwnedValue)>) -> bool {
    forall|i: int, j: int|
        0 <= i < entries.len() && 0 <= j < entries.len() && i != j ==> (#[trigger] entries[i]).0@
            != (#[trigger] entries[j]).0@
}

/// A well-formed value: the keys of each object in it are distinct.
pub open spec fn well_formed(v: OwnedValue) -> bool
    decreases v,
{
    match v {
        OwnedValue::Array(a) => forall|i: int| 0 <= i < a.len() ==> well_formed(#[trigger] a@[i]),
        OwnedValue::Object(o) => keys_unique(o@) && forall|i: int|
            0 <= i < o.len() ==> well_formed((#[trigger] o@[i]).1),
        _ => true,
    }
}

/// The index of the first entry of `entries` at or after `j` whose key is `k`, or -1.
pub open spec fn key_index_from(entries: Seq<(String, OwnedValue)>, k: Seq<char>, j: int) -> int
    decreases entries.len() - j,
{
    if j < 0 || j >= entries.len() {
        -1
    } else if entries[j].0@ == k {
        j
    } else {
        key_index_from(entries, k, j + 1)
    }
}

/// The index of the first entry of `entries` whose key is `k`, or -1.
pub open spec fn key_index(entries: Seq<(String, OwnedValue)>, k: Seq<char>) -> int {
    key_index_from(entries, k, 0)
}

/// A key that is found is the key of the entry found.
pub proof fn lemma_key_index_found(entries: Seq<(String, OwnedValue)>, k: Seq<char>, j: int)
    requires
        0 <= j,
    ensures
        key_index_from(entries, k, j) == -1 || (j <= key_index_from(entries, k, j) < entries.len()
            && entries[key_index_from(entries, k, j)].0@ == k),
    decreases entries.len() - j,
{
    if j < entries.len() && entries[j].0@ != k {
        lemma_key_index_found(entries, k, j + 1);
    }
}

/// A key that is not found is the key of no entry.
pub proof fn lemma_key_index_absent(entries: Seq<(String, OwnedValue)>, k: Seq<char>, j: int)
    requires
        0 <= j,
        key_index_from(entries, k, j) == -1,
    ensures
        forall|i: int| j <= i < entries.len() ==> (#[trigger] entries[i]).0@ != k,
    decreases entries.len() - j,
{
    if j < entries.len() {
        lemma_key_index_absent(entries, k, j + 1);
    }
}

/// In entries with distinct keys, the key of entry `i` is found at `i`.
pub proof fn lemma_key_index_unique(entries: Seq<(String, OwnedValue)>, i: int)
    requires
        keys_unique(entries),
        0 <= i < entries.len(),
    ensures
        key_index(entries, entries[i].0@) == i,
{
    lemma_key_index_from_unique(entries, i, 0);
}

proof fn lemma_key_index_from_unique(entries: Seq<(String, OwnedValue)>, i: int, j: int)
    requires
        keys_unique(entries),
        0 <= j <= i < entries.len(),
    ensures
        key_index_from(entries, entries[i].0@, j) == i,
    decreases i - j,
{
    if j < i {
        assert(entries[j].0@ != entries[i].0@);
        lemma_key_index_from_unique(entries, i, j + 1);
    }
}

/// Finds the first entry whose key has the characters of `k`.
pub fn find_key_str(entries: &Vec<(String, OwnedValue)>, k: &str) -> (r: Option<usize>)
    ensures
        match r {
            Some(j) => j == key_index(entries@, k@) && j < entries.len(),
            None => key_index(entries@, k@) == -1,
        },
{
    let mut j: usize = 0;
    while j < entries.len()
        invariant
            j <= entries.len(),
            key_index(entries@, k@) == key_index_from(entries@, k@, j as int),
        decreases entries.len() - j,
    {
        if str_equal(entries[j].0.as_str(), k) {
            return Some(j);
        }
        j += 1;
    }
    None
}

/// Inserts an entry into an object: a later value for a key replaces the earlier one
/// in its place; a new key goes at the end.
pub fn insert_entry(entries: &mut Vec<(String, OwnedValue)>, k: String, v: OwnedValue)
    ensures
        ({
            let j = key_index(old(entries)@, k@);
            if j >= 0 {
                final(entries)@ == old(entries)@.update(j, (k, v))
            } else {
                final(entries)@ == old(entries)@.push((k, v))
            }
        }),
{
    match find_key(entries, &k) {
        Some(j) => {
            entries.set(j, (k, v));
        },
        None => {
            entries.push((k, v));
        },
    }
}

/// Finds the first entry with key `k`.
pub fn find_key(entries: &Vec<(String, OwnedValue)>, k: &String) -> (r: Option<usize>)
    ensures
        match r {
            Some(j) => j == key_index(entries@, k@) && j < entries.len(),
            None => key_index(entries@, k@) == -1,
        },
{
    let mut j: usize = 0;
    while j < entries.len()
        invariant
            j <= entries.len(),
            key_index(entries@, k@) == key_index_from(entries@, k@, j as int),
        decreases entries.len() - j,
    {
        if entries[j].0.eq(k) {
            return Some(j);
        }
        j += 1;
    }
    None
}

impl OwnedValue {
    /// Structural equality, as `value_eq` states it.
    pub fn equals(&self, other: &OwnedValue) -> (r: bool)
        ensures
            r == value_eq(*self, *other),
        decreases *self,
    {
        match self {
            OwnedValue::Null => match other {
                OwnedValue::Null => true,
                _ => false,
            },
            OwnedValue::Bool(x) => match other {
                OwnedValue::Bool(y) => *x == *y,
                _ => false,
            },
            OwnedValue::I64(x) => match other {
                OwnedValue::I64(y) => *x == *y,
                _ => false,
            },
            OwnedValue::F64(x) => match other {
                OwnedValue::F64(y) => *x == *y,
                _ => false,
            },
            OwnedValue::String(x) => match other {
                OwnedValue::String(y) => {
                    x.eq(y)
                },
                _ => false,
            },
            OwnedValue::Array(x) => match other {
                OwnedValue::Array(y) => {
                    Self::arrays_equal(x, y)
                },
                _ => false,
            },
            OwnedValue::Object(x) => match other {
                OwnedValue::Object(y) => {
                    Self::objects_equal(x, y)
                },
                _ => false,
            },
        }
    }

    fn arrays_equal(x: &Vec<OwnedValue>, y: &Vec<OwnedValue>) -> (r: bool)
        ensures
            r == (x.len() == y.len() && forall|i: int|
                0 <= i < x.len() ==> value_eq(#[trigger] x@[i], y@[i])),
        decreases x,
    {
        if x.len() != y.len() {
            return false;
        }
        let mut i: usize = 0;
        while i < x.len()
            invariant
                i <= x.len() == y.len(),
                forall|k: int| 0 <= k < i ==> value_eq(#[trigger] x@[k], y@[k]),
            decreases x.len() - i,
        {
            proof {
                assert(decreases_to!(x => x[i as int]));
            }
            if !x[i].equals(&y[i]) {
                return false;
            }
            i += 1;
        }
        true
    }

    fn objects_equal(x: &Vec<(String, OwnedValue)>, y: &Vec<(String, OwnedValue)>) -> (r: bool)
        ensures
            r == (x.len() == y.len() && forall|i: int|
                0 <= i < x.len() ==> {
                    let j = key_index(y@, (#[trigger] x@[i]).0@);
                    0 <= j && value_eq(x@[i].1, y@[j].1)
                }),
        decreases x,
    {
        if x.len() != y.len() {
            return false;
        }
        let mut i: usize = 0;
        while i < x.len()
            invariant
                i <= x.len() == y.len(),
                forall|k: int|
                    0 <= k < i ==> {
                        let j = key_index(y@, (#[trigger] x@[k]).0@);
                        0 <= j && value_eq(x@[k].1, y@[j].1)
                    },
            decreases x.len() - i,
        {
            proof {
                assert(decreases_to!(x => x[i as int]));
            }
            match find_key(y, &x[i].0) {
                Some(j) => {
                    if !x[i].1.equals(&y[j].1) {
                        return false;
                    }
                },
                None => {
                    return false;
                },
            }
            i += 1;
        }
        true
    }
}

/// Structural equality with doubles compared by `fc`: like tags with equal contents;
/// arrays element by element;
/// objects of one size where, for each entry of the first, the first entry of the
/// second with its key has an equal value (their order does not count).
pub open spec fn value_eq_by(a: OwnedValue, b: OwnedValue, fc: spec_fn(u64, u64) -> bool) -> bool
    decreases a,
{
    match (a, b) {
        (OwnedValue::Null, OwnedValue::Null) => true,
        (OwnedValue::Bool(x), OwnedValue::Bool(y)) => x == y,
        (OwnedValue::I64(x), OwnedValue::I64(y)) => x == y,
        (OwnedValue::F64(x), OwnedValue::F64(y)) => fc(x, y),
        (OwnedValue::String(x), OwnedValue::String(y)) => x@ == y@,
        (OwnedValue::Array(x), OwnedValue::Array(y)) => x.len() == y.len() && forall|i: int|
            0 <= i < x.len() ==> value_eq_by(#[trigger] x@[i], y@[i], fc),
        (OwnedValue::Object(x), OwnedValue::Object(y)) => x.len() == y.len() && forall|i: int|
            0 <= i < x.len() ==> {
                let j = key_index(y@, (#[trigger] x@[i]).0@);
                0 <= j && value_eq_by(x@[i].1, y@[j].1, fc)
            },
        _ => false,
    }
}

impl OwnedValue {
    /// Structural equality with doubles compared by `close`, as `value_eq_by` states it.
    pub fn equals_by<F: Fn(u64, u64) -> bool>(&self, other: &OwnedValue, close: &F) -> (r: bool)
        requires
            close_ok(*close),
        ensures
            r == value_eq_by(*self, *other, close_spec(*close)),
        decreases *self,
    {
        match self {
            OwnedValue::Null => match other {
                OwnedValue::Null => true,
                _ => false,
            },
            OwnedValue::Bool(x) => match other {
                OwnedValue::Bool(y) => *x == *y,
                _ => false,
            },
            OwnedValue::I64(x) => match other {
                OwnedValue::I64(y) => *x == *y,
                _ => false,
            },
            OwnedValue::F64(x) => match other {
                OwnedValue::F64(y) => close(*x, *y),
                _ => false,
            },
            OwnedValue::String(x) => match other {
                OwnedValue::String(y) => {
                    x.eq(y)
                },
                _ => false,
            },
            OwnedValue::Array(x) => match other {
                OwnedValue::Array(y) => {
                    Self::arrays_equal_by(x, y, close)
                },
                _ => false,
            },
            OwnedValue::Object(x) => match other {
                OwnedValue::Object(y) => {
                    Self::objects_equal_by(x, y, close)
                },
                _ => false,
            },
        }
    }

    fn arrays_equal_by<F: Fn(u64, u64) -> bool>(x: &Vec<OwnedValue>, y: &Vec<OwnedValue>, close: &F) -> (r: bool)
        requires
            close_ok(*close),
        ensures
            r == (x.len() == y.len() && forall|i: int|
                0 <= i < x.len() ==> value_eq_by(#[trigger] x@[i], y@[i], close_spec(*close))),
        decreases x,
    {
        if x.len() != y.len() {
            return false;
        }
        let mut i: usize = 0;
        while i < x.len()
            invariant
                close_ok(*close),
                i <= x.len() == y.len(),
                forall|k: int| 0 <= k < i ==> value_eq_by(#[trigger] x@[k], y@[k], close_spec(*close)),
            decreases x.len() - i,
        {
            proof {
                assert(decreases_to!(x => x[i as int]));
            }
            if !x[i].equals_by(&y[i], close) {
                return false;
            }
            i += 1;
        }
        true
    }

    fn objects_equal_by<F: Fn(u64, u64) -> bool>(x: &Vec<(String, OwnedValue)>, y: &Vec<(String, OwnedValue)>, close: &F) -> (r: bool)
        requires
            close_ok(*close),
        ensures
            r == (x.len() == y.len() && forall|i: int|
                0 <= i < x.len() ==> {
                    let j = key_index(y@, (#[trigger] x@[i]).0@);
                    0 <= j && value_eq_by(x@[i].1, y@[j].1, close_spec(*close))
                }),
        decreases x,
    {
        if x.len() != y.len() {
            return false;
        }
        let mut i: usize = 0;
        while i < x.len()
            invariant
                close_ok(*close),
                i <= x.len() == y.len(),
                forall|k: int|
                    0 <= k < i ==> {
                        let j = key_index(y@, (#[trigger] x@[k]).0@);
                        0 <= j && value_eq_by(x@[k].1, y@[j].1, close_spec(*close))
                    },
            decreases x.len() - i,
        {
            proof {
                assert(decreases_to!(x => x[i as int]));
            }
            match find_key(y, &x[i].0) {
                Some(j) => {
                    if !x[i].1.equals_by(&y[j].1, close) {
                        return false;
                    }
                },
                None => {
                    return false;
                },
            }
            i += 1;
        }
        true
    }
}

impl OwnedValue {
    pub open spec fn spec_as_bool(&self) -> Option<bool> {
        match self {
            OwnedValue::Bool(b) => Some(*b),
            _ => None,
        }
    }

    pub open spec fn spec_as_i64(&self) -> Option<i64> {
        match self {
            OwnedValue::I64(n) => Some(*n),
            _ => None,
        }
    }

    pub open spec fn spec_as_u64(&self) -> Option<u64> {
        match self {
            OwnedValue::I64(n) => if *n >= 0 {
                Some(*n as u64)
            } else {
                None
            },
            _ => None,
        }
    }

    pub fn is_null(&self) -> (r: bool)
        ensures
            r == (*self is Null),
    {
        match self {
            OwnedValue::Null => true,
            _ => false,
        }
    }

    /// The boolean held, if this is one.
    pub fn as_bool(&self) -> (r: Option<bool>)
        ensures
            r == self.spec_as_bool(),
    {
        match self {
            OwnedValue::Bool(b) => Some(*b),
            _ => None,
        }
    }

    /// The integer held, if this is one.
    pub fn as_i64(&self) -> (r: Option<i64>)
        ensures
            r == self.spec_as_i64(),
    {
        match self {
            OwnedValue::I64(n) => Some(*n),
            _ => None,
        }
    }

    /// The integer held, if this is a non-negative one.
    pub fn as_u64(&self) -> (r: Option<u64>)
        ensures
            r == self.spec_as_u64(),
    {
        match self {
            OwnedValue::I64(n) => if *n >= 0 {
                Some(*n as u64)
            } else {
                None
            },
            _ => None,
        }
    }

    /// The bit pattern of the double held, if this is one.
    pub fn as_f64_bits(&self) -> (r: Option<u64>)
        ensures
            r == match *self {
                OwnedValue::F64(b) => Some(b),
                _ => None::<u64>,
            },
    {
        match self {
            OwnedValue::F64(b) => Some(*b),
            _ => None,
        }
    }

    /// The text held, if this is a string.
    pub fn as_str(&self) -> (r: Option<&str>)
        ensures
            match *self {
                OwnedValue::String(s) => r is Some && r->Some_0@ == s@,
                _ => r is None,
            },
    {
        match self {
            OwnedValue::String(s) => Some(s.as_str()),
            _ => None,
        }
    }
}

impl PartialEq for OwnedValue {
    fn eq(&self, other: &OwnedValue) -> (r: bool) {
        self.equals(other)
    }
}

impl vstd::std_specs::cmp::PartialEqSpecImpl for OwnedValue {
    open spec fn obeys_eq_spec() -> bool {
        true
    }

    open spec fn eq_spec(&self, other: &OwnedValue) -> bool {
        value_eq(*self, *other)
    }
}

impl PartialEq<bool> for OwnedValue {
    fn eq(&self, other: &bool) -> (r: bool) {
        match self.as_bool() {
            Some(b) => b == *other,
            None => false,
        }
    }
}

impl vstd::std_specs::cmp::PartialEqSpecImpl<bool> for OwnedValue {
    open spec fn obeys_eq_spec() -> bool {
        true
    }

    open spec fn eq_spec(&self, other: &bool) -> bool {
        self.spec_as_bool() == Some(*other)
    }
}

impl PartialEq<i8> for OwnedValue {
    fn eq(&self, other: &i8) -> (r: bool) {
        match self.as_i64() {
            Some(n) => n == *other as i64,
            None => false,
        }
    }
}

impl vstd::std_specs::cmp::PartialEqSpecImpl<i8> for OwnedValue {
    open spec fn obeys_eq_spec() -> bool {
        true
    }

    open spec fn eq_spec(&self, other: &i8) -> bool {
        self.spec_as_i64() == Some(*other as i64)
    }
}

impl PartialEq<i16> for OwnedValue {
    fn eq(&self, other: &i16) -> (r: bool) {
        match self.as_i64() {
            Some(n) => n == *other as i64,
            None => false,
        }
    }
}

impl vstd::std_specs::cmp::PartialEqSpecImpl<i16> for OwnedValue {
    open spec fn obeys_eq_spec() -> bool {
        true
    }

    open spec fn eq_spec(&self, other: &i16) -> bool {
        self.spec_as_i64() == Some(*other as i64)
    }
}

impl PartialEq<i32> for OwnedValue {
    fn eq(&self, other: &i32) -> (r: bool) {
        match self.as_i64() {
            Some(n) => n == *other as i64,
            None => false,
        }
    }
}

impl vstd::std_specs::cmp::PartialEqSpecImpl<i32> for OwnedValue {
    open spec fn obeys_eq_spec() -> bool {
        true
    }

    open spec fn eq_spec(&self, other: &i32) -> bool {
        self.spec_as_i64() == Some(*other as i64)
    }
}

impl PartialEq<i64> for OwnedValue {
    fn eq(&self, other: &i64) -> (r: bool) {
        match self.as_i64() {
            Some(n) => n == *other as i64,
            None => false,
        }
    }
}

impl vstd::std_specs::cmp::PartialEqSpecImpl<i64> for OwnedValue {
    open spec fn obeys_eq_spec() -> bool {
        true
    }

    open spec fn eq_spec(&self, other: &i64) -> bool {
        self.spec_as_i64() == Some(*other as i64)
    }
}

impl PartialEq<u8> for OwnedValue {
    fn eq(&self, other: &u8) -> (r: bool) {
        match self.as_u64() {
            Some(n) => n == *other as u64,
            None => false,
        }
    }
}

impl vstd::std_specs::cmp::PartialEqSpecImpl<u8> for OwnedValue {
    open spec fn obeys_eq_spec() -> bool {
        true
    }

    open spec fn eq_spec(&self, other: &u8) -> bool {
        self.spec_as_u64() == Some(*other as u64)
    }
}

impl PartialEq<u16> for OwnedValue {
    fn eq(&self, other: &u16) -> (r: bool) {
        match self.as_u64() {
            Some(n) => n == *other as u64,
            None => false,
        }
    }
}

impl vstd::std_specs::cmp::PartialEqSpecImpl<u16> for OwnedValue {
    open spec fn obeys_eq_spec() -> bool {
        true
    }

    open spec fn eq_spec(&self, other: &u16) -> bool {
        self.spec_as_u64() == Some(*other as u64)
    }
}

impl PartialEq<u32> for OwnedValue {
    fn eq(&self, other: &u32) -> (r: bool) {
        match self.as_u64() {
            Some(n) => n == *other as u64,
            None => false,
        }
    }
}

impl vstd::std_specs::cmp::PartialEqSpecImpl<u32> for OwnedValue {
    open spec fn obeys_eq_spec() -> bool {
        true
    }

    open spec fn eq_spec(&self, other: &u32) -> bool {
        self.spec_as_u64() == Some(*other as u64)
    }
}

impl PartialEq<u64> for OwnedValue {
    fn eq(&self, other: &u64) -> (r: bool) {
        match self.as_u64() {
            Some(n) => n == *other as u64,
            None => false,
        }
    }
}

impl vstd::std_specs::cmp::PartialEqSpecImpl<u64> for OwnedValue {
    open spec fn obeys_eq_spec() -> bool {
        true
    }

    open spec fn eq_spec(&self, other: &u64) -> bool {
        self.spec_as_u64() == Some(*other as u64)
    }
}

impl PartialEq<usize> for OwnedValue {
    fn eq(&self, other: &usize) -> (r: bool) {
        match self.as_u64() {
            Some(n) => n == *other as u64,
            None => false,
        }
    }
}

impl vstd::std_specs::cmp::PartialEqSpecImpl<usize> for OwnedValue {
    open spec fn obeys_eq_spec() -> bool {
        true
    }

    open spec fn eq_spec(&self, other: &usize) -> bool {
        self.spec_as_u64() == Some(*other as u64)
    }
}

/// Whether two texts hold the same characters.
pub fn str_equal(a: &str, b: &str) -> (r: bool)
    ensures
        r == (a@ == b@),
{
    let n = a.unicode_len();
    if n != b.unicode_len() {
        return false;
    }
    let mut i: usize = 0;
    while i < n
        invariant
            n == a@.len() == b@.len(),
            i <= n,
            forall|k: int| 0 <= k < i ==> a@[k] == b@[k],
        decreases n - i,
    {
        if a.get_char(i) != b.get_char(i) {
            return false;
        }
        i += 1;
    }
    assert(a@ =~= b@);
    true
}

impl OwnedValue {
    pub open spec fn spec_str(&self) -> Option<Seq<char>> {
        match self {
            OwnedValue::String(s) => Some(s@),
            _ => None,
        }
    }
}

impl PartialEq<str> for OwnedValue {
    fn eq(&self, other: &str) -> (r: bool) {
        match self {
            OwnedValue::String(s) => str_equal(s.as_str(), other),
            _ => false,
        }
    }
}

impl vstd::std_specs::cmp::PartialEqSpecImpl<str> for OwnedValue {
    open spec fn obeys_eq_spec() -> bool {
        true
    }

    open spec fn eq_spec(&self, other: &str) -> bool {
        self.spec_str() == Some(other@)
    }
}

impl<'a> PartialEq<&'a str> for OwnedValue {
    fn eq(&self, other: &&'a str) -> (r: bool) {
        match self {
            OwnedValue::String(s) => str_equal(s.as_str(), *other),
            _ => false,
        }
    }
}

impl<'a> vstd::std_specs::cmp::PartialEqSpecImpl<&'a str> for OwnedValue {
    open spec fn obeys_eq_spec() -> bool {
        true
    }

    open spec fn eq_spec(&self, other: &&'a str) -> bool {
        self.spec_str() == Some(other@)
    }
}

impl PartialEq<String> for OwnedValue {
    fn eq(&self, other: &String) -> (r: bool) {
        match self {
            OwnedValue::String(s) => s.eq(other),
            _ => false,
        }
    }
}

impl vstd::std_specs::cmp::PartialEqSpecImpl<String> for OwnedValue {
    open spec fn obeys_eq_spec() -> bool {
        true
    }

    open spec fn eq_spec(&self, other: &String) -> bool {
        self.spec_str() == Some(other@)
    }
}

impl PartialEq<()> for OwnedValue {
    fn eq(&self, other: &()) -> (r: bool) {
        self.is_null()
    }
}

impl vstd::std_specs::cmp::PartialEqSpecImpl<()> for OwnedValue {
    open spec fn obeys_eq_spec() -> bool {
        true
    }

    open spec fn eq_spec(&self, other: &()) -> bool {
        *self is Null
    }
}

impl PartialEq<i128> for OwnedValue {
    fn eq(&self, other: &i128) -> (r: bool) {
        match self.as_i64() {
            Some(n) => n as i128 == *other,
            None => false,
        }
    }
}

impl vstd::std_specs::cmp::PartialEqSpecImpl<i128> for OwnedValue {
    open spec fn obeys_eq_spec() -> bool {
        true
    }

    open spec fn eq_spec(&self, other: &i128) -> bool {
        match self.spec_as_i64() {
            Some(n) => n as int == *other as int,
            None => false,
        }
    }
}

impl PartialEq<u128> for OwnedValue {
    fn eq(&self, other: &u128) -> (r: bool) {
        match self.as_u64() {
            Some(n) => n as u128 == *other,
            None => false,
        }
    }
}

impl vstd::std_specs::cmp::PartialEqSpecImpl<u128> for OwnedValue {
    open spec fn obeys_eq_spec() -> bool {
        true
    }

    open spec fn eq_spec(&self, other: &u128) -> bool {
        match self.spec_as_u64() {
            Some(n) => n as int == *other as int,
            None => false,
        }
    }
}

} // verus!
