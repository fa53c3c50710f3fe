//! Conversion between the owned value tree and the generic JSON value that outside
//! tooling works with.
use vstd::prelude::*;
use crate::error::SerdeConversionError;
use std::borrow::Cow;
use crate::borrowed::{BorrowedValue, borrowed_eq, borrowed_well_formed, cow_str, key_index as borrowed_key_index, keys_unique as borrowed_keys_unique, lemma_key_index_unique as borrowed_lemma_key_index_unique};
use crate::value::{OwnedValue, value_eq, well_formed, keys_unique, key_index, lemma_key_index_unique};

verus! {

broadcast use vstd::std_specs::vec::axiom_vec_index_decreases;

/// A number of the generic JSON value: a non-negative integer, a negative integer, or a
/// double held as its IEEE 754 bit pattern.
#[derive(Debug, Clone, Copy, PartialEq, Eq, Structural)]
pub enum GenericNumber {
    PosInt(u64),
    NegInt(i64),
    Float(u64),
}

/// The generic JSON value that outside tooling exchanges: its objects are sequences
/// of entries.
#[derive(Debug, PartialEq)]
pub enum GenericValue {
    Null,
    Bool(bool),
    Number(GenericNumber),
    String(String),
    Array(Vec<GenericValue>),
    Object(Vec<(String, GenericValue)>),
}

/// Whether the bit pattern is that of a finite double: its exponent field is not all ones.
pub open spec fn is_finite_bits(b: u64) -> bool {
    (b >> 52u64) & 0x7FFu64 != 0x7FFu64
}

pub open spec fn number_matches(n: GenericNumber, v: OwnedValue) -> bool {
    match (n, v) {
        (GenericNumber::PosInt(a), OwnedValue::I64(b)) => a == b,
        (GenericNumber::NegInt(a), OwnedValue::I64(b)) => a == b,
        (GenericNumber::Float(a), OwnedValue::F64(b)) => a == b,
        _ => false,
    }
}

/// Whether `g` and `v` have one shape and the same contents, entry for entry and in order.
pub open spec fn corresponds(g: GenericValue, v: OwnedValue) -> bool
    decreases g,
{
    match (g, v) {
        (GenericValue::Null, OwnedValue::Null) => true,
        (GenericValue::Bool(a), OwnedValue::Bool(b)) => a == b,
        (GenericValue::Number(n), _) => number_matches(n, v),
        (GenericValue::String(a), OwnedValue::String(b)) => a@ == b@,
        (GenericValue::Array(a), OwnedValue::Array(b)) => a.len() == b.len() && forall|i: int|
            0 <= i < a.len() ==> corresponds(#[trigger] a@[i], b@[i]),
        (GenericValue::Object(a), OwnedValue::Object(b)) => a.len() == b.len() && forall|i: int|
            0 <= i < a.len() ==> (#[trigger] a@[i]).0@ == b@[i].0@ && corresponds(a@[i].1, b@[i].1),
        _ => false,
    }
}

/// Whether every integer of `g` fits in an `i64`.
pub open spec fn ints_fit(g: GenericValue) -> bool
    decreases g,
{
    match g {
        GenericValue::Number(n) => match n {
            GenericNumber::PosInt(u) => u <= i64::MAX,
            _ => true,
        },
        GenericValue::Array(a) => forall|i: int| 0 <= i < a.len() ==> ints_fit(#[trigger] a@[i]),
        GenericValue::Object(o) => forall|i: int| 0 <= i < o.len() ==> ints_fit((#[trigger] o@[i]).1),
        _ => true,
    }
}

/// Whether every double of `v` is finite: neither NaN nor infinite.
pub open spec fn all_finite(v: OwnedValue) -> bool
    decreases v,
{
    match v {
        OwnedValue::F64(b) => is_finite_bits(b),
        OwnedValue::Array(a) => forall|i: int| 0 <= i < a.len() ==> all_finite(#[trigger] a@[i]),
        OwnedValue::Object(o) => forall|i: int| 0 <= i < o.len() ==> all_finite((#[trigger] o@[i]).1),
        _ => true,
    }
}

/// Whether every integer of `g` uses the variant its sign calls for.
pub open spec fn canonical(g: GenericValue) -> bool
    decreases g,
{
    match g {
        GenericValue::Number(GenericNumber::NegInt(n)) => n < 0,
        GenericValue::Array(a) => forall|i: int| 0 <= i < a.len() ==> canonical(#[trigger] a@[i]),
        GenericValue::Object(o) => forall|i: int| 0 <= i < o.len() ==> canonical((#[trigger] o@[i]).1),
        _ => true,
    }
}

/// Round trip: where the generic value `g` corresponds to a well-formed value `v`
/// (as converting `v` gives it) and to `w` (as converting `g` back gives it), every
/// integer of `g` fits in an `i64`, so that the conversion back succeeds, and `w`
/// equals `v`.
pub proof fn lemma_round_trip(v: OwnedValue, g: GenericValue, w: OwnedValue)
    requires
        well_formed(v),
        corresponds(g, v),
        corresponds(g, w),
    ensures
        ints_fit(g),
        value_eq(v, w),
    decreases v,
{
    match v {
        OwnedValue::Array(b) => {
            let a = g->Array_0;
            let c = w->Array_0;
            assert forall|i: int| 0 <= i < b.len() implies ints_fit(a@[i]) && value_eq(
                #[trigger] b@[i],
                c@[i],
            ) by {
                assert(decreases_to!(b => b[i]));
                lemma_round_trip(b@[i], a@[i], c@[i]);
            }
            // naming the value lets the solver unfold the spec functions applied to it
            let gg = GenericValue::Array(a);
            assert(gg->Array_0 == a);
            assert(a.len() == b.len() && a.len() == c.len());
            assert(v->Array_0 == b && w->Array_0 == c);
            assert(value_eq(v, w));
        },
        OwnedValue::Object(b) => {
            let a = g->Object_0;
            let c = w->Object_0;
            assert(keys_unique(c@)) by {
                assert forall|i: int, j: int|
                    0 <= i < c.len() && 0 <= j < c.len() && i != j implies (#[trigger] c@[i]).0@
                        != (#[trigger] c@[j]).0@ by {
                    assert(a@[i].0@ == b@[i].0@);
                    assert(a@[j].0@ == b@[j].0@);
                    assert(b@[i].0@ != b@[j].0@);
                }
            }
            assert forall|i: int| 0 <= i < b.len() implies ints_fit(a@[i].1) && ({
                let j = key_index(c@, (#[trigger] b@[i]).0@);
                0 <= j && value_eq(b@[i].1, c@[j].1)
            }) by {
                assert(decreases_to!(b => b[i]));
                assert(a@[i].0@ == b@[i].0@);
                lemma_key_index_unique(c@, i);
                lemma_round_trip(b@[i].1, a@[i].1, c@[i].1);
            }
            // naming the value lets the solver unfold the spec functions applied to it
            let gg = GenericValue::Object(a);
            assert(gg->Object_0 == a);
            assert(a.len() == b.len() && a.len() == c.len());
            assert(v->Object_0 == b && w->Object_0 == c);
            assert(value_eq(v, w));
        },
        _ => {},
    }
}

/// Whether the bit pattern is that of a finite double.
pub fn finite_bits(b: u64) -> (r: bool)
    ensures
        r == is_finite_bits(b),
{
    (b >> 52u64) & 0x7FFu64 != 0x7FFu64
}

impl OwnedValue {
    /// Converts a generic JSON value. An integer is taken as an `i64`; one above
    /// `i64::MAX` is refused.
    pub fn try_from(item: &GenericValue) -> (r: Result<OwnedValue, SerdeConversionError>)
        ensures
            match r {
                Ok(v) => ints_fit(*item) && corresponds(*item, v),
                Err(e) => !ints_fit(*item) && e == SerdeConversionError::IntegerTooLarge,
            },
        decreases *item,
    {
        match item {
            GenericValue::Null => Ok(OwnedValue::Null),
            GenericValue::Bool(b) => Ok(OwnedValue::Bool(*b)),
            GenericValue::Number(n) => match n {
                GenericNumber::PosInt(u) => {
                    if *u > i64::MAX as u64 {
                        Err(SerdeConversionError::IntegerTooLarge)
                    } else {
                        Ok(OwnedValue::I64(*u as i64))
                    }
                },
                GenericNumber::NegInt(i) => Ok(OwnedValue::I64(*i)),
                GenericNumber::Float(f) => Ok(OwnedValue::F64(*f)),
            },
            GenericValue::String(s) => Ok(OwnedValue::String(s.clone())),
            GenericValue::Array(a) => Self::array_from(a),
            GenericValue::Object(o) => Self::object_from(o),
        }
    }

    /// Converts to a generic JSON value. A double that is NaN or infinite is refused.
    pub fn try_into(&self) -> (r: Result<GenericValue, SerdeConversionError>)
        ensures
            match r {
                Ok(g) => all_finite(*self) && corresponds(g, *self) && canonical(g),
                Err(e) => !all_finite(*self) && e == SerdeConversionError::NanOrInfinity,
            },
        decreases *self,
    {
        match self {
            OwnedValue::Null => Ok(GenericValue::Null),
            OwnedValue::Bool(b) => Ok(GenericValue::Bool(*b)),
            OwnedValue::I64(n) => {
                if *n < 0 {
                    Ok(GenericValue::Number(GenericNumber::NegInt(*n)))
                } else {
                    Ok(GenericValue::Number(GenericNumber::PosInt(*n as u64)))
                }
            },
            OwnedValue::F64(f) => {
                if finite_bits(*f) {
                    Ok(GenericValue::Number(GenericNumber::Float(*f)))
                } else {
                    Err(SerdeConversionError::NanOrInfinity)
                }
            },
            OwnedValue::String(s) => Ok(GenericValue::String(s.clone())),
            OwnedValue::Array(a) => Self::array_into(a),
            OwnedValue::Object(o) => Self::object_into(o),
        }
    }

    fn array_from(a: &Vec<GenericValue>) -> (r: Result<OwnedValue, SerdeConversionError>)
        ensures
            match r {
                Ok(v) => ints_fit(GenericValue::Array(*a)) && corresponds(GenericValue::Array(*a), v),
                Err(e) => !ints_fit(GenericValue::Array(*a)) && e == SerdeConversionError::IntegerTooLarge,
            },
        decreases a,
    {
        let mut out: Vec<OwnedValue> = Vec::new();
        let mut i: usize = 0;
        while i < a.len()
            invariant
                i <= a.len(),
                out.len() == i,
                forall|k: int| 0 <= k < i ==> ints_fit(#[trigger] a@[k]),
                forall|k: int| 0 <= k < i ==> corresponds(#[trigger] a@[k], out@[k]),
            decreases a.len() - i,
        {
            proof {
                assert(decreases_to!(a => a[i as int]));
            }
            match Self::try_from(&a[i]) {
                Ok(v) => out.push(v),
                Err(e) => {
                    proof {
                        // naming the value lets the solver unfold the spec functions applied to it
                        let w = GenericValue::Array(*a);
                        assert(w->Array_0 == *a);
                    }
                    return Err(e);
                },
            }
            i += 1;
        }
        Ok(OwnedValue::Array(out))
    }

    fn object_from(o: &Vec<(String, GenericValue)>) -> (r: Result<OwnedValue, SerdeConversionError>)
        ensures
            match r {
                Ok(v) => ints_fit(GenericValue::Object(*o)) && corresponds(GenericValue::Object(*o), v),
                Err(e) => !ints_fit(GenericValue::Object(*o)) && e == SerdeConversionError::IntegerTooLarge,
            },
        decreases o,
    {
        let mut out: Vec<(String, OwnedValue)> = Vec::new();
        let mut i: usize = 0;
        while i < o.len()
            invariant
                i <= o.len(),
                out.len() == i,
                forall|k: int| 0 <= k < i ==> ints_fit((#[trigger] o@[k]).1),
                forall|k: int|
                    0 <= k < i ==> (#[trigger] o@[k]).0@ == out@[k].0@ && corresponds(
                        o@[k].1,
                        out@[k].1,
                    ),
            decreases o.len() - i,
        {
            proof {
                assert(decreases_to!(o => o[i as int]));
            }
            match Self::try_from(&o[i].1) {
                Ok(v) => out.push((o[i].0.clone(), v)),
                Err(e) => {
                    proof {
                        // naming the value lets the solver unfold the spec functions applied to it
                        let w = GenericValue::Object(*o);
                        assert(w->Object_0 == *o);
                    }
                    return Err(e);
                },
            }
            i += 1;
        }
        Ok(OwnedValue::Object(out))
    }

    fn array_into(a: &Vec<OwnedValue>) -> (r: Result<GenericValue, SerdeConversionError>)
        ensures
            match r {
                Ok(g) => all_finite(OwnedValue::Array(*a)) && corresponds(g, OwnedValue::Array(*a)) && canonical(g),
                Err(e) => !all_finite(OwnedValue::Array(*a)) && e == SerdeConversionError::NanOrInfinity,
            },
        decreases a,
    {
        let mut out: Vec<GenericValue> = Vec::new();
        let mut i: usize = 0;
        while i < a.len()
            invariant
                i <= a.len(),
                out.len() == i,
                forall|k: int| 0 <= k < i ==> all_finite(#[trigger] a@[k]),
                forall|k: int|
                    0 <= k < i ==> corresponds(#[trigger] out@[k], a@[k]) && canonical(out@[k]),
            decreases a.len() - i,
        {
            proof {
                assert(decreases_to!(a => a[i as int]));
            }
            match Self::try_into(&a[i]) {
                Ok(g) => out.push(g),
                Err(e) => {
                    proof {
                        // naming the value lets the solver unfold the spec functions applied to it
                        let w = OwnedValue::Array(*a);
                        assert(w->Array_0 == *a);
                    }
                    return Err(e);
                },
            }
            i += 1;
        }
        Ok(GenericValue::Array(out))
    }

    fn object_into(o: &Vec<(String, OwnedValue)>) -> (r: Result<GenericValue, SerdeConversionError>)
        ensures
            match r {
                Ok(g) => all_finite(OwnedValue::Object(*o)) && corresponds(g, OwnedValue::Object(*o)) && canonical(g),
                Err(e) => !all_finite(OwnedValue::Object(*o)) && e == SerdeConversionError::NanOrInfinity,
            },
        decreases o,
    {
        let mut out: Vec<(String, GenericValue)> = Vec::new();
        let mut i: usize = 0;
        while i < o.len()
            invariant
                i <= o.len(),
                out.len() == i,
                forall|k: int| 0 <= k < i ==> all_finite((#[trigger] o@[k]).1),
                forall|k: int|
                    0 <= k < i ==> (#[trigger] out@[k]).0@ == o@[k].0@ && corresponds(
                        out@[k].1,
                        o@[k].1,
                    ) && canonical(out@[k].1),
            decreases o.len() - i,
        {
            proof {
                assert(decreases_to!(o => o[i as int]));
            }
            match Self::try_into(&o[i].1) {
                Ok(g) => out.push((o[i].0.clone(), g)),
                Err(e) => {
                    proof {
                        // naming the value lets the solver unfold the spec functions applied to it
                        let w = OwnedValue::Object(*o);
                        assert(w->Object_0 == *o);
                    }
                    return Err(e);
                },
            }
            i += 1;
        }
        Ok(GenericValue::Object(out))
    }
}

pub open spec fn number_matches_borrowed<'v>(n: GenericNumber, v: BorrowedValue<'v>) -> bool {
    match (n, v) {
        (GenericNumber::PosInt(a), BorrowedValue::I64(b)) => a == b,
        (GenericNumber::NegInt(a), BorrowedValue::I64(b)) => a == b,
        (GenericNumber::Float(a), BorrowedValue::F64(b)) => a == b,
        _ => false,
    }
}

pub open spec fn corresponds_borrowed<'v>(g: GenericValue, v: BorrowedValue<'v>) -> bool
    decreases g,
{
    match (g, v) {
        (GenericValue::Null, BorrowedValue::Null) => true,
        (GenericValue::Bool(a), BorrowedValue::Bool(b)) => a == b,
        (GenericValue::Number(n), _) => number_matches_borrowed(n, v),
        (GenericValue::String(a), BorrowedValue::String(b)) => a@ == b@,
        (GenericValue::Array(a), BorrowedValue::Array(b)) => a.len() == b.len() && forall|i: int|
            0 <= i < a.len() ==> corresponds_borrowed(#[trigger] a@[i], b@[i]),
        (GenericValue::Object(a), BorrowedValue::Object(b)) => a.len() == b.len() && forall|i: int|
            0 <= i < a.len() ==> (#[trigger] a@[i]).0@ == b@[i].0@ && corresponds_borrowed(a@[i].1, b@[i].1),
        _ => false,
    }
}

pub open spec fn all_finite_borrowed<'v>(v: BorrowedValue<'v>) -> bool
    decreases v,
{
    match v {
        BorrowedValue::F64(b) => is_finite_bits(b),
        BorrowedValue::Array(a) => forall|i: int| 0 <= i < a.len() ==> all_finite_borrowed(#[trigger] a@[i]),
        BorrowedValue::Object(o) => forall|i: int| 0 <= i < o.len() ==> all_finite_borrowed((#[trigger] o@[i]).1),
        _ => true,
    }
}

pub proof fn lemma_round_trip_borrowed<'v>(v: BorrowedValue<'v>, g: GenericValue, w: BorrowedValue<'v>)
    requires
        borrowed_well_formed(v),
        corresponds_borrowed(g, v),
        corresponds_borrowed(g, w),
    ensures
        ints_fit(g),
        borrowed_eq(v, w),
    decreases v,
{
    match v {
        BorrowedValue::Array(b) => {
            let a = g->Array_0;
            let c = w->Array_0;
            assert forall|i: int| 0 <= i < b.len() implies ints_fit(a@[i]) && borrowed_eq(
                #[trigger] b@[i],
                c@[i],
            ) by {
                assert(decreases_to!(b => b[i]));
                lemma_round_trip_borrowed(b@[i], a@[i], c@[i]);
            }
            // naming the value lets the solver unfold the spec functions applied to it
            let gg = GenericValue::Array(a);
            assert(gg->Array_0 == a);
            assert(a.len() == b.len() && a.len() == c.len());
            assert(v->Array_0 == b && w->Array_0 == c);
            assert(borrowed_eq(v, w));
        },
        BorrowedValue::Object(b) => {
            let a = g->Object_0;
            let c = w->Object_0;
            assert(borrowed_keys_unique(c@)) by {
                assert forall|i: int, j: int|
                    0 <= i < c.len() && 0 <= j < c.len() && i != j implies (#[trigger] c@[i]).0@
                        != (#[trigger] c@[j]).0@ by {
                    assert(a@[i].0@ == b@[i].0@);
                    assert(a@[j].0@ == b@[j].0@);
                    assert(b@[i].0@ != b@[j].0@);
                }
            }
            assert forall|i: int| 0 <= i < b.len() implies ints_fit(a@[i].1) && ({
                let j = borrowed_key_index(c@, (#[trigger] b@[i]).0@);
                0 <= j && borrowed_eq(b@[i].1, c@[j].1)
            }) by {
                assert(decreases_to!(b => b[i]));
                assert(a@[i].0@ == b@[i].0@);
                borrowed_lemma_key_index_unique(c@, i);
                lemma_round_trip_borrowed(b@[i].1, a@[i].1, c@[i].1);
            }
            // naming the value lets the solver unfold the spec functions applied to it
            let gg = GenericValue::Object(a);
            assert(gg->Object_0 == a);
            assert(a.len() == b.len() && a.len() == c.len());
            assert(v->Object_0 == b && w->Object_0 == c);
            assert(borrowed_eq(v, w));
        },
        _ => {},
    }
}

impl<'v> BorrowedValue<'v> {
    /// Converts a generic JSON value. An integer is taken as an `i64`; one above
    /// `i64::MAX` is refused.
    pub fn try_from(item: &GenericValue) -> (r: Result<BorrowedValue<'v>, SerdeConversionError>)
        ensures
            match r {
                Ok(v) => ints_fit(*item) && corresponds_borrowed(*item, v),
                Err(e) => !ints_fit(*item) && e == SerdeConversionError::IntegerTooLarge,
            },
        decreases *item,
    {
        match item {
            GenericValue::Null => Ok(BorrowedValue::Null),
            GenericValue::Bool(b) => Ok(BorrowedValue::Bool(*b)),
            GenericValue::Number(n) => match n {
                GenericNumber::PosInt(u) => {
                    if *u > i64::MAX as u64 {
                        Err(SerdeConversionError::IntegerTooLarge)
                    } else {
                        Ok(BorrowedValue::I64(*u as i64))
                    }
                },
                GenericNumber::NegInt(i) => Ok(BorrowedValue::I64(*i)),
                GenericNumber::Float(f) => Ok(BorrowedValue::F64(*f)),
            },
            GenericValue::String(s) => Ok(BorrowedValue::String(Cow::Owned(s.clone()))),
            GenericValue::Array(a) => Self::array_from(a),
            GenericValue::Object(o) => Self::object_from(o),
        }
    }

    /// Converts to a generic JSON value. A double that is NaN or infinite is refused.
    pub fn try_into(&self) -> (r: Result<GenericValue, SerdeConversionError>)
        ensures
            match r {
                Ok(g) => all_finite_borrowed(*self) && corresponds_borrowed(g, *self) && canonical(g),
                Err(e) => !all_finite_borrowed(*self) && e == SerdeConversionError::NanOrInfinity,
            },
        decreases *self,
    {
        match self {
            BorrowedValue::Null => Ok(GenericValue::Null),
            BorrowedValue::Bool(b) => Ok(GenericValue::Bool(*b)),
            BorrowedValue::I64(n) => {
                if *n < 0 {
                    Ok(GenericValue::Number(GenericNumber::NegInt(*n)))
                } else {
                    Ok(GenericValue::Number(GenericNumber::PosInt(*n as u64)))
                }
            },
            BorrowedValue::F64(f) => {
                if finite_bits(*f) {
                    Ok(GenericValue::Number(GenericNumber::Float(*f)))
                } else {
                    Err(SerdeConversionError::NanOrInfinity)
                }
            },
            BorrowedValue::String(s) => Ok(GenericValue::String(cow_str(s).to_owned())),
            BorrowedValue::Array(a) => Self::array_into(a),
            BorrowedValue::Object(o) => Self::object_into(o),
        }
    }

    fn array_from(a: &Vec<GenericValue>) -> (r: Result<BorrowedValue<'v>, SerdeConversionError>)
        ensures
            match r {
                Ok(v) => ints_fit(GenericValue::Array(*a)) && corresponds_borrowed(GenericValue::Array(*a), v),
                Err(e) => !ints_fit(GenericValue::Array(*a)) && e == SerdeConversionError::IntegerTooLarge,
            },
        decreases a,
    {
        let mut out: Vec<BorrowedValue<'v>> = Vec::new();
        let mut i: usize = 0;
        while i < a.len()
            invariant
                i <= a.len(),
                out.len() == i,
                forall|k: int| 0 <= k < i ==> ints_fit(#[trigger] a@[k]),
                forall|k: int| 0 <= k < i ==> corresponds_borrowed(#[trigger] a@[k], out@[k]),
            decreases a.len() - i,
        {
            proof {
                assert(decreases_to!(a => a[i as int]));
            }
            match Self::try_from(&a[i]) {
                Ok(v) => out.push(v),
                Err(e) => {
                    proof {
                        // naming the value lets the solver unfold the spec functions applied to it
                        let w = GenericValue::Array(*a);
                        assert(w->Array_0 == *a);
                    }
                    return Err(e);
                },
            }
            i += 1;
        }
        Ok(BorrowedValue::Array(out))
    }

    fn object_from(o: &Vec<(String, GenericValue)>) -> (r: Result<BorrowedValue<'v>, SerdeConversionError>)
        ensures
            match r {
                Ok(v) => ints_fit(GenericValue::Object(*o)) && corresponds_borrowed(GenericValue::Object(*o), v),
                Err(e) => !ints_fit(GenericValue::Object(*o)) && e == SerdeConversionError::IntegerTooLarge,
            },
        decreases o,
    {
        let mut out: Vec<(Cow<'v, str>, BorrowedValue<'v>)> = Vec::new();
        let mut i: usize = 0;
        while i < o.len()
            invariant
                i <= o.len(),
                out.len() == i,
                forall|k: int| 0 <= k < i ==> ints_fit((#[trigger] o@[k]).1),
                forall|k: int|
                    0 <= k < i ==> (#[trigger] o@[k]).0@ == out@[k].0@ && corresponds_borrowed(
                        o@[k].1,
                        out@[k].1,
                    ),
            decreases o.len() - i,
        {
            proof {
                assert(decreases_to!(o => o[i as int]));
            }
            match Self::try_from(&o[i].1) {
                Ok(v) => out.push((Cow::Owned(o[i].0.clone()), v)),
                Err(e) => {
                    proof {
                        // naming the value lets the solver unfold the spec functions applied to it
                        let w = GenericValue::Object(*o);
                        assert(w->Object_0 == *o);
                    }
                    return Err(e);
                },
            }
            i += 1;
        }
        Ok(BorrowedValue::Object(out))
    }

    fn array_into(a: &Vec<BorrowedValue<'v>>) -> (r: Result<GenericValue, SerdeConversionError>)
        ensures
            match r {
                Ok(g) => all_finite_borrowed(BorrowedValue::Array(*a)) && corresponds_borrowed(g, BorrowedValue::Array(*a)) && canonical(g),
                Err(e) => !all_finite_borrowed(BorrowedValue::Array(*a)) && e == SerdeConversionError::NanOrInfinity,
            },
        decreases a,
    {
        let mut out: Vec<GenericValue> = Vec::new();
        let mut i: usize = 0;
        while i < a.len()
            invariant
                i <= a.len(),
                out.len() == i,
                forall|k: int| 0 <= k < i ==> all_finite_borrowed(#[trigger] a@[k]),
                forall|k: int|
                    0 <= k < i ==> corresponds_borrowed(#[trigger] out@[k], a@[k]) && canonical(out@[k]),
            decreases a.len() - i,
        {
            proof {
                assert(decreases_to!(a => a[i as int]));
            }
            match Self::try_into(&a[i]) {
                Ok(g) => out.push(g),
                Err(e) => {
                    proof {
                        // naming the value lets the solver unfold the spec functions applied to it
                        let w = BorrowedValue::Array(*a);
                        assert(w->Array_0 == *a);
                    }
                    return Err(e);
                },
            }
            i += 1;
        }
        Ok(GenericValue::Array(out))
    }

    fn object_into(o: &Vec<(Cow<'v, str>, BorrowedValue<'v>)>) -> (r: Result<GenericValue, SerdeConversionError>)
        ensures
            match r {
                Ok(g) => all_finite_borrowed(BorrowedValue::Object(*o)) && corresponds_borrowed(g, BorrowedValue::Object(*o)) && canonical(g),
                Err(e) => !all_finite_borrowed(BorrowedValue::Object(*o)) && e == SerdeConversionError::NanOrInfinity,
            },
        decreases o,
    {
        let mut out: Vec<(String, GenericValue)> = Vec::new();
        let mut i: usize = 0;
        while i < o.len()
            invariant
                i <= o.len(),
                out.len() == i,
                forall|k: int| 0 <= k < i ==> all_finite_borrowed((#[trigger] o@[k]).1),
                forall|k: int|
                    0 <= k < i ==> (#[trigger] out@[k]).0@ == o@[k].0@ && corresponds_borrowed(
                        out@[k].1,
                        o@[k].1,
                    ) && canonical(out@[k].1),
            decreases o.len() - i,
        {
            proof {
                assert(decreases_to!(o => o[i as int]));
            }
            match Self::try_into(&o[i].1) {
                Ok(g) => out.push((cow_str(&o[i].0).to_owned(), g)),
                Err(e) => {
                    proof {
                        // naming the value lets the solver unfold the spec functions applied to it
                        let w = BorrowedValue::Object(*o);
                        assert(w->Object_0 == *o);
                    }
                    return Err(e);
                },
            }
            i += 1;
        }
        Ok(GenericValue::Object(out))
    }
}


} // verus!
