//! JSON numbers and their three typed forms.
use serde_json::Number as JsonNumber;
use vstd::pervasive::unreached;
use vstd::prelude::*;

verus! {

/// `serde_json::Number`, carried through as an opaque value.
#[verifier::external_type_specification]
#[verifier::external_body]
pub struct ExJsonNumber(JsonNumber);

/// What a JSON number stands for: an integer, or a float given by its
/// IEEE-754 bit pattern.
pub enum NumberView {
    Integer(int),
    Float(u64),
}

/// Whether `bits` is the bit pattern of a finite 64-bit float: the exponent
/// field is not all ones.
pub open spec fn finite_bits(bits: u64) -> bool {
    (bits >> 52) & 0x7ff != 0x7ff
}

/// Whether `bits` is the bit pattern of a finite 64-bit float.
pub fn is_finite(bits: u64) -> (r: bool)
    ensures
        r == finite_bits(bits),
{
    (bits >> 52) & 0x7ff != 0x7ff
}

impl NumberView {
    /// The values a JSON number can take: an integer from `i64::MIN` to
    /// `u64::MAX`, or a finite float.
    pub open spec fn valid(self) -> bool {
        match self {
            NumberView::Integer(i) => i64::MIN <= i <= u64::MAX,
            NumberView::Float(bits) => finite_bits(bits),
        }
    }

    /// The typed form of a number: an integer that is not negative is `PosInt`,
    /// a negative one `NegInt`, and a float stays a float.
    pub open spec fn typed(self) -> N {
        match self {
            NumberView::Integer(i) => if i >= 0 {
                N::PosInt(i as u64)
            } else {
                N::NegInt(i as i64)
            },
            NumberView::Float(bits) => N::Float(bits),
        }
    }
}

/// The number that a `serde_json::Number` holds.
pub uninterp spec fn number_view(n: JsonNumber) -> NumberView;

/// Calls `serde_json::Number::as_u64`, which gives `Some` exactly for an
/// integer that is not negative, and then that integer.
#[verifier::external_body]
fn number_as_u64(n: &JsonNumber) -> (r: Option<u64>)
    ensures
        r is Some <==> (number_view(*n) matches NumberView::Integer(i) && i >= 0),
        r matches Some(u) ==> number_view(*n) == NumberView::Integer(u as int),
{
    n.as_u64()
}

/// Calls `serde_json::Number::as_i64`, which gives `Some` exactly for an
/// integer of at most `i64::MAX`, and then that integer.
#[verifier::external_body]
fn number_as_i64(n: &JsonNumber) -> (r: Option<i64>)
    ensures
        r is Some <==> (number_view(*n) matches NumberView::Integer(i) && i <= i64::MAX),
        r matches Some(i) ==> number_view(*n) == NumberView::Integer(i as int),
{
    n.as_i64()
}

/// Calls `serde_json::Number::as_f64` and gives the bit pattern of the float
/// that comes back. For a number that holds a float this is the float it
/// holds; whatever comes back is finite.
#[verifier::external_body]
fn number_float_bits(n: &JsonNumber) -> (r: Option<u64>)
    ensures
        number_view(*n) matches NumberView::Float(bits) ==> r == Some(bits),
        r matches Some(bits) ==> finite_bits(bits),
{
    n.as_f64().map(|x| x.to_bits())
}

/// Calls `serde_json::Number::from` on a `u64`: the number holds that integer.
#[verifier::external_body]
fn number_from_u64(u: u64) -> (r: JsonNumber)
    ensures
        number_view(r) == NumberView::Integer(u as int),
{
    JsonNumber::from(u)
}

/// Calls `serde_json::Number::from` on an `i64`: the number holds that integer.
#[verifier::external_body]
fn number_from_i64(i: i64) -> (r: JsonNumber)
    ensures
        number_view(r) == NumberView::Integer(i as int),
{
    JsonNumber::from(i)
}

/// Calls `clone` on a `serde_json::Number`: the copy holds the same number.
#[verifier::external_body]
fn number_clone(n: &JsonNumber) -> (r: JsonNumber)
    ensures
        number_view(r) == number_view(*n),
{
    n.clone()
}

/// The three disjoint forms of a typed number.
#[derive(Clone, Copy, Debug, PartialEq, Eq, Structural)]
pub enum N {
    /// An integer that fits an unsigned 64-bit integer.
    PosInt(u64),
    /// An integer below zero.
    NegInt(i64),
    /// A finite float, as its IEEE-754 bit pattern.
    Float(u64),
}

impl N {
    /// A negative form holds a negative integer and a float form a finite float.
    pub open spec fn wf(self) -> bool {
        match self {
            N::PosInt(_) => true,
            N::NegInt(i) => i < 0,
            N::Float(bits) => finite_bits(bits),
        }
    }

    /// The JSON number that this form stands for.
    pub open spec fn generic(self) -> NumberView {
        match self {
            N::PosInt(u) => NumberView::Integer(u as int),
            N::NegInt(i) => NumberView::Integer(i as int),
            N::Float(bits) => NumberView::Float(bits),
        }
    }

    /// Classifies a JSON number: unsigned if it is one, else signed if it is
    /// one, else a float.
    pub fn classify(number: &JsonNumber) -> (r: N)
        ensures
            number_view(*number).valid(),
            r == number_view(*number).typed(),
            r.wf(),
    {
        match number_as_u64(number) {
            Some(u) => N::PosInt(u),
            None => match number_as_i64(number) {
                Some(i) => N::NegInt(i),
                None => match number_float_bits(number) {
                    Some(bits) => N::Float(bits),
                    None => unreached(),
                },
            },
        }
    }
}

/// Whether `pool` holds a JSON number for the float with bit pattern `bits`.
pub open spec fn float_available(pool: Seq<JsonNumber>, bits: u64) -> bool {
    exists|i: int| 0 <= i < pool.len() && number_view(#[trigger] pool[i]) == NumberView::Float(bits)
}

/// Looks in `pool` for a JSON number that holds the float with bit pattern
/// `bits`, and gives a copy of the first one.
pub fn find_float(pool: &Vec<JsonNumber>, bits: u64) -> (r: Option<JsonNumber>)
    ensures
        r is Some <==> float_available(pool@, bits),
        r matches Some(n) ==> number_view(n) == NumberView::Float(bits),
{
    let mut i: usize = 0;
    while i < pool.len()
        invariant
            i <= pool.len(),
            forall|k: int| 0 <= k < i ==> number_view(#[trigger] pool@[k]) != NumberView::Float(bits),
        decreases pool.len() - i,
    {
        if N::classify(&pool[i]) == N::Float(bits) {
            return Some(number_clone(&pool[i]));
        }
        i = i + 1;
    }
    None
}

impl N {
    /// Whether the JSON number for this form can be had: always for an
    /// integer, and for a float if it is finite and `pool` holds its number.
    pub open spec fn served(self, pool: Seq<JsonNumber>) -> bool {
        self matches N::Float(bits) ==> finite_bits(bits) && float_available(pool, bits)
    }

    /// The JSON number for a typed number. An integer is made here; the
    /// number for a float is taken from `floats`. The result is `None` for a
    /// float that is not finite and for one without its number in `floats`.
    pub fn to_json(self, floats: &Vec<JsonNumber>) -> (r: Option<JsonNumber>)
        ensures
            r is Some <==> self.served(floats@),
            r matches Some(n) ==> number_view(n) == self.generic(),
    {
        match self {
            N::PosInt(u) => Some(number_from_u64(u)),
            N::NegInt(i) => Some(number_from_i64(i)),
            N::Float(bits) => if is_finite(bits) {
                find_float(floats, bits)
            } else {
                None
            },
        }
    }
}

/// A typed JSON number.
#[derive(Clone, Copy, Debug, PartialEq, Eq, Structural)]
pub struct Number {
    pub n: N,
}

impl Number {
    /// The JSON number for a typed number; see [`N::to_json`].
    pub fn to_json(self, floats: &Vec<JsonNumber>) -> (r: Option<JsonNumber>)
        ensures
            r is Some <==> self.n.served(floats@),
            r matches Some(n) ==> number_view(n) == self.n.generic(),
    {
        self.n.to_json(floats)
    }
}

impl From<JsonNumber> for N {
    /// Classifies a JSON number.
    fn from(number: JsonNumber) -> (r: N) {
        N::classify(&number)
    }
}

impl vstd::std_specs::convert::FromSpecImpl<JsonNumber> for N {
    open spec fn obeys_from_spec() -> bool {
        true
    }

    open spec fn from_spec(number: JsonNumber) -> N {
        number_view(number).typed()
    }
}

impl From<JsonNumber> for Number {
    /// The typed number for a JSON number.
    fn from(number: JsonNumber) -> (r: Number) {
        Number { n: N::classify(&number) }
    }
}

impl vstd::std_specs::convert::FromSpecImpl<JsonNumber> for Number {
    open spec fn obeys_from_spec() -> bool {
        true
    }

    open spec fn from_spec(number: JsonNumber) -> Number {
        Number { n: number_view(number).typed() }
    }
}

} // verus!
