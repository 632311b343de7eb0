use vstd::prelude::*;

verus! {

/// A JSON number, as the parser keeps it: a non-negative integer, a negative
/// integer, or a floating-point value (whose value the generator never reads).
#[derive(Clone, Copy, Debug)]
pub enum Number {
    PosInt(u64),
    NegInt(i64),
    Float,
}

/// A parsed JSON value. An object keeps its entries in the parser's
/// iteration order.
#[derive(Debug)]
pub enum Json {
    Null,
    Bool(bool),
    Number(Number),
    Str(String),
    Array(Vec<Json>),
    Object(Vec<(String, Json)>),
}

impl Number {
    /// True when the number has an exact signed 64-bit integer value.
    pub open spec fn fits_i64(self) -> bool {
        match self {
            Number::PosInt(u) => u <= i64::MAX,
            Number::NegInt(_) => true,
            Number::Float => false,
        }
    }

    pub open spec fn is_float(self) -> bool {
        self is Float
    }

    pub fn is_i64(&self) -> (r: bool)
        ensures
            r == self.fits_i64(),
    {
        match self {
            Number::PosInt(u) => *u <= i64::MAX as u64,
            Number::NegInt(_) => true,
            Number::Float => false,
        }
    }

    pub fn is_f64(&self) -> (r: bool)
        ensures
            r == self.is_float(),
    {
        match self {
            Number::Float => true,
            _ => false,
        }
    }
}

} // verus!
