//! The Node-API value types the host reports to native addons.

use vstd::prelude::*;

verus! {

/// `napi_valuetype`: the type of a JavaScript value as Node-API reports it.
#[allow(non_camel_case_types)]
#[derive(Clone, Copy, PartialEq, Eq, Structural, Debug)]
pub enum napi_valuetype {
    Undefined,
    Null,
    Boolean,
    Number,
    String,
    Symbol,
    Object,
    Function,
    External,
    Bigint,
}

/// The Node-API number of each value type (its C enum value).
pub open spec fn code_spec(t: napi_valuetype) -> i32 {
    match t {
        napi_valuetype::Undefined => 0,
        napi_valuetype::Null => 1,
        napi_valuetype::Boolean => 2,
        napi_valuetype::Number => 3,
        napi_valuetype::String => 4,
        napi_valuetype::Symbol => 5,
        napi_valuetype::Object => 6,
        napi_valuetype::Function => 7,
        napi_valuetype::External => 8,
        napi_valuetype::Bigint => 9,
    }
}

impl napi_valuetype {
    /// The number written through `napi_typeof`'s out pointer.
    pub fn code(&self) -> (c: i32)
        ensures
            c == code_spec(*self),
    {
        match self {
            napi_valuetype::Undefined => 0,
            napi_valuetype::Null => 1,
            napi_valuetype::Boolean => 2,
            napi_valuetype::Number => 3,
            napi_valuetype::String => 4,
            napi_valuetype::Symbol => 5,
            napi_valuetype::Object => 6,
            napi_valuetype::Function => 7,
            napi_valuetype::External => 8,
            napi_valuetype::Bigint => 9,
        }
    }

    /// The value type with Node-API number `c`, if there is one.
    pub fn from_code(c: i32) -> (r: Option<napi_valuetype>)
        ensures
            match r {
                Some(t) => code_spec(t) == c,
                None => c < 0 || c > 9,
            },
    {
        match c {
            0 => Some(napi_valuetype::Undefined),
            1 => Some(napi_valuetype::Null),
            2 => Some(napi_valuetype::Boolean),
            3 => Some(napi_valuetype::Number),
            4 => Some(napi_valuetype::String),
            5 => Some(napi_valuetype::Symbol),
            6 => Some(napi_valuetype::Object),
            7 => Some(napi_valuetype::Function),
            8 => Some(napi_valuetype::External),
            9 => Some(napi_valuetype::Bigint),
            _ => None,
        }
    }
}

/// What the engine says of a value, as `napi_typeof` asks it.
#[derive(Clone, Copy, PartialEq, Eq, Structural, Debug)]
pub struct ValueTraits {
    pub undefined: bool,
    pub null: bool,
    pub boolean: bool,
    pub number: bool,
    pub string: bool,
    pub function: bool,
}

/// `napi_typeof`'s answer: the first trait that holds, in the order undefined, null,
/// boolean, number, string, function; anything else reads as an object.
pub open spec fn typeof_spec(v: ValueTraits) -> napi_valuetype {
    if v.undefined {
        napi_valuetype::Undefined
    } else if v.null {
        napi_valuetype::Null
    } else if v.boolean {
        napi_valuetype::Boolean
    } else if v.number {
        napi_valuetype::Number
    } else if v.string {
        napi_valuetype::String
    } else if v.function {
        napi_valuetype::Function
    } else {
        napi_valuetype::Object
    }
}

pub fn value_type_of(v: ValueTraits) -> (t: napi_valuetype)
    ensures
        t == typeof_spec(v),
{
    if v.undefined {
        napi_valuetype::Undefined
    } else if v.null {
        napi_valuetype::Null
    } else if v.boolean {
        napi_valuetype::Boolean
    } else if v.number {
        napi_valuetype::Number
    } else if v.string {
        napi_valuetype::String
    } else if v.function {
        napi_valuetype::Function
    } else {
        napi_valuetype::Object
    }
}

} // verus!
