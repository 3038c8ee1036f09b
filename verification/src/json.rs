//! The raw structured form of a query, after the wire format has been
//! decoded: a tree of plain values.  Turning wire text into this tree is an
//! outer concern; the clause parser reads the tree only.

use vstd::prelude::*;
use crate::attr::AttrValueType;
use crate::value::{DataValue, EntityId};

verus! {

/// A structured input value: a scalar, an ordered list, or an object given
/// as an ordered list of key-value fields.
#[derive(Debug)]
pub enum Json {
    Null,
    Bool(bool),
    UInt(u64),
    Int(i64),
    Str(String),
    Arr(Vec<Json>),
    Obj(Vec<(String, Json)>),
}

/// Coercion of a raw value to an attribute's declared type: a reference
/// takes an unsigned entity id, an integer takes either integer form within
/// range, a string takes a string, a boolean a boolean; everything else is a
/// type mismatch.
pub open spec fn coerce_spec(t: AttrValueType, v: Json) -> Option<DataValue> {
    match (t, v) {
        (AttrValueType::Ref, Json::UInt(n)) => Some(DataValue::EnId(EntityId(n))),
        (AttrValueType::Int, Json::UInt(n)) => if n <= 0x7fff_ffff_ffff_ffff {
            Some(DataValue::Int(n as i64))
        } else {
            None
        },
        (AttrValueType::Int, Json::Int(i)) => Some(DataValue::Int(i)),
        (AttrValueType::Str, Json::Str(s)) => Some(DataValue::Str(s)),
        (AttrValueType::Bool, Json::Bool(b)) => Some(DataValue::Bool(b)),
        _ => None,
    }
}

impl AttrValueType {
    /// Coerce a raw value to this declared type.
    pub fn coerce_value(&self, v: &Json) -> (r: Option<DataValue>)
        ensures
            r == coerce_spec(*self, *v),
    {
        match (self, v) {
            (AttrValueType::Ref, Json::UInt(n)) => Some(DataValue::EnId(EntityId(*n))),
            (AttrValueType::Int, Json::UInt(n)) => {
                if *n <= 0x7fff_ffff_ffff_ffff {
                    Some(DataValue::Int(*n as i64))
                } else {
                    None
                }
            },
            (AttrValueType::Int, Json::Int(i)) => Some(DataValue::Int(*i)),
            (AttrValueType::Str, Json::Str(s)) => Some(DataValue::Str(s.clone())),
            (AttrValueType::Bool, Json::Bool(b)) => Some(DataValue::Bool(*b)),
            _ => None,
        }
    }
}

} // verus!
