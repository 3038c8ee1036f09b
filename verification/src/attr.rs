//! Attribute catalog entries.
//!
//! An attribute declares the value type of the triples stored under it and
//! its indexing mode.  The compiler only reads attributes; it never creates
//! or mutates them.

use vstd::prelude::*;
use crate::keyword::{Keyword, KwV};

verus! {

/// Indexing mode of an attribute.  A unique index guarantees at most one
/// entity per distinct value, enabling value-to-entity lookup.
#[derive(Clone, Copy, PartialEq, Eq, Structural, Debug)]
pub enum Indexing {
    NotIndexed,
    Indexed,
    Unique,
}

impl Indexing {
    /// Whether values of this attribute can be looked up by unique index.
    pub fn is_unique_index(&self) -> (r: bool)
        ensures
            r == (*self == Indexing::Unique),
    {
        match self {
            Indexing::Unique => true,
            _ => false,
        }
    }
}

/// Declared value type of an attribute.  `Ref` marks an entity-valued
/// (reference) attribute.
#[derive(Clone, Copy, PartialEq, Eq, Structural, Debug)]
pub enum AttrValueType {
    Ref,
    Int,
    Str,
    Bool,
}

impl AttrValueType {
    /// Whether this type holds references to entities.
    pub fn is_ref_type(&self) -> (r: bool)
        ensures
            r == (*self == AttrValueType::Ref),
    {
        match self {
            AttrValueType::Ref => true,
            _ => false,
        }
    }
}

/// Spec-level form of an [`Attribute`].
pub struct AttrV {
    pub keyword: KwV,
    pub val_type: AttrValueType,
    pub indexing: Indexing,
}

/// A catalog entry: the attribute's name, its declared value type, and its
/// indexing mode.
#[derive(Debug)]
pub struct Attribute {
    pub keyword: Keyword,
    pub val_type: AttrValueType,
    pub indexing: Indexing,
}

impl View for Attribute {
    type V = AttrV;

    open spec fn view(&self) -> AttrV {
        AttrV { keyword: self.keyword@, val_type: self.val_type, indexing: self.indexing }
    }
}

impl Attribute {
    /// Structural copy.
    pub fn dup(&self) -> (r: Attribute)
        ensures
            r == *self,
    {
        Attribute {
            keyword: self.keyword.dup(),
            val_type: self.val_type,
            indexing: self.indexing,
        }
    }
}

} // verus!
