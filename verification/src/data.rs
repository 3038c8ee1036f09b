//! Headers of stored tuples.
//!
//! A stored tuple is a raw byte string.  Its first four bytes are a
//! big-endian tag giving the kind of record it belongs to; a tuple that
//! carries a type definition holds, after the tag, one text element: a text
//! marker byte followed by the type name.

use vstd::prelude::*;

verus! {

/// Kind of a stored record, encoded as the tuple's four-byte prefix, in
/// this order starting from zero.
#[derive(Clone, Copy, PartialEq, Eq, Structural, PartialOrd, Ord, Debug)]
pub enum DataKind {
    Data,
    Node,
    Edge,
    Assoc,
    Index,
    Value,
    Type,
}

/// A declared value type, as stored in a type-definition tuple.
#[derive(Clone, Copy, PartialEq, Eq, Structural, Debug)]
pub enum Typing {
    Any,
    Bool,
    Int,
    Text,
}

/// Why a stored tuple could not be read.
#[derive(Debug)]
pub enum DataError {
    /// The four-byte prefix holds no known kind code.
    UndefinedDataKind(u32),
    /// The tuple is too short or its element is not text.
    BadDataFormat(Vec<u8>),
    /// The text element names no known type.
    UndefinedTyping(Vec<u8>),
}

/// A stored tuple: its raw bytes.
#[derive(Debug)]
pub struct Tuple(pub Vec<u8>);

/// The marker byte that introduces a text element.
pub const TEXT_TAG: u8 = 6;

/// The value of the four-byte big-endian prefix.
pub open spec fn prefix_val(b: Seq<u8>) -> int {
    b[0] * 0x1000000 + b[1] * 0x10000 + b[2] * 0x100 + b[3]
}

/// The kind a prefix code denotes, if any.
pub open spec fn kind_of_code(v: int) -> Option<DataKind> {
    if v == 0 {
        Some(DataKind::Data)
    } else if v == 1 {
        Some(DataKind::Node)
    } else if v == 2 {
        Some(DataKind::Edge)
    } else if v == 3 {
        Some(DataKind::Assoc)
    } else if v == 4 {
        Some(DataKind::Index)
    } else if v == 5 {
        Some(DataKind::Value)
    } else if v == 6 {
        Some(DataKind::Type)
    } else {
        None
    }
}

/// The type a name (as bytes) denotes, if any: the names are `Any`, `Bool`,
/// `Int` and `Text`, given here by their character codes.
pub open spec fn typing_of_name(name: Seq<u8>) -> Option<Typing> {
    if name == seq![65u8, 110u8, 121u8] {
        Some(Typing::Any)
    } else if name == seq![66u8, 111u8, 111u8, 108u8] {
        Some(Typing::Bool)
    } else if name == seq![73u8, 110u8, 116u8] {
        Some(Typing::Int)
    } else if name == seq![84u8, 101u8, 120u8, 116u8] {
        Some(Typing::Text)
    } else {
        None
    }
}

/// Copy of a byte vector.
fn dup_bytes(v: &Vec<u8>) -> (r: Vec<u8>)
    ensures
        r@ == v@,
{
    let mut r: Vec<u8> = Vec::new();
    let mut i: usize = 0;
    while i < v.len()
        invariant
            i <= v@.len(),
            r@ == v@.subrange(0, i as int),
        decreases v@.len() - i,
    {
        r.push(v[i]);
        proof {
            assert(v@.subrange(0, i as int + 1) =~= v@.subrange(0, i as int).push(v@[i as int]));
        }
        i += 1;
    }
    proof {
        assert(v@.subrange(0, v@.len() as int) =~= v@);
    }
    r
}

impl Tuple {
    /// The four-byte big-endian prefix.
    pub fn get_prefix(&self) -> (r: u32)
        requires
            self.0@.len() >= 4,
        ensures
            r as int == prefix_val(self.0@),
    {
        (self.0[0] as u32) * 0x1000000 + (self.0[1] as u32) * 0x10000 + (self.0[2] as u32) * 0x100
            + (self.0[3] as u32)
    }

    /// The kind of record this tuple belongs to, read from its prefix.  A
    /// tuple shorter than the prefix, or a prefix holding no known code, is
    /// rejected.
    pub fn data_kind(&self) -> (r: Result<DataKind, DataError>)
        ensures
            self.0@.len() < 4 ==> (r matches Err(DataError::BadDataFormat(b)) && b@ == self.0@),
            self.0@.len() >= 4 ==> match kind_of_code(prefix_val(self.0@)) {
                Some(k) => r == Ok::<DataKind, DataError>(k),
                None => r matches Err(DataError::UndefinedDataKind(v)) && v as int == prefix_val(
                    self.0@,
                ),
            },
    {
        if self.0.len() < 4 {
            return Err(DataError::BadDataFormat(dup_bytes(&self.0)));
        }
        let v = self.get_prefix();
        if v == 0 {
            Ok(DataKind::Data)
        } else if v == 1 {
            Ok(DataKind::Node)
        } else if v == 2 {
            Ok(DataKind::Edge)
        } else if v == 3 {
            Ok(DataKind::Assoc)
        } else if v == 4 {
            Ok(DataKind::Index)
        } else if v == 5 {
            Ok(DataKind::Value)
        } else if v == 6 {
            Ok(DataKind::Type)
        } else {
            Err(DataError::UndefinedDataKind(v))
        }
    }

    /// The text payload of the tuple's first element: the bytes after the
    /// text marker.
    pub fn get_text(&self) -> (r: Option<Vec<u8>>)
        ensures
            (self.0@.len() >= 5 && self.0@[4] == TEXT_TAG) ==> (r matches Some(b) && b@
                == self.0@.skip(5)),
            !(self.0@.len() >= 5 && self.0@[4] == TEXT_TAG) ==> r is None,
    {
        if self.0.len() < 5 || self.0[4] != TEXT_TAG {
            return None;
        }
        let mut r: Vec<u8> = Vec::new();
        let mut i: usize = 5;
        while i < self.0.len()
            invariant
                5 <= i <= self.0@.len(),
                self.0@.len() >= 5,
                r@ == self.0@.subrange(5, i as int),
            decreases self.0@.len() - i,
        {
            r.push(self.0[i]);
            proof {
                assert(self.0@.subrange(5, i as int + 1) =~= self.0@.subrange(5, i as int).push(
                    self.0@[i as int],
                ));
            }
            i += 1;
        }
        proof {
            assert(self.0@.subrange(5, self.0@.len() as int) =~= self.0@.skip(5));
        }
        Some(r)
    }

    /// Read this tuple as a type definition: its text element must name one
    /// of the known types.
    pub fn interpret_as_type(&self) -> (r: Result<Typing, DataError>)
        ensures
            !(self.0@.len() >= 5 && self.0@[4] == TEXT_TAG) ==> (r matches Err(
                DataError::BadDataFormat(b),
            ) && b@ == self.0@),
            (self.0@.len() >= 5 && self.0@[4] == TEXT_TAG) ==> match typing_of_name(
                self.0@.skip(5),
            ) {
                Some(t) => r == Ok::<Typing, DataError>(t),
                None => r matches Err(DataError::UndefinedTyping(b)) && b@ == self.0@.skip(5),
            },
    {
        let text = match self.get_text() {
            Some(t) => t,
            None => {
                return Err(DataError::BadDataFormat(dup_bytes(&self.0)));
            },
        };
        if text.len() == 3 && text[0] == 65 && text[1] == 110 && text[2] == 121 {
            proof {
                assert(text@ =~= seq![65u8, 110u8, 121u8]);
            }
            Ok(Typing::Any)
        } else if text.len() == 4 && text[0] == 66 && text[1] == 111 && text[2] == 111 && text[3]
            == 108 {
            proof {
                assert(text@ =~= seq![66u8, 111u8, 111u8, 108u8]);
            }
            Ok(Typing::Bool)
        } else if text.len() == 3 && text[0] == 73 && text[1] == 110 && text[2] == 116 {
            proof {
                assert(text@ =~= seq![73u8, 110u8, 116u8]);
            }
            Ok(Typing::Int)
        } else if text.len() == 4 && text[0] == 84 && text[1] == 101 && text[2] == 120 && text[3]
            == 116 {
            proof {
                assert(text@ =~= seq![84u8, 101u8, 120u8, 116u8]);
            }
            Ok(Typing::Text)
        } else {
            proof {
                assert(typing_of_name(text@) is None) by {
                    if text@ == seq![65u8, 110u8, 121u8] {
                        assert(text@.len() == 3 && text@[0] == 65 && text@[1] == 110 && text@[2]
                            == 121);
                    }
                    if text@ == seq![66u8, 111u8, 111u8, 108u8] {
                        assert(text@.len() == 4 && text@[0] == 66 && text@[1] == 111 && text@[2]
                            == 111 && text@[3] == 108);
                    }
                    if text@ == seq![73u8, 110u8, 116u8] {
                        assert(text@.len() == 3 && text@[0] == 73 && text@[1] == 110 && text@[2]
                            == 116);
                    }
                    if text@ == seq![84u8, 101u8, 120u8, 116u8] {
                        assert(text@.len() == 4 && text@[0] == 84 && text@[1] == 101 && text@[2]
                            == 120 && text@[3] == 116);
                    }
                }
            }
            Err(DataError::UndefinedTyping(text))
        }
    }
}

} // verus!
