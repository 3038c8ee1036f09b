//! Typed values: entity identities, stored data values, validity snapshots,
//! and the total order on values that the sorting stage relies on.

use vstd::prelude::*;
use vstd::string::*;

verus! {

/// Opaque identifier of an entity.  `EntityId(0)` is the sentinel returned
/// by unique-index lookups that find no matching entity.
#[derive(Clone, Copy, PartialEq, Eq, Structural, Debug)]
pub struct EntityId(pub u64);

/// The validity snapshot at which a read is evaluated.  Every triple scan of
/// one compiled plan is stamped with the same validity.
#[derive(Clone, Copy, PartialEq, Eq, Structural, Debug)]
pub struct Validity(pub i64);

/// A stored data value.  `Rev` wraps a value purely to invert its ordering
/// inside a sort key; it carries no independent identity.  Copies are made
/// with [`DataValue::dup`].
#[derive(Debug)]
pub enum DataValue {
    EnId(EntityId),
    Int(i64),
    Str(String),
    Bool(bool),
    Rev(Box<DataValue>),
}

impl DataValue {
    /// Structural copy.
    pub fn dup(&self) -> (r: DataValue)
        ensures
            r == *self,
        decreases *self,
    {
        match self {
            DataValue::EnId(e) => DataValue::EnId(*e),
            DataValue::Int(i) => DataValue::Int(*i),
            DataValue::Str(s) => DataValue::Str(s.clone()),
            DataValue::Bool(b) => DataValue::Bool(*b),
            DataValue::Rev(inner) => {
                let d = (&**inner).dup();
                DataValue::Rev(Box::new(d))
            },
        }
    }
}

/// Outcome of a three-way comparison.
#[derive(Clone, Copy, PartialEq, Eq, Structural, Debug)]
pub enum Cmp {
    Lt,
    Eq,
    Gt,
}

/// The inverse outcome, as used under a descending sort key.
pub open spec fn cmp_invert(c: Cmp) -> Cmp {
    match c {
        Cmp::Lt => Cmp::Gt,
        Cmp::Eq => Cmp::Eq,
        Cmp::Gt => Cmp::Lt,
    }
}

/// Lexicographic comparison of character sequences by code point.
pub open spec fn str_cmp(a: Seq<char>, b: Seq<char>) -> Cmp
    decreases a.len(),
{
    if a.len() == 0 && b.len() == 0 {
        Cmp::Eq
    } else if a.len() == 0 {
        Cmp::Lt
    } else if b.len() == 0 {
        Cmp::Gt
    } else if a[0] < b[0] {
        Cmp::Lt
    } else if a[0] > b[0] {
        Cmp::Gt
    } else {
        str_cmp(a.drop_first(), b.drop_first())
    }
}

/// Rank of a value's variant; values of different variants order by rank.
pub open spec fn dv_rank(v: DataValue) -> int {
    match v {
        DataValue::EnId(_) => 0,
        DataValue::Int(_) => 1,
        DataValue::Str(_) => 2,
        DataValue::Bool(_) => 3,
        DataValue::Rev(_) => 4,
    }
}

/// Total order on data values: variant rank first, then the natural order
/// within a variant; `Rev` inverts the order of the wrapped values.
pub open spec fn dv_cmp(a: DataValue, b: DataValue) -> Cmp
    decreases a,
{
    match (a, b) {
        (DataValue::EnId(x), DataValue::EnId(y)) => cmp_of_u64(x.0, y.0),
        (DataValue::Int(x), DataValue::Int(y)) => cmp_of_i64(x, y),
        (DataValue::Str(x), DataValue::Str(y)) => str_cmp(x@, y@),
        (DataValue::Bool(x), DataValue::Bool(y)) => {
            if !x && y {
                Cmp::Lt
            } else if x && !y {
                Cmp::Gt
            } else {
                Cmp::Eq
            }
        },
        (DataValue::Rev(x), DataValue::Rev(y)) => cmp_invert(dv_cmp(*x, *y)),
        _ => cmp_of_int(dv_rank(a), dv_rank(b)),
    }
}

pub open spec fn cmp_of_u64(x: u64, y: u64) -> Cmp {
    cmp_of_int(x as int, y as int)
}

pub open spec fn cmp_of_i64(x: i64, y: i64) -> Cmp {
    cmp_of_int(x as int, y as int)
}

pub open spec fn cmp_of_int(x: int, y: int) -> Cmp {
    if x < y {
        Cmp::Lt
    } else if x > y {
        Cmp::Gt
    } else {
        Cmp::Eq
    }
}

/// Comparison flips with its arguments.
pub proof fn lemma_str_cmp_flip(a: Seq<char>, b: Seq<char>)
    ensures
        str_cmp(b, a) == cmp_invert(str_cmp(a, b)),
    decreases a.len(),
{
    if a.len() > 0 && b.len() > 0 && a[0] == b[0] {
        lemma_str_cmp_flip(a.drop_first(), b.drop_first());
    }
}

/// Transitivity of the lexicographic order on character sequences.
pub proof fn lemma_str_cmp_trans(a: Seq<char>, b: Seq<char>, c: Seq<char>)
    requires
        str_cmp(a, b) != Cmp::Gt,
        str_cmp(b, c) != Cmp::Gt,
    ensures
        str_cmp(a, c) != Cmp::Gt,
        str_cmp(a, b) == Cmp::Lt || str_cmp(b, c) == Cmp::Lt ==> str_cmp(a, c) == Cmp::Lt,
    decreases a.len() + b.len() + c.len(),
{
    if a.len() == 0 {
        if c.len() == 0 {
            if b.len() > 0 {
            }
        }
    } else {
        // a nonempty; b must be nonempty (else str_cmp(a, b) == Gt)
        // likewise c nonempty unless b empty.
        if b.len() > 0 && c.len() > 0 {
            if a[0] == b[0] && b[0] == c[0] {
                lemma_str_cmp_trans(a.drop_first(), b.drop_first(), c.drop_first());
            }
        }
    }
}

/// Height of the `Rev` nesting, used as a termination measure.
pub open spec fn dv_height(v: DataValue) -> nat
    decreases v,
{
    match v {
        DataValue::Rev(x) => 1 + dv_height(*x),
        _ => 0,
    }
}

/// Comparison of data values flips with its arguments.
pub proof fn lemma_dv_cmp_flip(a: DataValue, b: DataValue)
    ensures
        dv_cmp(b, a) == cmp_invert(dv_cmp(a, b)),
    decreases a,
{
    match (a, b) {
        (DataValue::Str(x), DataValue::Str(y)) => {
            lemma_str_cmp_flip(x@, y@);
        },
        (DataValue::Rev(x), DataValue::Rev(y)) => {
            lemma_dv_cmp_flip(*x, *y);
        },
        _ => {},
    }
}

/// Transitivity of the total order on data values.
pub proof fn lemma_dv_cmp_trans(a: DataValue, b: DataValue, c: DataValue)
    requires
        dv_cmp(a, b) != Cmp::Gt,
        dv_cmp(b, c) != Cmp::Gt,
    ensures
        dv_cmp(a, c) != Cmp::Gt,
        dv_cmp(a, b) == Cmp::Lt || dv_cmp(b, c) == Cmp::Lt ==> dv_cmp(a, c) == Cmp::Lt,
    decreases dv_height(a) + dv_height(b) + dv_height(c),
{
    match (a, b, c) {
        (DataValue::Str(x), DataValue::Str(y), DataValue::Str(z)) => {
            lemma_str_cmp_trans(x@, y@, z@);
        },
        (DataValue::Rev(x), DataValue::Rev(y), DataValue::Rev(z)) => {
            lemma_dv_cmp_flip(*x, *y);
            lemma_dv_cmp_flip(*y, *z);
            lemma_dv_cmp_flip(*x, *z);
            lemma_dv_cmp_trans(*z, *y, *x);
        },
        _ => {},
    }
}

/// Executable three-way comparison, agreeing with [`dv_cmp`].
pub fn dv_cmp_exec(a: &DataValue, b: &DataValue) -> (r: Cmp)
    ensures
        r == dv_cmp(*a, *b),
    decreases *a,
{
    match (a, b) {
        (DataValue::EnId(x), DataValue::EnId(y)) => cmp_u64(x.0, y.0),
        (DataValue::Int(x), DataValue::Int(y)) => cmp_i64(*x, *y),
        (DataValue::Str(x), DataValue::Str(y)) => str_cmp_exec(x, y),
        (DataValue::Bool(x), DataValue::Bool(y)) => {
            if !*x && *y {
                Cmp::Lt
            } else if *x && !*y {
                Cmp::Gt
            } else {
                Cmp::Eq
            }
        },
        (DataValue::Rev(x), DataValue::Rev(y)) => {
            match dv_cmp_exec(&**x, &**y) {
                Cmp::Lt => Cmp::Gt,
                Cmp::Eq => Cmp::Eq,
                Cmp::Gt => Cmp::Lt,
            }
        },
        _ => {
            let ra = dv_rank_exec(a);
            let rb = dv_rank_exec(b);
            cmp_u64(ra, rb)
        },
    }
}

fn dv_rank_exec(v: &DataValue) -> (r: u64)
    ensures
        r as int == dv_rank(*v),
{
    match v {
        DataValue::EnId(_) => 0,
        DataValue::Int(_) => 1,
        DataValue::Str(_) => 2,
        DataValue::Bool(_) => 3,
        DataValue::Rev(_) => 4,
    }
}

fn cmp_u64(x: u64, y: u64) -> (r: Cmp)
    ensures
        r == cmp_of_int(x as int, y as int),
{
    if x < y {
        Cmp::Lt
    } else if x > y {
        Cmp::Gt
    } else {
        Cmp::Eq
    }
}

fn cmp_i64(x: i64, y: i64) -> (r: Cmp)
    ensures
        r == cmp_of_int(x as int, y as int),
{
    if x < y {
        Cmp::Lt
    } else if x > y {
        Cmp::Gt
    } else {
        Cmp::Eq
    }
}

/// Executable lexicographic comparison of strings by code point.
fn str_cmp_exec(a: &String, b: &String) -> (r: Cmp)
    ensures
        r == str_cmp(a@, b@),
{
    let a_len = a.as_str().unicode_len();
    let b_len = b.as_str().unicode_len();
    let mut i: usize = 0;
    proof {
        assert(a@.skip(0) =~= a@);
        assert(b@.skip(0) =~= b@);
    }
    loop
        invariant
            i <= a_len,
            i <= b_len,
            a_len == a@.len(),
            b_len == b@.len(),
            str_cmp(a@, b@) == str_cmp(a@.skip(i as int), b@.skip(i as int)),
        decreases a_len - i,
    {
        if i == a_len && i == b_len {
            return Cmp::Eq;
        }
        if i == a_len {
            return Cmp::Lt;
        }
        if i == b_len {
            return Cmp::Gt;
        }
        let ca = a.as_str().get_char(i);
        let cb = b.as_str().get_char(i);
        if ca < cb {
            return Cmp::Lt;
        }
        if cb < ca {
            return Cmp::Gt;
        }
        proof {
            assert(a@.skip(i as int).drop_first() =~= a@.skip(i as int + 1));
            assert(b@.skip(i as int).drop_first() =~= b@.skip(i as int + 1));
        }
        i += 1;
    }
}

} // verus!
