//! Interned names.
//!
//! A [`Keyword`] is either a user-supplied name (a variable or an attribute
//! name, depending on where it occurs) or a synthetic name allocated by the
//! compiler.  Synthetic names carry a per-compile serial number; they exist
//! only to express join constraints and must never survive into the final
//! schema of a compiled query.

use vstd::prelude::*;
use vstd::string::*;

verus! {

/// Spec-level form of a [`Keyword`]: a user name is its character sequence,
/// a synthetic name is its serial number.
pub enum KwV {
    User(Seq<char>),
    Synthetic(u64),
}

impl KwV {
    /// A synthetic keyword is internal bookkeeping: it names a join column
    /// that must be dropped from every externally visible schema.
    pub open spec fn is_synthetic(self) -> bool {
        self matches KwV::Synthetic(_)
    }
}

/// An interned name: a user-visible variable or attribute name, or a
/// compiler-allocated synthetic join key.
#[derive(Debug)]
pub enum Keyword {
    User(String),
    Synthetic(u64),
}

impl View for Keyword {
    type V = KwV;

    open spec fn view(&self) -> KwV {
        match self {
            Keyword::User(s) => KwV::User(s@),
            Keyword::Synthetic(n) => KwV::Synthetic(*n),
        }
    }
}

impl Keyword {
    /// Whether this keyword is a compiler-internal synthetic name.
    pub fn is_ignored_binding(&self) -> (r: bool)
        ensures
            r == self@.is_synthetic(),
    {
        match self {
            Keyword::Synthetic(_) => true,
            Keyword::User(_) => false,
        }
    }

    /// Structural copy.
    pub fn dup(&self) -> (r: Keyword)
        ensures
            r == *self,
    {
        match self {
            Keyword::User(s) => Keyword::User(s.clone()),
            Keyword::Synthetic(n) => Keyword::Synthetic(*n),
        }
    }
}

/// Equality of keywords, decided on the spec views.
pub fn kw_eq(a: &Keyword, b: &Keyword) -> (r: bool)
    ensures
        r == (a@ == b@),
{
    match (a, b) {
        (Keyword::User(x), Keyword::User(y)) => *x == *y,
        (Keyword::Synthetic(m), Keyword::Synthetic(n)) => m == n,
        _ => false,
    }
}

/// Whether the keyword list holds a keyword with the given view.
pub fn kw_list_contains(list: &Vec<Keyword>, k: &Keyword) -> (r: bool)
    ensures
        r == kw_views(list@).contains(k@),
{
    let mut i: usize = 0;
    while i < list.len()
        invariant
            i <= list@.len(),
            forall|j: int| 0 <= j < i ==> kw_views(list@)[j] != k@,
        decreases list@.len() - i,
    {
        if kw_eq(&list[i], k) {
            assert(kw_views(list@)[i as int] == k@);
            return true;
        }
        i += 1;
    }
    false
}

/// Allocator of synthetic names, scoped to one compile call: an explicit
/// counter, incremented per allocation, so that every allocated name is
/// unique within the call and recognizable as internal.
pub struct NameAllocator {
    pub serial: u64,
}

impl NameAllocator {
    /// A fresh allocator, starting at serial zero.
    pub fn new() -> (r: NameAllocator)
        ensures
            r.serial == 0,
    {
        NameAllocator { serial: 0 }
    }

    /// The next synthetic keyword.
    pub fn fresh(&mut self) -> (r: Keyword)
        requires
            old(self).serial < u64::MAX,
        ensures
            r@ == KwV::Synthetic(old(self).serial),
            final(self).serial == old(self).serial + 1,
    {
        let k = Keyword::Synthetic(self.serial);
        self.serial = self.serial + 1;
        k
    }
}

/// The views of a sequence of keywords.
pub open spec fn kw_views(s: Seq<Keyword>) -> Seq<KwV> {
    s.map_values(|k: Keyword| k@)
}

/// Whether a name written in a query denotes a variable: it starts with one
/// of the variable sigils.
pub open spec fn is_var_name(s: Seq<char>) -> bool {
    s.len() > 0 && (s[0] == '?' || s[0] == '_')
}

/// The fixed set of reserved words.  A reserved word may not stand as an
/// unquoted literal string in a clause; it must be written as an explicit
/// constant.
pub open spec fn is_reserved_name(s: Seq<char>) -> bool {
    s == "const"@ || s == "and"@ || s == "or"@ || s == "not"@
}

/// Executable test for the variable sigil.
pub fn str_is_var(s: &String) -> (r: bool)
    ensures
        r == is_var_name(s@),
{
    if s.as_str().unicode_len() == 0 {
        return false;
    }
    let c = s.as_str().get_char(0);
    c == '?' || c == '_'
}

/// Executable test for membership in the reserved vocabulary.
pub fn str_is_reserved(s: &String) -> (r: bool)
    ensures
        r == is_reserved_name(s@),
{
    *s == "const".to_owned() || *s == "and".to_owned() || *s == "or".to_owned() || *s
        == "not".to_owned()
}

} // verus!
