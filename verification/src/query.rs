//! Clause parsing and join-tree compilation.
//!
//! A query arrives as an ordered list of triple-pattern clauses.  Parsing
//! resolves each position into a free variable or a constant, consulting the
//! attribute catalog and the unique index.  Compilation then folds the
//! clause list, left to right, into one relation-algebra tree whose schema
//! holds exactly the user-visible variables, with every repeated variable
//! occurrence enforced as a join equality.

use vstd::prelude::*;
use crate::attr::{Attribute, AttrValueType, Indexing};
use crate::json::{coerce_spec, Json};
use crate::keyword::{
    is_reserved_name, is_var_name, kw_eq, kw_list_contains, kw_views, str_is_reserved, str_is_var,
    Keyword, KwV, NameAllocator,
};
use crate::relation::{
    keep_pred, not_in, rel_bindings, rel_vld_ok, InlineFixedRelation, InnerJoin, Joiner, Relation,
    TripleRelation,
};
use crate::seqs::{
    lemma_concat_contains, lemma_filter_all, lemma_filter_membership, lemma_filter_no_duplicates,
    lemma_map_values_push, lemma_no_dup_concat, lemma_push_contains,
};
use crate::transact::{find_attr, lemma_find_attr_keyword, lookup_unique, SessionTx};
use crate::value::{DataValue, EntityId, Validity};

verus! {

/// Why a clause was rejected.  The raw clause a rejection refers to is known
/// to the caller, who hands clauses in one at a time.
#[derive(Debug)]
pub enum QueryClauseError {
    /// The clause or an inner object does not have the required shape.
    MalformedShape,
    /// The named attribute is not in the catalog.
    AttrNotFound(Keyword),
    /// A unique-index lookup was attempted on an attribute that carries no
    /// unique index.
    NotUniqueIndex(Keyword),
    /// A reserved word stood as an unquoted literal string.
    UnquotedReserved(String),
    /// The value does not match the attribute's declared type.
    TypeCoercion(AttrValueType),
    /// Entity and value positions of one clause name the same variable.
    SelfReferential(Keyword),
}

/// A clause position: either a free variable or a constant of the position's
/// type.
#[derive(Debug)]
pub enum MaybeVariable<T> {
    Variable(Keyword),
    Const(T),
}

impl<T> MaybeVariable<T> {
    /// The variable bound at this position, if any.
    pub fn get_var(&self) -> (r: Option<&Keyword>)
        ensures
            match self {
                MaybeVariable::Variable(k) => r == Some(k),
                MaybeVariable::Const(_) => r is None,
            },
    {
        match self {
            MaybeVariable::Variable(k) => Some(k),
            MaybeVariable::Const(_) => None,
        }
    }

    /// The constant fixed at this position, if any.
    pub fn get_const(&self) -> (r: Option<&T>)
        ensures
            match self {
                MaybeVariable::Const(v) => r == Some(v),
                MaybeVariable::Variable(_) => r is None,
            },
    {
        match self {
            MaybeVariable::Const(v) => Some(v),
            MaybeVariable::Variable(_) => None,
        }
    }
}

/// One triple pattern: an attribute, and an entity and a value position.
#[derive(Debug)]
pub struct AttrTripleClause {
    pub attr: Attribute,
    pub entity: MaybeVariable<EntityId>,
    pub value: MaybeVariable<DataValue>,
}

/// A query clause.  Only attribute-triple patterns exist today; the sum type
/// leaves room for further clause kinds.
#[derive(Debug)]
pub enum Clause {
    AttrTriple(AttrTripleClause),
}

/// Outcome of reading an entity id out of a one-field lookup object
/// `{attribute-name: value}`: the attribute must exist and carry a unique
/// index, the value must coerce to its declared type, and a missed lookup
/// yields the sentinel `EntityId(0)`.
pub open spec fn spec_parse_eid_from_map(
    tx: SessionTx,
    m: Seq<(String, Json)>,
    vld: Validity,
) -> Result<EntityId, QueryClauseError> {
    if m.len() != 1 {
        Err(QueryClauseError::MalformedShape)
    } else {
        let kw = Keyword::User(m[0].0);
        match find_attr(tx.attributes@, kw@) {
            None => Err(QueryClauseError::AttrNotFound(kw)),
            Some(a) => if a.indexing != Indexing::Unique {
                Err(QueryClauseError::NotUniqueIndex(kw))
            } else {
                match coerce_spec(a.val_type, m[0].1) {
                    None => Err(QueryClauseError::TypeCoercion(a.val_type)),
                    Some(val) => Ok(
                        match lookup_unique(tx.unique_index@, kw@, val, vld) {
                            Some(e) => e,
                            None => EntityId(0),
                        },
                    ),
                }
            },
        }
    }
}

/// Outcome of reading an explicit constant out of a one-field object whose
/// single key must be exactly `const`.
pub open spec fn spec_parse_value_from_map(
    m: Seq<(String, Json)>,
    attr: Attribute,
) -> Result<DataValue, QueryClauseError> {
    if m.len() != 1 {
        Err(QueryClauseError::MalformedShape)
    } else if m[0].0@ != "const"@ {
        Err(QueryClauseError::MalformedShape)
    } else {
        match coerce_spec(attr.val_type, m[0].1) {
            None => Err(QueryClauseError::TypeCoercion(attr.val_type)),
            Some(v) => Ok(v),
        }
    }
}

/// Outcome of parsing the entity position of a clause.
pub open spec fn spec_parse_entity(tx: SessionTx, v: Json, vld: Validity) -> Result<
    MaybeVariable<EntityId>,
    QueryClauseError,
> {
    match v {
        Json::Str(s) => if is_var_name(s@) {
            Ok(MaybeVariable::Variable(Keyword::User(s)))
        } else if is_reserved_name(s@) {
            Err(QueryClauseError::UnquotedReserved(s))
        } else {
            Err(QueryClauseError::MalformedShape)
        },
        Json::UInt(n) => Ok(MaybeVariable::Const(EntityId(n))),
        Json::Obj(m) => match spec_parse_eid_from_map(tx, m@, vld) {
            Ok(e) => Ok(MaybeVariable::Const(e)),
            Err(e) => Err(e),
        },
        _ => Err(QueryClauseError::MalformedShape),
    }
}

/// Outcome of parsing the value position of a clause, given its attribute.
pub open spec fn spec_parse_value(
    tx: SessionTx,
    v: Json,
    attr: Attribute,
    vld: Validity,
) -> Result<MaybeVariable<DataValue>, QueryClauseError> {
    match v {
        Json::Str(s) => if is_var_name(s@) {
            Ok(MaybeVariable::Variable(Keyword::User(s)))
        } else if is_reserved_name(s@) {
            Err(QueryClauseError::UnquotedReserved(s))
        } else {
            spec_coerce_const(attr, v)
        },
        Json::Obj(m) => if attr.val_type == AttrValueType::Ref {
            match spec_parse_eid_from_map(tx, m@, vld) {
                Ok(e) => Ok(MaybeVariable::Const(DataValue::EnId(e))),
                Err(e) => Err(e),
            }
        } else {
            match spec_parse_value_from_map(m@, attr) {
                Ok(d) => Ok(MaybeVariable::Const(d)),
                Err(e) => Err(e),
            }
        },
        _ => spec_coerce_const(attr, v),
    }
}

/// A scalar in the value position coerces directly to the attribute's
/// declared type.
pub open spec fn spec_coerce_const(attr: Attribute, v: Json) -> Result<
    MaybeVariable<DataValue>,
    QueryClauseError,
> {
    match coerce_spec(attr.val_type, v) {
        Some(d) => Ok(MaybeVariable::Const(d)),
        None => Err(QueryClauseError::TypeCoercion(attr.val_type)),
    }
}

/// Outcome of parsing the attribute position: a plain name, resolved in the
/// catalog.
pub open spec fn spec_parse_attr(tx: SessionTx, v: Json) -> Result<Attribute, QueryClauseError> {
    match v {
        Json::Str(s) => match find_attr(tx.attributes@, KwV::User(s@)) {
            Some(a) => Ok(a),
            None => Err(QueryClauseError::AttrNotFound(Keyword::User(s))),
        },
        _ => Err(QueryClauseError::MalformedShape),
    }
}

/// Outcome of parsing one three-part clause: entity, then attribute, then
/// value; the first failure aborts the clause.
pub open spec fn spec_parse_triple_clause(
    tx: SessionTx,
    entity_rep: Json,
    attr_rep: Json,
    value_rep: Json,
    vld: Validity,
) -> Result<Clause, QueryClauseError> {
    match spec_parse_entity(tx, entity_rep, vld) {
        Err(e) => Err(e),
        Ok(entity) => match spec_parse_attr(tx, attr_rep) {
            Err(e) => Err(e),
            Ok(attr) => match spec_parse_value(tx, value_rep, attr, vld) {
                Err(e) => Err(e),
                Ok(value) => Ok(Clause::AttrTriple(AttrTripleClause { attr, entity, value })),
            },
        },
    }
}

/// Outcome of parsing one raw clause node, which must be a three-element
/// ordered group.
pub open spec fn spec_parse_clause(tx: SessionTx, v: Json, vld: Validity) -> Result<
    Clause,
    QueryClauseError,
> {
    match v {
        Json::Arr(els) => if els@.len() == 3 {
            spec_parse_triple_clause(tx, els@[0], els@[1], els@[2], vld)
        } else {
            Err(QueryClauseError::MalformedShape)
        },
        _ => Err(QueryClauseError::MalformedShape),
    }
}

impl SessionTx {
    /// Parse a whole query payload: an ordered list of clauses.  Parsing is
    /// atomic: the first clause that fails aborts the whole call with its
    /// error.
    pub fn parse_clauses(&mut self, payload: &Json, vld: Validity) -> (r: Result<
        Vec<Clause>,
        QueryClauseError,
    >)
        ensures
            *final(self) == *old(self),
            !(*payload matches Json::Arr(_)) ==> r matches Err(QueryClauseError::MalformedShape),
            *payload matches Json::Arr(els) ==> {
                &&& (r is Ok <==> forall|i: int|
                    0 <= i < els@.len() ==> #[trigger] spec_parse_clause(*old(self), els@[i], vld)
                        is Ok)
                &&& (r matches Ok(cs) ==> cs@.len() == els@.len() && forall|i: int|
                    0 <= i < els@.len() ==> #[trigger] spec_parse_clause(*old(self), els@[i], vld)
                        == Ok::<Clause, QueryClauseError>(cs@[i]))
                &&& (r matches Err(e) ==> exists|i: int|
                    0 <= i < els@.len() && #[trigger] spec_parse_clause(*old(self), els@[i], vld)
                        == Err::<Clause, QueryClauseError>(e) && forall|j: int|
                        0 <= j < i ==> spec_parse_clause(*old(self), els@[j], vld) is Ok)
            },
    {
        match payload {
            Json::Arr(els) => self.parse_clause_list(els, vld),
            _ => Err(QueryClauseError::MalformedShape),
        }
    }

    /// Parse each clause of the list in order, stopping at the first error.
    fn parse_clause_list(&self, els: &Vec<Json>, vld: Validity) -> (r: Result<
        Vec<Clause>,
        QueryClauseError,
    >)
        ensures
            r is Ok <==> forall|i: int|
                0 <= i < els@.len() ==> #[trigger] spec_parse_clause(*self, els@[i], vld) is Ok,
            r matches Ok(cs) ==> cs@.len() == els@.len() && forall|i: int|
                0 <= i < els@.len() ==> #[trigger] spec_parse_clause(*self, els@[i], vld)
                    == Ok::<Clause, QueryClauseError>(cs@[i]),
            r matches Err(e) ==> exists|i: int|
                0 <= i < els@.len() && #[trigger] spec_parse_clause(*self, els@[i], vld)
                    == Err::<Clause, QueryClauseError>(e) && forall|j: int|
                    0 <= j < i ==> spec_parse_clause(*self, els@[j], vld) is Ok,
    {
        let mut out: Vec<Clause> = Vec::new();
        let mut i: usize = 0;
        while i < els.len()
            invariant
                i <= els@.len(),
                out@.len() == i as int,
                forall|j: int|
                    0 <= j < i ==> #[trigger] spec_parse_clause(*self, els@[j], vld)
                        == Ok::<Clause, QueryClauseError>(out@[j]),
            decreases els@.len() - i,
        {
            match self.parse_clause(&els[i], vld) {
                Ok(c) => {
                    out.push(c);
                },
                Err(e) => {
                    return Err(e);
                },
            }
            i += 1;
        }
        Ok(out)
    }

    /// Parse one raw clause node.
    pub fn parse_clause(&self, payload: &Json, vld: Validity) -> (r: Result<
        Clause,
        QueryClauseError,
    >)
        ensures
            r == spec_parse_clause(*self, *payload, vld),
    {
        match payload {
            Json::Arr(els) => {
                if els.len() == 3 {
                    self.parse_triple_clause(&els[0], &els[1], &els[2], vld)
                } else {
                    Err(QueryClauseError::MalformedShape)
                }
            },
            _ => Err(QueryClauseError::MalformedShape),
        }
    }

    /// Parse the three positions of a triple clause.
    pub fn parse_triple_clause(
        &self,
        entity_rep: &Json,
        attr_rep: &Json,
        value_rep: &Json,
        vld: Validity,
    ) -> (r: Result<Clause, QueryClauseError>)
        ensures
            r == spec_parse_triple_clause(*self, *entity_rep, *attr_rep, *value_rep, vld),
    {
        let entity = match self.parse_triple_clause_entity(entity_rep, vld) {
            Ok(v) => v,
            Err(e) => {
                return Err(e);
            },
        };
        let attr = match self.parse_triple_clause_attr(attr_rep) {
            Ok(v) => v,
            Err(e) => {
                return Err(e);
            },
        };
        let value = match self.parse_triple_clause_value(value_rep, &attr, vld) {
            Ok(v) => v,
            Err(e) => {
                return Err(e);
            },
        };
        Ok(Clause::AttrTriple(AttrTripleClause { attr, entity, value }))
    }

    /// Read an entity id out of a one-field unique-index lookup object.
    pub fn parse_eid_from_map(&self, m: &Vec<(String, Json)>, vld: Validity) -> (r: Result<
        EntityId,
        QueryClauseError,
    >)
        ensures
            r == spec_parse_eid_from_map(*self, m@, vld),
    {
        if m.len() != 1 {
            return Err(QueryClauseError::MalformedShape);
        }
        let kw = Keyword::User(m[0].0.clone());
        let attr = match self.attr_by_kw(&kw) {
            Some(a) => a,
            None => {
                return Err(QueryClauseError::AttrNotFound(kw));
            },
        };
        if !attr.indexing.is_unique_index() {
            return Err(QueryClauseError::NotUniqueIndex(kw));
        }
        let value = match attr.val_type.coerce_value(&m[0].1) {
            Some(v) => v,
            None => {
                return Err(QueryClauseError::TypeCoercion(attr.val_type));
            },
        };
        proof {
            lemma_find_attr_keyword(self.attributes@, kw@);
        }
        match self.eid_by_unique_av(attr, &value, vld) {
            Some(e) => Ok(e),
            None => Ok(EntityId(0)),
        }
    }

    /// Read an explicit constant out of a one-field `const` object.
    pub fn parse_value_from_map(&self, m: &Vec<(String, Json)>, attr: &Attribute) -> (r: Result<
        DataValue,
        QueryClauseError,
    >)
        ensures
            r == spec_parse_value_from_map(m@, *attr),
    {
        if m.len() != 1 {
            return Err(QueryClauseError::MalformedShape);
        }
        if !(m[0].0 == "const".to_owned()) {
            return Err(QueryClauseError::MalformedShape);
        }
        match attr.val_type.coerce_value(&m[0].1) {
            Some(v) => Ok(v),
            None => Err(QueryClauseError::TypeCoercion(attr.val_type)),
        }
    }

    /// Parse the value position of a clause.
    pub fn parse_triple_clause_value(
        &self,
        value_rep: &Json,
        attr: &Attribute,
        vld: Validity,
    ) -> (r: Result<MaybeVariable<DataValue>, QueryClauseError>)
        ensures
            r == spec_parse_value(*self, *value_rep, *attr, vld),
    {
        if let Json::Str(s) = value_rep {
            if str_is_var(s) {
                return Ok(MaybeVariable::Variable(Keyword::User(s.clone())));
            }
            if str_is_reserved(s) {
                return Err(QueryClauseError::UnquotedReserved(s.clone()));
            }
        }
        if let Json::Obj(m) = value_rep {
            if attr.val_type.is_ref_type() {
                return match self.parse_eid_from_map(m, vld) {
                    Ok(e) => Ok(MaybeVariable::Const(DataValue::EnId(e))),
                    Err(e) => Err(e),
                };
            }
            return match self.parse_value_from_map(m, attr) {
                Ok(d) => Ok(MaybeVariable::Const(d)),
                Err(e) => Err(e),
            };
        }
        match attr.val_type.coerce_value(value_rep) {
            Some(d) => Ok(MaybeVariable::Const(d)),
            None => Err(QueryClauseError::TypeCoercion(attr.val_type)),
        }
    }

    /// Parse the entity position of a clause.
    pub fn parse_triple_clause_entity(&self, entity_rep: &Json, vld: Validity) -> (r: Result<
        MaybeVariable<EntityId>,
        QueryClauseError,
    >)
        ensures
            r == spec_parse_entity(*self, *entity_rep, vld),
    {
        match entity_rep {
            Json::Str(s) => {
                if str_is_var(s) {
                    Ok(MaybeVariable::Variable(Keyword::User(s.clone())))
                } else if str_is_reserved(s) {
                    Err(QueryClauseError::UnquotedReserved(s.clone()))
                } else {
                    Err(QueryClauseError::MalformedShape)
                }
            },
            Json::UInt(n) => Ok(MaybeVariable::Const(EntityId(*n))),
            Json::Obj(m) => match self.parse_eid_from_map(m, vld) {
                Ok(e) => Ok(MaybeVariable::Const(e)),
                Err(e) => Err(e),
            },
            _ => Err(QueryClauseError::MalformedShape),
        }
    }

    /// Parse the attribute position of a clause: a plain attribute name.
    pub fn parse_triple_clause_attr(&self, attr_rep: &Json) -> (r: Result<
        Attribute,
        QueryClauseError,
    >)
        ensures
            r == spec_parse_attr(*self, *attr_rep),
    {
        match attr_rep {
            Json::Str(s) => {
                let kw = Keyword::User(s.clone());
                match self.attr_by_kw(&kw) {
                    Some(a) => Ok(a.dup()),
                    None => Err(QueryClauseError::AttrNotFound(kw)),
                }
            },
            _ => Err(QueryClauseError::MalformedShape),
        }
    }
}

/// The variable bound at a clause position, if the position is free.
pub open spec fn mv_var<T>(m: MaybeVariable<T>) -> Option<KwV> {
    match m {
        MaybeVariable::Variable(k) => Some(k@),
        MaybeVariable::Const(_) => None,
    }
}

/// The set of variables one clause mentions.
pub open spec fn clause_vars(c: Clause) -> Set<KwV> {
    match c {
        Clause::AttrTriple(t) => {
            let e = match mv_var(t.entity) {
                Some(k) => set![k],
                None => Set::empty(),
            };
            let v = match mv_var(t.value) {
                Some(k) => set![k],
                None => Set::empty(),
            };
            e.union(v)
        },
    }
}

/// The set of variables the first `n` clauses mention.
pub open spec fn clauses_vars_upto(cs: Seq<Clause>, n: int) -> Set<KwV>
    decreases n,
{
    if n <= 0 {
        Set::empty()
    } else {
        clauses_vars_upto(cs, n - 1).union(clause_vars(cs[n - 1]))
    }
}

/// The set of distinct variables the whole clause list mentions.
pub open spec fn clauses_vars(cs: Seq<Clause>) -> Set<KwV> {
    clauses_vars_upto(cs, cs.len() as int)
}

/// Whether entity and value positions of the clause name the same variable.
pub open spec fn clause_self_ref(c: Clause) -> bool {
    match c {
        Clause::AttrTriple(t) => match (t.entity, t.value) {
            (MaybeVariable::Variable(e), MaybeVariable::Variable(v)) => e@ == v@,
            _ => false,
        },
    }
}

/// Well-formedness of a parsed clause: its variables are user names, never
/// compiler-internal synthetic names.
pub open spec fn clause_wf(c: Clause) -> bool {
    match c {
        Clause::AttrTriple(t) => {
            &&& match t.entity {
                MaybeVariable::Variable(k) => k@ matches KwV::User(_),
                MaybeVariable::Const(_) => true,
            }
            &&& match t.value {
                MaybeVariable::Variable(k) => k@ matches KwV::User(_),
                MaybeVariable::Const(_) => true,
            }
        },
    }
}

/// A synthetic name's serial is below the bound; user names are unconstrained.
pub open spec fn syn_bound(x: KwV, s: u64) -> bool {
    match x {
        KwV::Synthetic(n) => n < s,
        KwV::User(_) => true,
    }
}

/// The running compiler state is consistent: the schema of the tree built so
/// far has no duplicate bindings, its synthetic bindings were allocated
/// below the current serial, and its user bindings are exactly the variables
/// seen so far.
pub open spec fn compile_inv(b: Seq<KwV>, seen: Seq<KwV>, serial: u64) -> bool {
    &&& b.no_duplicates()
    &&& forall|x: KwV| b.contains(x) ==> syn_bound(x, serial)
    &&& forall|x: KwV| b.contains(x) && !x.is_synthetic() ==> seen.contains(x)
    &&& forall|x: KwV| seen.contains(x) ==> !x.is_synthetic() && b.contains(x)
}

/// All variables of a well-formed clause prefix are user names.
proof fn lemma_clauses_vars_user(cs: Seq<Clause>, n: int)
    requires
        forall|i: int| 0 <= i < n ==> clause_wf(#[trigger] cs[i]),
        n <= cs.len(),
    ensures
        forall|x: KwV| clauses_vars_upto(cs, n).contains(x) ==> !x.is_synthetic(),
    decreases n,
{
    if n > 0 {
        lemma_clauses_vars_user(cs, n - 1);
        assert(clause_wf(cs[n - 1]));
    }
}

/// Extending the schema by fresh bindings keeps the compiler state
/// consistent: the new bindings are distinct among themselves, their
/// synthetic names are fresh (at or above the old serial, below the new),
/// and their user names are exactly the newly seen variables.
proof fn lemma_extend_inv(
    b_old: Seq<KwV>,
    n: Seq<KwV>,
    seen_old: Seq<KwV>,
    seen_new: Seq<KwV>,
    s_old: u64,
    s_new: u64,
)
    requires
        compile_inv(b_old, seen_old, s_old),
        s_old <= s_new,
        n.no_duplicates(),
        forall|x: KwV| n.contains(x) ==> syn_bound(x, s_new),
        forall|x: KwV| n.contains(x) && x.is_synthetic() ==> !syn_bound(x, s_old),
        forall|x: KwV| n.contains(x) && !x.is_synthetic() ==> !seen_old.contains(x),
        forall|x: KwV|
            #[trigger] seen_new.contains(x) ==> seen_old.contains(x) || (n.contains(x)
                && !x.is_synthetic()),
        forall|x: KwV| #[trigger] seen_old.contains(x) ==> seen_new.contains(x),
        forall|x: KwV| n.contains(x) && !x.is_synthetic() ==> seen_new.contains(x),
    ensures
        compile_inv(b_old + n, seen_new, s_new),
{
    assert forall|x: KwV| b_old.contains(x) implies !n.contains(x) by {
        if n.contains(x) {
            if x.is_synthetic() {
                assert(syn_bound(x, s_old));
            } else {
                assert(seen_old.contains(x));
            }
        }
    }
    lemma_no_dup_concat(b_old, n);
    assert forall|x: KwV| (b_old + n).contains(x) implies syn_bound(x, s_new) by {
        lemma_concat_contains(b_old, n, x);
        if b_old.contains(x) {
            assert(syn_bound(x, s_old));
        }
    }
    assert forall|x: KwV| (b_old + n).contains(x) && !x.is_synthetic() implies seen_new.contains(
        x,
    ) by {
        lemma_concat_contains(b_old, n, x);
    }
    assert forall|x: KwV| seen_new.contains(x) implies !x.is_synthetic() && (b_old + n).contains(
        x,
    ) by {
        lemma_concat_contains(b_old, n, x);
    }
}

/// A one-row inline relation with one bound column.
fn make_fixed1(b: Keyword, d: DataValue) -> (r: Relation)
    ensures
        rel_bindings(r) == seq![b@],
        forall|v: Validity| #[trigger] rel_vld_ok(r, v),
{
    let ghost bv = b@;
    let mut bindings: Vec<Keyword> = Vec::new();
    bindings.push(b);
    let mut row: Vec<DataValue> = Vec::new();
    row.push(d);
    let mut data: Vec<Vec<DataValue>> = Vec::new();
    data.push(row);
    proof {
        assert(kw_views(bindings@) =~= seq![bv]);
    }
    let rel = Relation::Fixed(
        InlineFixedRelation { bindings, data, to_eliminate: Vec::new() },
    );
    proof {
        lemma_fixed_bindings(rel, seq![bv]);
    }
    rel
}

/// A one-row inline relation with two bound columns.
fn make_fixed2(b1: Keyword, b2: Keyword, d1: DataValue, d2: DataValue) -> (r: Relation)
    ensures
        rel_bindings(r) == seq![b1@, b2@],
        forall|v: Validity| #[trigger] rel_vld_ok(r, v),
{
    let ghost bv = seq![b1@, b2@];
    let mut bindings: Vec<Keyword> = Vec::new();
    bindings.push(b1);
    bindings.push(b2);
    let mut row: Vec<DataValue> = Vec::new();
    row.push(d1);
    row.push(d2);
    let mut data: Vec<Vec<DataValue>> = Vec::new();
    data.push(row);
    proof {
        assert(kw_views(bindings@) =~= bv);
    }
    let rel = Relation::Fixed(
        InlineFixedRelation { bindings, data, to_eliminate: Vec::new() },
    );
    proof {
        lemma_fixed_bindings(rel, bv);
    }
    rel
}

/// A fixed relation with an empty elimination list shows all its bindings.
proof fn lemma_fixed_bindings(r: Relation, bv: Seq<KwV>)
    requires
        r matches Relation::Fixed(f) && kw_views(f.bindings@) == bv && f.to_eliminate@.len() == 0,
    ensures
        rel_bindings(r) == bv,
{
    if let Relation::Fixed(f) = r {
        assert(kw_views(f.to_eliminate@) =~= Seq::<KwV>::empty());
        assert forall|x: KwV| bv.contains(x) implies #[trigger] not_in(
            kw_views(f.to_eliminate@),
        )(x) by {}
        lemma_filter_all(bv, not_in(kw_views(f.to_eliminate@)));
    }
}

/// An indexed triple scan for one attribute at one validity.
fn make_triple(attr: Attribute, vld: Validity, b0: Keyword, b1: Keyword) -> (r: Relation)
    ensures
        rel_bindings(r) == seq![b0@, b1@],
        forall|v: Validity| #[trigger] rel_vld_ok(r, v) == (v == vld),
{
    Relation::Triple(TripleRelation { attr, vld, bindings: (b0, b1) })
}

/// Join `right` onto `ret` with the given key lists; a unit `ret` is simply
/// replaced, since it constrains nothing.
fn join_or_replace(
    ret: Relation,
    right: Relation,
    left_keys: Vec<Keyword>,
    right_keys: Vec<Keyword>,
) -> (r: Relation)
    ensures
        rel_bindings(r) == rel_bindings(ret) + rel_bindings(right),
        r is Join || r == right,
        forall|v: Validity| #[trigger]
            rel_vld_ok(r, v) == (rel_vld_ok(ret, v) && rel_vld_ok(right, v)),
{
    if ret.is_unit() {
        proof {
            assert(rel_bindings(ret) + rel_bindings(right) =~= rel_bindings(right));
        }
        right
    } else {
        let rel = Relation::Join(
            Box::new(
                InnerJoin {
                    left: ret,
                    right,
                    joiner: Joiner { left_keys, right_keys },
                    to_eliminate: Vec::new(),
                },
            ),
        );
        proof {
            if let Relation::Join(j) = &rel {
                let all = rel_bindings(j.left) + rel_bindings(j.right);
                assert(kw_views(j.to_eliminate@) =~= Seq::<KwV>::empty());
                assert forall|x: KwV| all.contains(x) implies #[trigger] not_in(
                    kw_views(j.to_eliminate@),
                )(x) by {}
                lemma_filter_all(all, not_in(kw_views(j.to_eliminate@)));
            }
        }
        rel
    }
}

/// Cross product: join with no keys.
fn cross_in(ret: Relation, rel: Relation) -> (r: Relation)
    ensures
        rel_bindings(r) == rel_bindings(ret) + rel_bindings(rel),
        forall|v: Validity| #[trigger]
            rel_vld_ok(r, v) == (rel_vld_ok(ret, v) && rel_vld_ok(rel, v)),
{
    join_or_replace(ret, rel, Vec::new(), Vec::new())
}

/// The first-occurrence-versus-repeat rule for one variable position: a
/// variable seen for the first time becomes its own defining binding; a
/// repeated variable gets a fresh synthetic binding plus one join-equality
/// pair against its defining occurrence, so no duplicate column arises.
fn resolve_var(
    kw: Keyword,
    seen: &mut Vec<Keyword>,
    alloc: &mut NameAllocator,
    jlk: &mut Vec<Keyword>,
    jrk: &mut Vec<Keyword>,
) -> (bind: Keyword)
    requires
        old(alloc).serial < u64::MAX,
    ensures
        kw_views(old(seen)@).contains(kw@) ==> {
            &&& bind@ == KwV::Synthetic(old(alloc).serial)
            &&& final(alloc).serial == old(alloc).serial + 1
            &&& final(seen)@ == old(seen)@
            &&& final(jlk)@ == old(jlk)@.push(kw)
            &&& final(jrk)@ == old(jrk)@.push(bind)
        },
        !kw_views(old(seen)@).contains(kw@) ==> {
            &&& bind == kw
            &&& final(alloc).serial == old(alloc).serial
            &&& final(seen)@ == old(seen)@.push(kw)
            &&& final(jlk)@ == old(jlk)@
            &&& final(jrk)@ == old(jrk)@
        },
{
    if kw_list_contains(seen, &kw) {
        let r = alloc.fresh();
        let r2 = r.dup();
        jlk.push(kw);
        jrk.push(r2);
        r
    } else {
        let k2 = kw.dup();
        seen.push(k2);
        kw
    }
}

/// Every clause the parser accepts is well-formed: its variables are user
/// names, so it meets the compiler's expectation.
pub proof fn lemma_parsed_clause_wf(tx: SessionTx, v: Json, vld: Validity)
    ensures
        spec_parse_clause(tx, v, vld) matches Ok(c) ==> clause_wf(c),
{
    if let Json::Arr(els) = v {
        if els@.len() == 3 {
            match spec_parse_entity(tx, els@[0], vld) {
                Ok(ent) => {
                    assert(match ent {
                        MaybeVariable::Variable(k) => k@ matches KwV::User(_),
                        MaybeVariable::Const(_) => true,
                    });
                    match spec_parse_attr(tx, els@[1]) {
                        Ok(a) => {
                            match spec_parse_value(tx, els@[2], a, vld) {
                                Ok(val) => {
                                    assert(match val {
                                        MaybeVariable::Variable(k) => k@ matches KwV::User(_),
                                        MaybeVariable::Const(_) => true,
                                    });
                                },
                                Err(_) => {},
                            }
                        },
                        Err(_) => {},
                    }
                },
                Err(_) => {},
            }
        }
    }
}

impl SessionTx {
    /// Compile the parsed clause list into one relation tree at validity
    /// `vld`.
    ///
    /// The returned relation's schema holds exactly the user-visible
    /// variables the clauses mention, each exactly once and none of them
    /// synthetic, and every triple scan in the tree reads at `vld`.  The
    /// only rejected input is a clause whose entity and value positions name
    /// the same variable, which fails with the self-referential error.
    pub fn compile_clauses(&mut self, clauses: Vec<Clause>, vld: Validity) -> (res: Result<
        Relation,
        QueryClauseError,
    >)
        requires
            forall|i: int| 0 <= i < clauses@.len() ==> clause_wf(#[trigger] clauses@[i]),
            4 * clauses@.len() <= u64::MAX,
        ensures
            *final(self) == *old(self),
            res is Ok <==> forall|i: int|
                0 <= i < clauses@.len() ==> !clause_self_ref(#[trigger] clauses@[i]),
            res matches Err(e) ==> exists|i: int|
                {
                    &&& 0 <= i < clauses@.len()
                    &&& clause_self_ref(#[trigger] clauses@[i])
                    &&& forall|j: int| 0 <= j < i ==> !clause_self_ref(#[trigger] clauses@[j])
                    &&& clauses@[i] matches Clause::AttrTriple(t)
                    &&& t.entity matches MaybeVariable::Variable(ek)
                    &&& e == QueryClauseError::SelfReferential(ek)
                },
            res matches Ok(rel) ==> {
                &&& rel_bindings(rel).no_duplicates()
                &&& forall|j: int|
                    0 <= j < rel_bindings(rel).len() ==> !(#[trigger] rel_bindings(
                        rel,
                    )[j]).is_synthetic()
                &&& forall|x: KwV|
                    #[trigger] rel_bindings(rel).contains(x) <==> clauses_vars(
                        clauses@,
                    ).contains(x)
                &&& rel_vld_ok(rel, vld)
            },
    {
        let mut ret = Relation::unit();
        let mut seen_variables: Vec<Keyword> = Vec::new();
        let mut alloc = NameAllocator::new();
        let mut ci: usize = 0;
        proof {
            assert(rel_bindings(ret) =~= Seq::<KwV>::empty());
        }
        while ci < clauses.len()
            invariant
                *self == *old(self),
                ci <= clauses@.len(),
                forall|i: int| 0 <= i < clauses@.len() ==> clause_wf(#[trigger] clauses@[i]),
                4 * clauses@.len() <= u64::MAX,
                alloc.serial as int <= 4 * ci as int,
                compile_inv(rel_bindings(ret), kw_views(seen_variables@), alloc.serial),
                forall|x: KwV|
                    kw_views(seen_variables@).contains(x) <==> clauses_vars_upto(
                        clauses@,
                        ci as int,
                    ).contains(x),
                rel_vld_ok(ret, vld),
                forall|j: int| 0 <= j < ci ==> !clause_self_ref(#[trigger] clauses@[j]),
            decreases clauses@.len() - ci,
        {
            let ghost b0 = rel_bindings(ret);
            let ghost seen0 = kw_views(seen_variables@);
            let ghost s0 = alloc.serial;
            match &clauses[ci] {
                Clause::AttrTriple(t) => {
                    proof {
                        assert(clauses@[ci as int] == Clause::AttrTriple(*t));
                        assert(clause_wf(clauses@[ci as int]));
                    }
                    match (&t.entity, &t.value) {
                        (MaybeVariable::Const(eid), MaybeVariable::Variable(v_kw)) => {
                            let tjl = alloc.fresh();
                            let tjr = alloc.fresh();
                            let const_rel = make_fixed1(tjl.dup(), DataValue::EnId(*eid));
                            ret = cross_in(ret, const_rel);
                            let mut jlk: Vec<Keyword> = Vec::new();
                            jlk.push(tjl);
                            let mut jrk: Vec<Keyword> = Vec::new();
                            jrk.push(tjr.dup());
                            let ghost sv0 = seen_variables@;
                            let bind = resolve_var(
                                v_kw.dup(),
                                &mut seen_variables,
                                &mut alloc,
                                &mut jlk,
                                &mut jrk,
                            );
                            let ghost bind_v = bind@;
                            let right = make_triple(t.attr.dup(), vld, tjr, bind);
                            ret = join_or_replace(ret, right, jlk, jrk);
                            proof {
                                let n = seq![
                                    KwV::Synthetic(s0),
                                    KwV::Synthetic((s0 + 1) as u64),
                                    bind_v,
                                ];
                                assert(rel_bindings(ret) =~= b0 + n);
                                if !seen0.contains(v_kw@) {
                                    lemma_map_values_push(sv0, *v_kw, |k: Keyword| k@);
                                    assert(kw_views(seen_variables@) == seen0.push(v_kw@));
                                }
                                lemma_one_var_step(
                                    b0,
                                    n,
                                    seen0,
                                    kw_views(seen_variables@),
                                    s0,
                                    alloc.serial,
                                    v_kw@,
                                    bind_v,
                                    2,
                                    0,
                                    1,
                                );
                                lemma_vars_step(
                                    clauses@,
                                    ci as int,
                                    seen0,
                                    kw_views(seen_variables@),
                                );
                            }
                        },
                        (MaybeVariable::Variable(e_kw), MaybeVariable::Const(val)) => {
                            let tjl = alloc.fresh();
                            let tjr = alloc.fresh();
                            let const_rel = make_fixed1(tjl.dup(), val.dup());
                            ret = cross_in(ret, const_rel);
                            let mut jlk: Vec<Keyword> = Vec::new();
                            jlk.push(tjl);
                            let mut jrk: Vec<Keyword> = Vec::new();
                            jrk.push(tjr.dup());
                            let ghost sv0 = seen_variables@;
                            let bind = resolve_var(
                                e_kw.dup(),
                                &mut seen_variables,
                                &mut alloc,
                                &mut jlk,
                                &mut jrk,
                            );
                            let ghost bind_v = bind@;
                            let right = make_triple(t.attr.dup(), vld, bind, tjr);
                            ret = join_or_replace(ret, right, jlk, jrk);
                            proof {
                                let n = seq![
                                    KwV::Synthetic(s0),
                                    bind_v,
                                    KwV::Synthetic((s0 + 1) as u64),
                                ];
                                assert(rel_bindings(ret) =~= b0 + n);
                                if !seen0.contains(e_kw@) {
                                    lemma_map_values_push(sv0, *e_kw, |k: Keyword| k@);
                                    assert(kw_views(seen_variables@) == seen0.push(e_kw@));
                                }
                                lemma_one_var_step(
                                    b0,
                                    n,
                                    seen0,
                                    kw_views(seen_variables@),
                                    s0,
                                    alloc.serial,
                                    e_kw@,
                                    bind_v,
                                    1,
                                    0,
                                    2,
                                );
                                lemma_vars_step(
                                    clauses@,
                                    ci as int,
                                    seen0,
                                    kw_views(seen_variables@),
                                );
                            }
                        },
                        (MaybeVariable::Variable(e_kw), MaybeVariable::Variable(v_kw)) => {
                            if kw_eq(e_kw, v_kw) {
                                proof {
                                    assert(clause_self_ref(clauses@[ci as int]));
                                }
                                return Err(QueryClauseError::SelfReferential(e_kw.dup()));
                            }
                            let mut jlk: Vec<Keyword> = Vec::new();
                            let mut jrk: Vec<Keyword> = Vec::new();
                            let ghost sv0 = seen_variables@;
                            let e_bind = resolve_var(
                                e_kw.dup(),
                                &mut seen_variables,
                                &mut alloc,
                                &mut jlk,
                                &mut jrk,
                            );
                            let ghost e_bind_v = e_bind@;
                            let ghost sv_mid = seen_variables@;
                            let ghost s_mid = alloc.serial;
                            let v_bind = resolve_var(
                                v_kw.dup(),
                                &mut seen_variables,
                                &mut alloc,
                                &mut jlk,
                                &mut jrk,
                            );
                            let ghost v_bind_v = v_bind@;
                            let right = make_triple(t.attr.dup(), vld, e_bind, v_bind);
                            ret = join_or_replace(ret, right, jlk, jrk);
                            proof {
                                let n = seq![e_bind_v, v_bind_v];
                                assert(rel_bindings(ret) =~= b0 + n);
                                if !seen0.contains(e_kw@) {
                                    lemma_map_values_push(sv0, *e_kw, |k: Keyword| k@);
                                    assert(kw_views(sv_mid) == seen0.push(e_kw@));
                                }
                                if !kw_views(sv_mid).contains(v_kw@) {
                                    lemma_map_values_push(sv_mid, *v_kw, |k: Keyword| k@);
                                    assert(kw_views(seen_variables@) == kw_views(sv_mid).push(
                                        v_kw@,
                                    ));
                                }
                                lemma_two_var_step(
                                    b0,
                                    n,
                                    seen0,
                                    kw_views(sv_mid),
                                    kw_views(seen_variables@),
                                    s0,
                                    s_mid,
                                    alloc.serial,
                                    e_kw@,
                                    v_kw@,
                                    e_bind_v,
                                    v_bind_v,
                                );
                                lemma_vars_step(
                                    clauses@,
                                    ci as int,
                                    seen0,
                                    kw_views(seen_variables@),
                                );
                            }
                        },
                        (MaybeVariable::Const(eid), MaybeVariable::Const(val)) => {
                            let lv1 = alloc.fresh();
                            let lv2 = alloc.fresh();
                            let const_rel = make_fixed2(
                                lv1.dup(),
                                lv2.dup(),
                                DataValue::EnId(*eid),
                                val.dup(),
                            );
                            ret = cross_in(ret, const_rel);
                            let rv1 = alloc.fresh();
                            let rv2 = alloc.fresh();
                            let right = make_triple(t.attr.dup(), vld, rv1.dup(), rv2.dup());
                            let mut jlk: Vec<Keyword> = Vec::new();
                            jlk.push(lv1);
                            jlk.push(lv2);
                            let mut jrk: Vec<Keyword> = Vec::new();
                            jrk.push(rv1);
                            jrk.push(rv2);
                            ret = join_or_replace(ret, right, jlk, jrk);
                            proof {
                                let n = seq![
                                    KwV::Synthetic(s0),
                                    KwV::Synthetic((s0 + 1) as u64),
                                    KwV::Synthetic((s0 + 2) as u64),
                                    KwV::Synthetic((s0 + 3) as u64),
                                ];
                                assert(rel_bindings(ret) =~= b0 + n);
                                lemma_all_syn_step(b0, n, seen0, s0, alloc.serial);
                                lemma_vars_step(
                                    clauses@,
                                    ci as int,
                                    seen0,
                                    kw_views(seen_variables@),
                                );
                            }
                        },
                    }
                },
            }
            ci += 1;
        }
        proof {
            lemma_clauses_vars_user(clauses@, clauses@.len() as int);
        }
        let ghost b_pre = rel_bindings(ret);
        let ghost was_triple = ret is Triple;
        let ghost seen_v = kw_views(seen_variables@);
        let ghost serial_v = alloc.serial;
        ret.eliminate_temp_vars();
        proof {
            if !was_triple {
                lemma_inv_after_filter(b_pre, seen_v, serial_v);
            }
        }
        if ret.has_ignored_binding() {
            let ghost b_mid = rel_bindings(ret);
            let u = Relation::unit();
            ret = join_or_replace(ret, u, Vec::new(), Vec::new());
            proof {
                assert(rel_bindings(ret) =~= b_mid);
            }
            ret.eliminate_temp_vars();
            proof {
                lemma_final_schema(b_mid, rel_bindings(ret), seen_v, serial_v);
            }
        } else {
            proof {
                let b_now = rel_bindings(ret);
                assert forall|x: KwV| #[trigger] b_now.contains(x) implies !x.is_synthetic() by {
                    let i = choose|i: int| 0 <= i < b_now.len() && b_now[i] == x;
                }
            }
        }
        proof {
            let f = rel_bindings(ret);
            assert forall|j: int| 0 <= j < f.len() implies !(#[trigger] f[j]).is_synthetic() by {
                assert(f.contains(f[j]));
            }
            assert forall|x: KwV| #[trigger] f.contains(x) <==> clauses_vars(
                clauses@,
            ).contains(x) by {
                if f.contains(x) {
                    assert(seen_v.contains(x));
                }
                if clauses_vars(clauses@).contains(x) {
                    assert(seen_v.contains(x));
                    assert(!x.is_synthetic());
                }
            }
        }
        Ok(ret)
    }
}

/// The compiler invariant survives filtering the schema down to user
/// bindings: only synthetic bindings go.
proof fn lemma_inv_after_filter(b: Seq<KwV>, seen: Seq<KwV>, serial: u64)
    requires
        compile_inv(b, seen, serial),
    ensures
        compile_inv(b.filter(keep_pred(Seq::<KwV>::empty())), seen, serial),
        forall|x: KwV|
            #[trigger] b.filter(keep_pred(Seq::<KwV>::empty())).contains(x) <==> b.contains(x)
                && !x.is_synthetic(),
{
    let f = b.filter(keep_pred(Seq::<KwV>::empty()));
    lemma_filter_no_duplicates(b, keep_pred(Seq::<KwV>::empty()));
    assert forall|x: KwV| #[trigger] f.contains(x) <==> b.contains(x) && !x.is_synthetic() by {
        lemma_filter_membership(b, keep_pred(Seq::<KwV>::empty()), x);
    }
}

/// The schema that remains after eliminating at a root that can eliminate,
/// given a schema satisfying the compiler invariant: exactly the user
/// bindings.
proof fn lemma_final_schema(b: Seq<KwV>, f: Seq<KwV>, seen: Seq<KwV>, serial: u64)
    requires
        compile_inv(b, seen, serial),
        f == b.filter(keep_pred(Seq::<KwV>::empty())),
    ensures
        f.no_duplicates(),
        forall|x: KwV| #[trigger] f.contains(x) <==> b.contains(x) && !x.is_synthetic(),
{
    lemma_filter_no_duplicates(b, keep_pred(Seq::<KwV>::empty()));
    assert forall|x: KwV| #[trigger] f.contains(x) <==> b.contains(x) && !x.is_synthetic() by {
        lemma_filter_membership(b, keep_pred(Seq::<KwV>::empty()), x);
    }
}

/// Invariant step for a clause whose both positions are constants: four
/// fresh synthetic bindings extend the schema, and no variable is seen.
proof fn lemma_all_syn_step(b0: Seq<KwV>, n: Seq<KwV>, seen: Seq<KwV>, s0: u64, s1: u64)
    requires
        compile_inv(b0, seen, s0),
        s0 + 4 == s1,
        n == seq![
            KwV::Synthetic(s0),
            KwV::Synthetic((s0 + 1) as u64),
            KwV::Synthetic((s0 + 2) as u64),
            KwV::Synthetic((s0 + 3) as u64),
        ],
    ensures
        compile_inv(b0 + n, seen, s1),
{
    assert forall|x: KwV| n.contains(x) implies x.is_synthetic() && !syn_bound(x, s0)
        && syn_bound(x, s1) by {
        let i = choose|i: int| 0 <= i < n.len() && n[i] == x;
        assert(i == 0 || i == 1 || i == 2 || i == 3);
    }
    assert forall|i: int, j: int|
        0 <= i < n.len() && 0 <= j < n.len() && i != j implies n[i] != n[j] by {
        assert(i == 0 || i == 1 || i == 2 || i == 3);
        assert(j == 0 || j == 1 || j == 2 || j == 3);
    }
    assert forall|x: KwV| n.contains(x) && !x.is_synthetic() implies seen.contains(x) by {}
    lemma_extend_inv(b0, n, seen, seen, s0, s1);
}

/// Invariant step for a clause with exactly one variable position: two
/// fresh synthetic bindings plus the variable's binding extend the schema.
/// `m` is the position of the variable's binding in `n`; `p` and `q` hold
/// the two synthetic join keys.
proof fn lemma_one_var_step(
    b0: Seq<KwV>,
    n: Seq<KwV>,
    seen0: Seq<KwV>,
    seen1: Seq<KwV>,
    s0: u64,
    s1: u64,
    kw: KwV,
    bind: KwV,
    m: int,
    p: int,
    q: int,
)
    requires
        compile_inv(b0, seen0, s0),
        !kw.is_synthetic(),
        n.len() == 3,
        0 <= m < 3 && 0 <= p < 3 && 0 <= q < 3 && m != p && m != q && p != q,
        s0 + 3 <= u64::MAX,
        n[m] == bind,
        n[p] == KwV::Synthetic(s0),
        n[q] == KwV::Synthetic((s0 + 1) as u64),
        seen0.contains(kw) ==> bind == KwV::Synthetic((s0 + 2) as u64) && s1 == s0 + 3 && seen1
            == seen0,
        !seen0.contains(kw) ==> bind == kw && s1 == s0 + 2 && seen1 == seen0.push(kw),
    ensures
        compile_inv(b0 + n, seen1, s1),
        forall|x: KwV| seen1.contains(x) <==> seen0.contains(x) || x == kw,
{
    assert forall|x: KwV| n.contains(x) implies (x == n[m] || x == n[p] || x == n[q]) by {
        let i = choose|i: int| 0 <= i < n.len() && n[i] == x;
        assert(i == m || i == p || i == q);
    }
    assert forall|i: int, j: int|
        0 <= i < n.len() && 0 <= j < n.len() && i != j implies n[i] != n[j] by {
        assert(i == m || i == p || i == q);
        assert(j == m || j == p || j == q);
    }
    assert forall|x: KwV| n.contains(x) implies syn_bound(x, s1) && (x.is_synthetic()
        ==> !syn_bound(x, s0)) && (!x.is_synthetic() ==> x == kw && !seen0.contains(x)) by {}
    assert forall|x: KwV| #[trigger] seen1.contains(x) implies seen0.contains(x) || (n.contains(
        x,
    ) && !x.is_synthetic()) by {
        if !seen0.contains(kw) {
            lemma_push_contains(seen0, kw, x);
            if x == kw {
                assert(n.contains(n[m]));
            }
        }
    }
    assert forall|x: KwV| #[trigger] seen0.contains(x) implies seen1.contains(x) by {
        if !seen0.contains(kw) {
            lemma_push_contains(seen0, kw, x);
        }
    }
    assert forall|x: KwV| n.contains(x) && !x.is_synthetic() implies seen1.contains(x) by {
        assert(x == kw);
        if !seen0.contains(kw) {
            lemma_push_contains(seen0, kw, x);
        }
    }
    lemma_extend_inv(b0, n, seen0, seen1, s0, s1);
    assert forall|x: KwV| seen1.contains(x) <==> seen0.contains(x) || x == kw by {
        if !seen0.contains(kw) {
            lemma_push_contains(seen0, kw, x);
        }
    }
}

/// Invariant step for a clause with two variable positions.
proof fn lemma_two_var_step(
    b0: Seq<KwV>,
    n: Seq<KwV>,
    seen0: Seq<KwV>,
    seen_mid: Seq<KwV>,
    seen1: Seq<KwV>,
    s0: u64,
    s_mid: u64,
    s1: u64,
    e_kw: KwV,
    v_kw: KwV,
    e_bind: KwV,
    v_bind: KwV,
)
    requires
        compile_inv(b0, seen0, s0),
        n == seq![e_bind, v_bind],
        e_kw != v_kw,
        !e_kw.is_synthetic(),
        !v_kw.is_synthetic(),
        s0 <= s_mid <= s1,
        s1 <= u64::MAX,
        seen0.contains(e_kw) ==> e_bind == KwV::Synthetic(s0) && s_mid == s0 + 1 && seen_mid
            == seen0,
        !seen0.contains(e_kw) ==> e_bind == e_kw && s_mid == s0 && seen_mid == seen0.push(e_kw),
        seen_mid.contains(v_kw) ==> v_bind == KwV::Synthetic(s_mid) && s1 == s_mid + 1 && seen1
            == seen_mid,
        !seen_mid.contains(v_kw) ==> v_bind == v_kw && s1 == s_mid && seen1 == seen_mid.push(
            v_kw,
        ),
    ensures
        compile_inv(b0 + n, seen1, s1),
        forall|x: KwV| seen1.contains(x) <==> seen0.contains(x) || x == e_kw || x == v_kw,
{
    if !seen0.contains(e_kw) {
        lemma_push_contains(seen0, e_kw, v_kw);
    }
    assert forall|x: KwV| n.contains(x) implies (x == e_bind || x == v_bind) by {
        let i = choose|i: int| 0 <= i < n.len() && n[i] == x;
    }
    assert(n[0] == e_bind && n[1] == v_bind);
    assert(e_bind != v_bind);
    assert forall|i: int, j: int|
        0 <= i < n.len() && 0 <= j < n.len() && i != j implies n[i] != n[j] by {
        assert(i == 0 || i == 1);
        assert(j == 0 || j == 1);
    }
    assert forall|x: KwV| n.contains(x) implies syn_bound(x, s1) && (x.is_synthetic()
        ==> !syn_bound(x, s0)) && (!x.is_synthetic() ==> !seen0.contains(x)) by {
        if x == v_bind && !x.is_synthetic() {
            assert(x == v_kw);
        }
    }
    assert forall|x: KwV| #[trigger] seen1.contains(x) implies seen0.contains(x) || (n.contains(
        x,
    ) && !x.is_synthetic()) by {
        if !seen0.contains(e_kw) {
            lemma_push_contains(seen0, e_kw, x);
        }
        if !seen_mid.contains(v_kw) {
            lemma_push_contains(seen_mid, v_kw, x);
        }
        if x == e_bind && !x.is_synthetic() {
            assert(n.contains(n[0]));
        }
        if x == v_bind && !x.is_synthetic() {
            assert(n.contains(n[1]));
        }
    }
    assert forall|x: KwV| #[trigger] seen0.contains(x) implies seen1.contains(x) by {
        if !seen0.contains(e_kw) {
            lemma_push_contains(seen0, e_kw, x);
        }
        if !seen_mid.contains(v_kw) {
            lemma_push_contains(seen_mid, v_kw, x);
        }
    }
    assert forall|x: KwV| n.contains(x) && !x.is_synthetic() implies seen1.contains(x) by {
        if !seen0.contains(e_kw) {
            lemma_push_contains(seen0, e_kw, x);
        }
        if !seen_mid.contains(v_kw) {
            lemma_push_contains(seen_mid, v_kw, x);
        }
    }
    lemma_extend_inv(b0, n, seen0, seen1, s0, s1);
    assert forall|x: KwV| seen1.contains(x) <==> seen0.contains(x) || x == e_kw || x == v_kw by {
        if !seen0.contains(e_kw) {
            lemma_push_contains(seen0, e_kw, x);
        }
        if !seen_mid.contains(v_kw) {
            lemma_push_contains(seen_mid, v_kw, x);
        }
    }
}

/// One step of the seen-variables/clause-variables correspondence.
proof fn lemma_vars_step(cs: Seq<Clause>, i: int, seen0: Seq<KwV>, seen1: Seq<KwV>)
    requires
        0 <= i < cs.len(),
        forall|x: KwV| seen0.contains(x) <==> clauses_vars_upto(cs, i).contains(x),
        forall|x: KwV|
            seen1.contains(x) <==> seen0.contains(x) || mv_var(
                cs[i]->AttrTriple_0.entity,
            ) == Some(x) || mv_var(cs[i]->AttrTriple_0.value) == Some(x),
    ensures
        forall|x: KwV| seen1.contains(x) <==> clauses_vars_upto(cs, i + 1).contains(x),
{
    assert(clauses_vars_upto(cs, i + 1) == clauses_vars_upto(cs, i).union(clause_vars(cs[i])));
}

} // verus!
