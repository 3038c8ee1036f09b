//! Relation-algebra operator trees.
//!
//! A compiled query is a [`Relation`]: the unit relation, a small inline
//! relation of fixed rows, an indexed scan of one attribute's triples at one
//! validity, or a binary inner equi-join.  Synthetic bindings (see
//! [`crate::keyword`]) exist only to express join constraints; the
//! elimination pass drops every synthetic binding that no enclosing join
//! still needs, so that the tree's visible schema holds user names only.

use vstd::prelude::*;
use crate::attr::Attribute;
use crate::keyword::{kw_list_contains, kw_views, Keyword, KwV};
use crate::seqs::{
    lemma_filter_compose, lemma_filter_congruence, lemma_filter_membership, lemma_filter_push,
};
use crate::value::{DataValue, Validity};

verus! {

/// An explicit small list of rows with named column bindings, used to inject
/// constants into a join tree.
#[derive(Debug)]
pub struct InlineFixedRelation {
    pub bindings: Vec<Keyword>,
    pub data: Vec<Vec<DataValue>>,
    pub to_eliminate: Vec<Keyword>,
}

/// An indexed scan of all facts for one attribute at one validity snapshot,
/// exposing the entity slot and the value slot, in that order.
#[derive(Debug)]
pub struct TripleRelation {
    pub attr: Attribute,
    pub vld: Validity,
    pub bindings: (Keyword, Keyword),
}

/// The join predicate of an inner join: position `i` of the left key list
/// must equal position `i` of the right key list.
#[derive(Debug)]
pub struct Joiner {
    pub left_keys: Vec<Keyword>,
    pub right_keys: Vec<Keyword>,
}

/// A binary inner equi-join.
#[derive(Debug)]
pub struct InnerJoin {
    pub left: Relation,
    pub right: Relation,
    pub joiner: Joiner,
    pub to_eliminate: Vec<Keyword>,
}

/// A relation-algebra tree node.
#[derive(Debug)]
pub enum Relation {
    Unit,
    Fixed(InlineFixedRelation),
    Triple(TripleRelation),
    Join(Box<InnerJoin>),
}

/// The predicate "this binding is not on the elimination list".
pub open spec fn not_in(elim: Seq<KwV>) -> spec_fn(KwV) -> bool {
    |b: KwV| !elim.contains(b)
}

/// The predicate "this binding survives elimination under `needed`": user
/// bindings always survive; synthetic ones survive only while still needed.
pub open spec fn keep_pred(needed: Seq<KwV>) -> spec_fn(KwV) -> bool {
    |b: KwV| !b.is_synthetic() || needed.contains(b)
}

/// The predicate selecting the bindings an elimination list holds: synthetic
/// and no longer needed.
pub open spec fn syn_not_needed(needed: Seq<KwV>) -> spec_fn(KwV) -> bool {
    |b: KwV| b.is_synthetic() && !needed.contains(b)
}

/// The externally visible schema of a relation: its bindings, in order,
/// minus whatever its elimination lists drop.
pub open spec fn rel_bindings(r: Relation) -> Seq<KwV>
    decreases r,
{
    match r {
        Relation::Unit => Seq::empty(),
        Relation::Fixed(f) => kw_views(f.bindings@).filter(not_in(kw_views(f.to_eliminate@))),
        Relation::Triple(t) => seq![t.bindings.0@, t.bindings.1@],
        Relation::Join(j) => (rel_bindings(j.left) + rel_bindings(j.right)).filter(
            not_in(kw_views(j.to_eliminate@)),
        ),
    }
}

/// Whether every triple scan in the tree reads at validity `v`.
pub open spec fn rel_vld_ok(r: Relation, v: Validity) -> bool
    decreases r,
{
    match r {
        Relation::Unit => true,
        Relation::Fixed(_) => true,
        Relation::Triple(t) => t.vld == v,
        Relation::Join(j) => rel_vld_ok(j.left, v) && rel_vld_ok(j.right, v),
    }
}

impl Relation {
    /// The cardinality-one relation with no columns: compilation's identity
    /// and start value.
    pub fn unit() -> (r: Relation)
        ensures
            r is Unit,
            rel_bindings(r) == Seq::<KwV>::empty(),
    {
        Relation::Unit
    }

    /// Whether this node is the unit relation.
    pub fn is_unit(&self) -> (r: bool)
        ensures
            r == (*self is Unit),
    {
        match self {
            Relation::Unit => true,
            _ => false,
        }
    }

    /// The visible schema, as a fresh list of bindings.
    pub fn bindings(&self) -> (r: Vec<Keyword>)
        ensures
            kw_views(r@) == rel_bindings(*self),
        decreases *self,
    {
        match self {
            Relation::Unit => {
                let r: Vec<Keyword> = Vec::new();
                proof {
                    assert(kw_views(r@) =~= Seq::<KwV>::empty());
                }
                r
            },
            Relation::Fixed(f) => filter_not_eliminated(&f.bindings, &f.to_eliminate),
            Relation::Triple(t) => {
                let mut r: Vec<Keyword> = Vec::new();
                r.push(t.bindings.0.dup());
                r.push(t.bindings.1.dup());
                proof {
                    assert(kw_views(r@) =~= seq![t.bindings.0@, t.bindings.1@]);
                }
                r
            },
            Relation::Join(j) => {
                let mut all = j.left.bindings();
                let mut right_b = j.right.bindings();
                all.append(&mut right_b);
                proof {
                    assert(kw_views(all@) =~= rel_bindings(j.left) + rel_bindings(j.right));
                }
                filter_not_eliminated(&all, &j.to_eliminate)
            },
        }
    }

    /// Whether any visible binding is synthetic.
    pub fn has_ignored_binding(&self) -> (r: bool)
        ensures
            r == exists|i: int|
                0 <= i < rel_bindings(*self).len() && rel_bindings(*self)[i].is_synthetic(),
    {
        let bs = self.bindings();
        let mut i: usize = 0;
        while i < bs.len()
            invariant
                i <= bs@.len(),
                kw_views(bs@) == rel_bindings(*self),
                forall|j: int| 0 <= j < i ==> !rel_bindings(*self)[j].is_synthetic(),
            decreases bs@.len() - i,
        {
            if bs[i].is_ignored_binding() {
                assert(rel_bindings(*self)[i as int].is_synthetic());
                return true;
            }
            i += 1;
        }
        false
    }

    /// Drop from every schema in the tree the synthetic bindings that no
    /// enclosing join still uses.  After this pass at the root, a node that
    /// can eliminate (anything but a bare triple scan) shows only its user
    /// bindings.
    pub fn eliminate_temp_vars(&mut self)
        ensures
            !(*old(self) is Triple) ==> rel_bindings(*final(self)) == rel_bindings(*old(self)).filter(
                keep_pred(Seq::<KwV>::empty()),
            ),
            *old(self) is Triple ==> *final(self) == *old(self),
            forall|v: Validity| #[trigger] rel_vld_ok(*final(self), v) == rel_vld_ok(*old(self), v),
    {
        let needed: Vec<Keyword> = Vec::new();
        proof {
            assert(kw_views(needed@) =~= Seq::<KwV>::empty());
        }
        eliminate_rec(self, &needed);
    }
}

/// Copy of `bs` without the bindings whose view occurs in `elim`.
fn filter_not_eliminated(bs: &Vec<Keyword>, elim: &Vec<Keyword>) -> (r: Vec<Keyword>)
    ensures
        kw_views(r@) == kw_views(bs@).filter(not_in(kw_views(elim@))),
{
    let ghost p = not_in(kw_views(elim@));
    let mut r: Vec<Keyword> = Vec::new();
    let mut i: usize = 0;
    proof {
        assert(kw_views(bs@.subrange(0, 0)) =~= Seq::<KwV>::empty());
        reveal(Seq::filter);
        assert(kw_views(r@) =~= kw_views(bs@.subrange(0, 0)).filter(p));
    }
    while i < bs.len()
        invariant
            i <= bs@.len(),
            p == not_in(kw_views(elim@)),
            kw_views(r@) == kw_views(bs@.subrange(0, i as int)).filter(p),
        decreases bs@.len() - i,
    {
        let ghost prefix = kw_views(bs@.subrange(0, i as int));
        proof {
            assert(bs@.subrange(0, i as int + 1) =~= bs@.subrange(0, i as int).push(bs@[i as int]));
            assert(kw_views(bs@.subrange(0, i as int + 1)) =~= prefix.push(bs@[i as int]@));
            lemma_filter_push(prefix, p, bs@[i as int]@);
        }
        if !kw_list_contains(elim, &bs[i]) {
            r.push(bs[i].dup());
            proof {
                assert(kw_views(r@) =~= prefix.filter(p).push(bs@[i as int]@));
            }
        }
        i += 1;
    }
    proof {
        assert(bs@.subrange(0, bs@.len() as int) =~= bs@);
    }
    r
}

/// Concatenation of two keyword lists, by copy.
fn kw_concat(a: &Vec<Keyword>, b: &Vec<Keyword>) -> (r: Vec<Keyword>)
    ensures
        kw_views(r@) == kw_views(a@) + kw_views(b@),
{
    let mut r: Vec<Keyword> = Vec::new();
    let mut i: usize = 0;
    while i < a.len()
        invariant
            i <= a@.len(),
            kw_views(r@) == kw_views(a@.subrange(0, i as int)),
        decreases a@.len() - i,
    {
        r.push(a[i].dup());
        proof {
            assert(a@.subrange(0, i as int + 1) =~= a@.subrange(0, i as int).push(a@[i as int]));
            assert(kw_views(r@) =~= kw_views(a@.subrange(0, i as int)).push(a@[i as int]@));
        }
        i += 1;
    }
    proof {
        assert(a@.subrange(0, a@.len() as int) =~= a@);
        assert(kw_views(b@.subrange(0, 0)) =~= Seq::<KwV>::empty());
        assert(kw_views(a@) + kw_views(b@.subrange(0, 0)) =~= kw_views(a@));
    }
    let mut i: usize = 0;
    while i < b.len()
        invariant
            i <= b@.len(),
            kw_views(r@) == kw_views(a@) + kw_views(b@.subrange(0, i as int)),
        decreases b@.len() - i,
    {
        let ghost prev = r@;
        let x = b[i].dup();
        let ghost xv = x@;
        r.push(x);
        proof {
            crate::seqs::lemma_map_values_push(prev, x, |k: Keyword| k@);
            Seq::<KwV>::push_distributes_over_add(
                kw_views(a@),
                kw_views(b@.subrange(0, i as int)),
                xv,
            );
            assert(b@.subrange(0, i as int + 1) =~= b@.subrange(0, i as int).push(b@[i as int]));
            crate::seqs::lemma_map_values_push(
                b@.subrange(0, i as int),
                b@[i as int],
                |k: Keyword| k@,
            );
        }
        i += 1;
    }
    proof {
        assert(b@.subrange(0, b@.len() as int) =~= b@);
    }
    r
}

/// The bindings of `bs` that are synthetic and not in `needed`.
fn synthetic_not_needed(bs: &Vec<Keyword>, needed: &Vec<Keyword>) -> (r: Vec<Keyword>)
    ensures
        kw_views(r@) == kw_views(bs@).filter(syn_not_needed(kw_views(needed@))),
{
    let ghost p = syn_not_needed(kw_views(needed@));
    let mut r: Vec<Keyword> = Vec::new();
    let mut i: usize = 0;
    proof {
        assert(kw_views(bs@.subrange(0, 0)) =~= Seq::<KwV>::empty());
        reveal(Seq::filter);
        assert(kw_views(r@) =~= kw_views(bs@.subrange(0, 0)).filter(p));
    }
    while i < bs.len()
        invariant
            i <= bs@.len(),
            p == syn_not_needed(kw_views(needed@)),
            kw_views(r@) == kw_views(bs@.subrange(0, i as int)).filter(p),
        decreases bs@.len() - i,
    {
        let ghost prefix = kw_views(bs@.subrange(0, i as int));
        proof {
            assert(bs@.subrange(0, i as int + 1) =~= bs@.subrange(0, i as int).push(bs@[i as int]));
            assert(kw_views(bs@.subrange(0, i as int + 1)) =~= prefix.push(bs@[i as int]@));
            lemma_filter_push(prefix, p, bs@[i as int]@);
        }
        if bs[i].is_ignored_binding() && !kw_list_contains(needed, &bs[i]) {
            r.push(bs[i].dup());
            proof {
                assert(kw_views(r@) =~= prefix.filter(p).push(bs@[i as int]@));
            }
        }
        i += 1;
    }
    proof {
        assert(bs@.subrange(0, bs@.len() as int) =~= bs@);
    }
    r
}

/// One elimination step: extend this node's elimination list with the
/// bindings it must now drop (synthetic, not needed above), then push the
/// node's own join keys into the needed set and recurse.
fn eliminate_rec(r: &mut Relation, needed: &Vec<Keyword>)
    ensures
        !(*old(r) is Triple) ==> rel_bindings(*final(r)) == rel_bindings(*old(r)).filter(
            keep_pred(kw_views(needed@)),
        ),
        *old(r) is Triple ==> *final(r) == *old(r),
        forall|v: Validity| #[trigger] rel_vld_ok(*final(r), v) == rel_vld_ok(*old(r), v),
    decreases *old(r),
{
    let ghost needed_v = kw_views(needed@);
    match r {
        Relation::Unit => {
            proof {
                reveal(Seq::filter);
                assert(Seq::<KwV>::empty().filter(keep_pred(needed_v)) =~= Seq::<KwV>::empty());
            }
        },
        Relation::Triple(_) => {},
        Relation::Fixed(f) => {
            let ghost old_elim = kw_views(f.to_eliminate@);
            let ghost bv = kw_views(f.bindings@);
            let visible = filter_not_eliminated(&f.bindings, &f.to_eliminate);
            let mut adds = synthetic_not_needed(&visible, needed);
            let ghost adds_v = kw_views(adds@);
            f.to_eliminate.append(&mut adds);
            proof {
                crate::seqs::lemma_map_values_add(
                    f.to_eliminate@.subrange(0, f.to_eliminate@.len() - adds_v.len()),
                    f.to_eliminate@.subrange(
                        f.to_eliminate@.len() - adds_v.len(),
                        f.to_eliminate@.len() as int,
                    ),
                    |k: Keyword| k@,
                );
                assert(kw_views(f.to_eliminate@) =~= old_elim + adds_v);
                lemma_elim_extend(bv, old_elim, adds_v, needed_v);
            }
        },
        Relation::Join(j) => {
            let ghost old_elim = kw_views(j.to_eliminate@);
            let ghost bl = rel_bindings(j.left);
            let ghost br = rel_bindings(j.right);
            let left_b = j.left.bindings();
            let right_b = j.right.bindings();
            let all = kw_concat(&left_b, &right_b);
            let visible = filter_not_eliminated(&all, &j.to_eliminate);
            let mut adds = synthetic_not_needed(&visible, needed);
            let ghost adds_v = kw_views(adds@);
            j.to_eliminate.append(&mut adds);
            let needed_left = kw_concat(needed, &j.joiner.left_keys);
            eliminate_rec(&mut j.left, &needed_left);
            let needed_right = kw_concat(needed, &j.joiner.right_keys);
            eliminate_rec(&mut j.right, &needed_right);
            proof {
                let b_all = bl + br;
                let elim_total = old_elim + adds_v;
                crate::seqs::lemma_map_values_add(
                    j.to_eliminate@.subrange(0, j.to_eliminate@.len() - adds_v.len()),
                    j.to_eliminate@.subrange(
                        j.to_eliminate@.len() - adds_v.len(),
                        j.to_eliminate@.len() as int,
                    ),
                    |k: Keyword| k@,
                );
                assert(kw_views(j.to_eliminate@) =~= elim_total);
                assert(adds_v == b_all.filter(not_in(old_elim)).filter(syn_not_needed(needed_v)));
                let q = |b: KwV| not_in(old_elim)(b) && keep_pred(needed_v)(b);
                assert forall|b: KwV| b_all.contains(b) implies (not_in(elim_total)(b) <==> q(
                    b,
                )) by {
                    crate::seqs::lemma_concat_contains(old_elim, adds_v, b);
                    lemma_filter_membership(b_all.filter(not_in(old_elim)), syn_not_needed(needed_v), b);
                    lemma_filter_membership(b_all, not_in(old_elim), b);
                }
                assert forall|b: KwV| bl.contains(b) implies b_all.contains(b) by {
                    crate::seqs::lemma_concat_contains(bl, br, b);
                }
                assert forall|b: KwV| br.contains(b) implies b_all.contains(b) by {
                    crate::seqs::lemma_concat_contains(bl, br, b);
                }
                assert forall|b: KwV| needed_v.contains(b) implies kw_views(
                    needed_left@,
                ).contains(b) by {
                    crate::seqs::lemma_concat_contains(
                        needed_v,
                        kw_views(j.joiner.left_keys@),
                        b,
                    );
                }
                assert forall|b: KwV| needed_v.contains(b) implies kw_views(
                    needed_right@,
                ).contains(b) by {
                    crate::seqs::lemma_concat_contains(
                        needed_v,
                        kw_views(j.joiner.right_keys@),
                        b,
                    );
                }
                lemma_join_side(bl, rel_bindings(j.left), kw_views(needed_left@), not_in(elim_total), q, needed_v);
                lemma_join_side(br, rel_bindings(j.right), kw_views(needed_right@), not_in(elim_total), q, needed_v);
                Seq::<KwV>::filter_distributes_over_add(
                    rel_bindings(j.left),
                    rel_bindings(j.right),
                    not_in(elim_total),
                );
                Seq::<KwV>::filter_distributes_over_add(bl, br, q);
                lemma_filter_compose(b_all, not_in(old_elim), keep_pred(needed_v));
                lemma_filter_congruence(b_all, q, |b: KwV| not_in(old_elim)(b) && keep_pred(needed_v)(b));
                assert(rel_bindings(*r) == b_all.filter(not_in(old_elim)).filter(
                    keep_pred(needed_v),
                ));
                assert forall|v: Validity| #[trigger] rel_vld_ok(*r, v) == rel_vld_ok(
                    *old(r),
                    v,
                ) by {
                    assert(rel_vld_ok(*r, v) == (rel_vld_ok(j.left, v) && rel_vld_ok(
                        j.right,
                        v,
                    )));
                }
            }
        },
    }
}

/// Extending an elimination list with exactly the visible synthetic bindings
/// that are no longer needed filters the schema down to what survives.
proof fn lemma_elim_extend(bv: Seq<KwV>, old_elim: Seq<KwV>, adds: Seq<KwV>, needed: Seq<KwV>)
    requires
        adds == bv.filter(not_in(old_elim)).filter(syn_not_needed(needed)),
    ensures
        bv.filter(not_in(old_elim + adds)) == bv.filter(not_in(old_elim)).filter(
            keep_pred(needed),
        ),
{
    let visible = bv.filter(not_in(old_elim));
    lemma_filter_compose(bv, not_in(old_elim), keep_pred(needed));
    assert forall|b: KwV| bv.contains(b) implies (not_in(old_elim + adds)(b) <==> (not_in(
        old_elim,
    )(b) && keep_pred(needed)(b))) by {
        crate::seqs::lemma_concat_contains(old_elim, adds, b);
        lemma_filter_membership(visible, syn_not_needed(needed), b);
        lemma_filter_membership(bv, not_in(old_elim), b);
    }
    lemma_filter_congruence(
        bv,
        not_in(old_elim + adds),
        |b: KwV| not_in(old_elim)(b) && keep_pred(needed)(b),
    );
}

/// The schema contribution of one side of a join after the child has run its
/// own elimination, filtered by the join's total elimination predicate.
proof fn lemma_join_side(
    side: Seq<KwV>,
    side_after: Seq<KwV>,
    needed_child: Seq<KwV>,
    p: spec_fn(KwV) -> bool,
    q: spec_fn(KwV) -> bool,
    needed: Seq<KwV>,
)
    requires
        forall|b: KwV| side.contains(b) ==> (p(b) <==> q(b)),
        forall|b: KwV| #[trigger] q(b) ==> keep_pred(needed)(b),
        forall|b: KwV| needed.contains(b) ==> needed_child.contains(b),
        side_after == side || side_after == side.filter(keep_pred(needed_child)),
    ensures
        side_after.filter(p) == side.filter(q),
{
    if side_after == side {
        lemma_filter_congruence(side, p, q);
    } else {
        lemma_filter_compose(side, keep_pred(needed_child), p);
        assert forall|b: KwV| side.contains(b) implies ((keep_pred(needed_child)(b) && p(b))
            <==> q(b)) by {
            if q(b) {
                assert(keep_pred(needed)(b));
            }
        }
        lemma_filter_congruence(side, |x: KwV| keep_pred(needed_child)(x) && p(x), q);
    }
}

} // verus!
