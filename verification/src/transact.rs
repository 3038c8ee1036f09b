//! The session's view of storage: the attribute catalog and the
//! unique-index entries, read at a validity snapshot.  The compiler only
//! reads this state; all lookups are point reads with exact contracts.

use vstd::prelude::*;
use crate::attr::Attribute;
use crate::keyword::{kw_eq, Keyword, KwV};
use crate::value::{dv_cmp_exec, dv_cmp, Cmp, DataValue, EntityId, Validity};

verus! {

/// One unique-index fact: under `attr_keyword`, `value` identifies `eid`
/// from snapshot `since` onward.
pub struct UniqueIndexEntry {
    pub attr_keyword: Keyword,
    pub value: DataValue,
    pub eid: EntityId,
    pub since: Validity,
}

/// An open transactional session: the attribute catalog and the unique-index
/// entries visible to it.
pub struct SessionTx {
    pub attributes: Vec<Attribute>,
    pub unique_index: Vec<UniqueIndexEntry>,
}

/// First unique-index entry matching the attribute, the value (under the
/// value order's equality), and visible at `vld`.
pub open spec fn lookup_unique(
    entries: Seq<UniqueIndexEntry>,
    kw: KwV,
    value: DataValue,
    vld: Validity,
) -> Option<EntityId>
    decreases entries.len(),
{
    if entries.len() == 0 {
        None
    } else {
        if entries[0].attr_keyword@ == kw && dv_cmp(entries[0].value, value) == Cmp::Eq
            && entries[0].since.0 <= vld.0 {
            Some(entries[0].eid)
        } else {
            lookup_unique(entries.drop_first(), kw, value, vld)
        }
    }
}

/// First catalog attribute with the given name.
pub open spec fn find_attr(attrs: Seq<Attribute>, kw: KwV) -> Option<Attribute>
    decreases attrs.len(),
{
    if attrs.len() == 0 {
        None
    } else if attrs[0].keyword@ == kw {
        Some(attrs[0])
    } else {
        find_attr(attrs.drop_first(), kw)
    }
}

/// The attribute that `find_attr` returns bears the name it was looked up
/// under.
pub proof fn lemma_find_attr_keyword(attrs: Seq<Attribute>, kw: KwV)
    ensures
        find_attr(attrs, kw) matches Some(a) ==> a.keyword@ == kw,
    decreases attrs.len(),
{
    if attrs.len() > 0 && attrs[0].keyword@ != kw {
        lemma_find_attr_keyword(attrs.drop_first(), kw);
    }
}

impl SessionTx {
    /// A session over the given catalog and index.
    pub fn new(attributes: Vec<Attribute>, unique_index: Vec<UniqueIndexEntry>) -> (r: SessionTx)
        ensures
            r.attributes == attributes,
            r.unique_index == unique_index,
    {
        SessionTx { attributes, unique_index }
    }

    /// Look an attribute up by name in the catalog.
    pub fn attr_by_kw(&self, kw: &Keyword) -> (r: Option<&Attribute>)
        ensures
            match r {
                Some(a) => find_attr(self.attributes@, kw@) == Some(*a),
                None => find_attr(self.attributes@, kw@) is None,
            },
    {
        let ghost full = self.attributes@;
        let mut i: usize = 0;
        proof {
            assert(full.skip(0) =~= full);
        }
        while i < self.attributes.len()
            invariant
                i <= self.attributes@.len(),
                self.attributes@ == full,
                find_attr(full, kw@) == find_attr(full.skip(i as int), kw@),
            decreases self.attributes@.len() - i,
        {
            proof {
                assert(full.skip(i as int)[0] == full[i as int]);
            }
            if kw_eq(&self.attributes[i].keyword, kw) {
                proof {
                    assert(find_attr(full.skip(i as int), kw@) == Some(full[i as int]));
                }
                return Some(&self.attributes[i]);
            }
            proof {
                assert(full.skip(i as int).drop_first() =~= full.skip(i as int + 1));
            }
            i += 1;
        }
        proof {
            assert(full.skip(full.len() as int).len() == 0);
        }
        None
    }

    /// Point lookup of the entity that `value` identifies under the given
    /// unique-indexed attribute, at validity `vld`.
    pub fn eid_by_unique_av(
        &self,
        attr: &Attribute,
        value: &DataValue,
        vld: Validity,
    ) -> (r: Option<EntityId>)
        ensures
            r == lookup_unique(self.unique_index@, attr@.keyword, *value, vld),
    {
        let ghost full = self.unique_index@;
        let mut i: usize = 0;
        proof {
            assert(full.skip(0) =~= full);
        }
        while i < self.unique_index.len()
            invariant
                i <= self.unique_index@.len(),
                self.unique_index@ == full,
                lookup_unique(full, attr@.keyword, *value, vld) == lookup_unique(
                    full.skip(i as int),
                    attr@.keyword,
                    *value,
                    vld,
                ),
            decreases self.unique_index@.len() - i,
        {
            let e = &self.unique_index[i];
            proof {
                assert(full.skip(i as int)[0] == full[i as int]);
            }
            let kw_hit = kw_eq(&e.attr_keyword, &attr.keyword);
            let val_hit = dv_cmp_exec(&e.value, value) == Cmp::Eq;
            if kw_hit && val_hit && e.since.0 <= vld.0 {
                proof {
                    assert(full.skip(i as int).len() > 0);
                    assert(full.skip(i as int)[0].attr_keyword@ == attr@.keyword);
                    assert(dv_cmp(full.skip(i as int)[0].value, *value) == Cmp::Eq);
                    assert(full.skip(i as int)[0].since.0 <= vld.0);
                    assert(lookup_unique(full.skip(i as int), attr@.keyword, *value, vld)
                        == Some(full[i as int].eid));
                    assert(lookup_unique(full, attr@.keyword, *value, vld)
                        == Some(full[i as int].eid));

                }
                return Some(e.eid);
            }
            proof {
                assert(full.skip(i as int).drop_first() =~= full.skip(i as int + 1));
            }
            i += 1;
        }
        proof {
            assert(full.skip(full.len() as int).len() == 0);
        }
        None
    }
}

} // verus!
