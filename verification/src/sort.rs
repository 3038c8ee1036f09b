//! Sorting of materialized result rows.
//!
//! `sort_and_collect` re-collects a store's rows into a fresh store ordered
//! by a list of sort keys, each ascending or descending, with the row's
//! original scan position as the final deterministic tie-break.  The
//! contract exhibits the permutation: rows are rearranged, never invented,
//! and consecutive rows are strictly ordered by (keys, original position).

use vstd::prelude::*;
use crate::keyword::{kw_eq, Keyword, KwV};
use crate::transact::SessionTx;
use crate::value::{cmp_invert, dv_cmp, dv_cmp_exec, lemma_dv_cmp_flip, lemma_dv_cmp_trans, Cmp,
    DataValue};

verus! {

/// Direction of one sort key.
#[derive(Clone, Copy, PartialEq, Eq, Structural, Debug)]
pub enum SortDir {
    Asc,
    Dsc,
}

/// A materialized result row.
#[derive(Debug)]
pub struct Tuple(pub Vec<DataValue>);

impl View for Tuple {
    type V = Seq<DataValue>;

    open spec fn view(&self) -> Seq<DataValue> {
        self.0@
    }
}

impl Tuple {
    /// Structural copy.
    pub fn dup(&self) -> (r: Tuple)
        ensures
            r@ == self@,
    {
        let mut v: Vec<DataValue> = Vec::new();
        let mut i: usize = 0;
        while i < self.0.len()
            invariant
                i <= self.0@.len(),
                v@ == self.0@.subrange(0, i as int),
            decreases self.0@.len() - i,
        {
            v.push(self.0[i].dup());
            proof {
                assert(self.0@.subrange(0, i as int + 1) =~= self.0@.subrange(0, i as int).push(
                    self.0@[i as int],
                ));
            }
            i += 1;
        }
        proof {
            assert(self.0@.subrange(0, self.0@.len() as int) =~= self.0@);
        }
        Tuple(v)
    }
}

/// A materialized store of rows, scanned in order.
#[derive(Debug)]
pub struct DerivedRelStore {
    pub rows: Vec<Tuple>,
}

/// One comparison outcome under a sort direction: descending inverts it.
pub open spec fn dir_cmp(c: Cmp, d: SortDir) -> Cmp {
    if d == SortDir::Dsc {
        cmp_invert(c)
    } else {
        c
    }
}

/// The strict sort order on rows: lexicographic over the keyed columns,
/// each under its direction, with the original position as final tie-break.
pub open spec fn key_lt(
    a: Seq<DataValue>,
    ia: int,
    b: Seq<DataValue>,
    ib: int,
    ks: Seq<(int, SortDir)>,
) -> bool
    decreases ks.len(),
{
    if ks.len() == 0 {
        ia < ib
    } else {
        let c = dir_cmp(dv_cmp(a[ks[0].0], b[ks[0].0]), ks[0].1);
        c == Cmp::Lt || (c == Cmp::Eq && key_lt(a, ia, b, ib, ks.drop_first()))
    }
}

/// Position of the first occurrence of a name in the head row.
pub open spec fn head_index(head: Seq<Keyword>, kw: KwV) -> int
    decreases head.len(),
{
    if head.len() == 0 {
        0
    } else if head[0]@ == kw {
        0
    } else {
        1 + head_index(head.drop_first(), kw)
    }
}

/// The sorter list resolved to column positions.
pub open spec fn idx_sorters_spec(head: Seq<Keyword>, sorters: Seq<(Keyword, SortDir)>) -> Seq<
    (int, SortDir),
> {
    Seq::new(sorters.len(), |i: int| (head_index(head, sorters[i].0@), sorters[i].1))
}

/// The views of a row list.
pub open spec fn row_views(rows: Seq<Tuple>) -> Seq<Seq<DataValue>> {
    rows.map_values(|t: Tuple| t@)
}

/// `p` witnesses that `outp` is `inp` rearranged into strictly ascending
/// order under `ks`, ties broken by original position.
#[verifier::opaque]
pub open spec fn is_sort_witness(
    p: Seq<int>,
    inp: Seq<Seq<DataValue>>,
    outp: Seq<Seq<DataValue>>,
    ks: Seq<(int, SortDir)>,
) -> bool {
    &&& p.len() == inp.len()
    &&& outp.len() == inp.len()
    &&& forall|i: int| 0 <= i < p.len() ==> 0 <= #[trigger] p[i] < inp.len()
    &&& forall|i: int| 0 <= i < p.len() ==> #[trigger] outp[i] == inp[p[i]]
    &&& forall|i: int, j: int|
        0 <= i < j < p.len() ==> key_lt(inp[p[i]], p[i], inp[p[j]], p[j], ks)
}

/// The order never relates a row-position pair to itself.
pub proof fn lemma_key_irrefl(a: Seq<DataValue>, ia: int, ks: Seq<(int, SortDir)>)
    ensures
        !key_lt(a, ia, a, ia, ks),
    decreases ks.len(),
{
    if ks.len() > 0 {
        lemma_dv_cmp_flip(a[ks[0].0], a[ks[0].0]);
        lemma_key_irrefl(a, ia, ks.drop_first());
    }
}

/// Any two rows with distinct positions are ordered one way or the other.
pub proof fn lemma_key_total(
    a: Seq<DataValue>,
    ia: int,
    b: Seq<DataValue>,
    ib: int,
    ks: Seq<(int, SortDir)>,
)
    requires
        ia != ib,
    ensures
        key_lt(a, ia, b, ib, ks) || key_lt(b, ib, a, ia, ks),
    decreases ks.len(),
{
    if ks.len() > 0 {
        lemma_dv_cmp_flip(a[ks[0].0], b[ks[0].0]);
        lemma_key_total(a, ia, b, ib, ks.drop_first());
    }
}

/// Three-way comparison composes: the middle value carries the order over.
proof fn lemma_dv_cases(a: DataValue, b: DataValue, c: DataValue)
    ensures
        dv_cmp(a, b) == Cmp::Lt && dv_cmp(b, c) == Cmp::Lt ==> dv_cmp(a, c) == Cmp::Lt,
        dv_cmp(a, b) == Cmp::Lt && dv_cmp(b, c) == Cmp::Eq ==> dv_cmp(a, c) == Cmp::Lt,
        dv_cmp(a, b) == Cmp::Eq && dv_cmp(b, c) == Cmp::Lt ==> dv_cmp(a, c) == Cmp::Lt,
        dv_cmp(a, b) == Cmp::Eq && dv_cmp(b, c) == Cmp::Eq ==> dv_cmp(a, c) == Cmp::Eq,
        dv_cmp(a, b) == Cmp::Gt && dv_cmp(b, c) == Cmp::Gt ==> dv_cmp(a, c) == Cmp::Gt,
        dv_cmp(a, b) == Cmp::Gt && dv_cmp(b, c) == Cmp::Eq ==> dv_cmp(a, c) == Cmp::Gt,
        dv_cmp(a, b) == Cmp::Eq && dv_cmp(b, c) == Cmp::Gt ==> dv_cmp(a, c) == Cmp::Gt,
{
    lemma_dv_cmp_flip(a, b);
    lemma_dv_cmp_flip(b, c);
    lemma_dv_cmp_flip(a, c);
    if dv_cmp(a, b) != Cmp::Gt && dv_cmp(b, c) != Cmp::Gt {
        lemma_dv_cmp_trans(a, b, c);
    }
    if dv_cmp(c, b) != Cmp::Gt && dv_cmp(b, a) != Cmp::Gt {
        lemma_dv_cmp_trans(c, b, a);
    }
}

/// Transitivity of the strict sort order.
pub proof fn lemma_key_trans(
    a: Seq<DataValue>,
    ia: int,
    b: Seq<DataValue>,
    ib: int,
    c: Seq<DataValue>,
    ic: int,
    ks: Seq<(int, SortDir)>,
)
    requires
        key_lt(a, ia, b, ib, ks),
        key_lt(b, ib, c, ic, ks),
    ensures
        key_lt(a, ia, c, ic, ks),
    decreases ks.len(),
{
    if ks.len() > 0 {
        lemma_dv_cases(a[ks[0].0], b[ks[0].0], c[ks[0].0]);
        if dir_cmp(dv_cmp(a[ks[0].0], b[ks[0].0]), ks[0].1) == Cmp::Eq && dir_cmp(
            dv_cmp(b[ks[0].0], c[ks[0].0]),
            ks[0].1,
        ) == Cmp::Eq {
            lemma_key_trans(a, ia, b, ib, c, ic, ks.drop_first());
        }
    }
}

/// A row keyed for sorting: the row itself and its original scan position.
struct KeyedRow {
    row: Tuple,
    idx: usize,
}

/// Executable strict comparison of two keyed rows.
fn keyed_lt(a: &KeyedRow, b: &KeyedRow, idx_sorters: &Vec<(usize, SortDir)>, width: usize) -> (r:
    bool)
    requires
        a.row@.len() == width,
        b.row@.len() == width,
        forall|i: int| 0 <= i < idx_sorters@.len() ==> (#[trigger] idx_sorters@[i]).0 < width,
    ensures
        r == key_lt(
            a.row@,
            a.idx as int,
            b.row@,
            b.idx as int,
            idx_sorters@.map_values(|s: (usize, SortDir)| (s.0 as int, s.1)),
        ),
{
    let ghost ks = idx_sorters@.map_values(|s: (usize, SortDir)| (s.0 as int, s.1));
    let mut i: usize = 0;
    proof {
        assert(ks.skip(0) =~= ks);
    }
    while i < idx_sorters.len()
        invariant
            i <= idx_sorters@.len(),
            a.row@.len() == width,
            b.row@.len() == width,
            forall|k: int| 0 <= k < idx_sorters@.len() ==> (#[trigger] idx_sorters@[k]).0 < width,
            ks == idx_sorters@.map_values(|s: (usize, SortDir)| (s.0 as int, s.1)),
            key_lt(a.row@, a.idx as int, b.row@, b.idx as int, ks) == key_lt(
                a.row@,
                a.idx as int,
                b.row@,
                b.idx as int,
                ks.skip(i as int),
            ),
        decreases idx_sorters@.len() - i,
    {
        let (h, d) = idx_sorters[i];
        let c = dv_cmp_exec(&a.row.0[h], &b.row.0[h]);
        let c2 = if d == SortDir::Dsc {
            match c {
                Cmp::Lt => Cmp::Gt,
                Cmp::Eq => Cmp::Eq,
                Cmp::Gt => Cmp::Lt,
            }
        } else {
            c
        };
        proof {
            assert(ks.skip(i as int)[0] == ks[i as int]);
            assert(ks[i as int] == (h as int, d));
        }
        match c2 {
            Cmp::Lt => {
                return true;
            },
            Cmp::Gt => {
                return false;
            },
            Cmp::Eq => {
                proof {
                    assert(ks.skip(i as int).drop_first() =~= ks.skip(i as int + 1));
                }
            },
        }
        i += 1;
    }
    proof {
        assert(ks.skip(ks.len() as int).len() == 0);
    }
    a.idx < b.idx
}

impl SessionTx {
    /// Collect the store's rows into a fresh store, ordered by the sort
    /// keys (ascending or descending, per key), with the original scan
    /// position as the final tie-break.  The contract exhibits the
    /// rearrangement `p`: row `i` of the result is row `p[i]` of the input,
    /// and consecutive result rows are strictly ordered.
    pub fn sort_and_collect(
        &mut self,
        original: &DerivedRelStore,
        sorters: &Vec<(Keyword, SortDir)>,
        head: &Vec<Keyword>,
    ) -> (r: DerivedRelStore)
        requires
            forall|i: int|
                0 <= i < sorters@.len() ==> head_index(head@, (#[trigger] sorters@[i]).0@)
                    < head@.len(),
            forall|i: int|
                0 <= i < original.rows@.len() ==> (#[trigger] original.rows@[i])@.len()
                    == head@.len(),
        ensures
            *final(self) == *old(self),
            exists|p: Seq<int>|
                is_sort_witness(
                    p,
                    row_views(original.rows@),
                    row_views(r.rows@),
                    idx_sorters_spec(head@, sorters@),
                ),
    {
        let width = head.len();
        let ghost ks = idx_sorters_spec(head@, sorters@);
        let mut idx_sorters: Vec<(usize, SortDir)> = Vec::new();
        let mut i: usize = 0;
        while i < sorters.len()
            invariant
                i <= sorters@.len(),
                width == head@.len(),
                forall|k: int|
                    0 <= k < sorters@.len() ==> head_index(head@, (#[trigger] sorters@[k]).0@)
                        < head@.len(),
                idx_sorters@.len() == i as int,
                forall|k: int|
                    0 <= k < i ==> (#[trigger] idx_sorters@[k]).0 as int == head_index(
                        head@,
                        sorters@[k].0@,
                    ) && idx_sorters@[k].1 == sorters@[k].1,
            decreases sorters@.len() - i,
        {
            let hi = find_head_index(head, &sorters[i].0);
            idx_sorters.push((hi, sorters[i].1));
            i += 1;
        }
        proof {
            assert(idx_sorters@.map_values(|s: (usize, SortDir)| (s.0 as int, s.1)) =~= ks);
        }
        let ghost inp = row_views(original.rows@);
        let mut rest: Vec<KeyedRow> = Vec::new();
        let mut i: usize = 0;
        while i < original.rows.len()
            invariant
                i <= original.rows@.len(),
                inp == row_views(original.rows@),
                rest@.len() == i as int,
                forall|k: int|
                    0 <= k < i ==> (#[trigger] rest@[k]).idx == k && rest@[k].row@ == inp[k],
            decreases original.rows@.len() - i,
        {
            rest.push(KeyedRow { row: original.rows[i].dup(), idx: i });
            i += 1;
        }
        let n = rest.len();
        let mut out: Vec<KeyedRow> = Vec::new();
        while out.len() < n
            invariant
                width == head@.len(),
                ks == idx_sorters@.map_values(|s: (usize, SortDir)| (s.0 as int, s.1)),
                forall|k: int| 0 <= k < idx_sorters@.len() ==> (#[trigger] idx_sorters@[k]).0
                    < width,
                n as int == inp.len(),
                out@.len() + rest@.len() == n as int,
                forall|k: int|
                    0 <= k < out@.len() ==> 0 <= (#[trigger] out@[k]).idx < n && out@[k].row@
                        == inp[out@[k].idx as int] && out@[k].row@.len() == width,
                forall|k: int|
                    0 <= k < rest@.len() ==> 0 <= (#[trigger] rest@[k]).idx < n && rest@[k].row@
                        == inp[rest@[k].idx as int] && rest@[k].row@.len() == width,
                forall|k: int, l: int|
                    0 <= k < rest@.len() && 0 <= l < rest@.len() && k != l ==> (
                    #[trigger] rest@[k]).idx != (#[trigger] rest@[l]).idx,
                forall|k: int, l: int|
                    0 <= k < out@.len() && 0 <= l < rest@.len() ==> key_lt(
                        (#[trigger] out@[k]).row@,
                        out@[k].idx as int,
                        (#[trigger] rest@[l]).row@,
                        rest@[l].idx as int,
                        ks,
                    ),
                forall|k: int, l: int|
                    0 <= k < l < out@.len() ==> key_lt(
                        (#[trigger] out@[k]).row@,
                        out@[k].idx as int,
                        (#[trigger] out@[l]).row@,
                        out@[l].idx as int,
                        ks,
                    ),
            decreases n as int - out@.len(),
    {
            let mut mi: usize = 0;
            let mut j: usize = 1;
            proof {
                lemma_key_irrefl(rest@[0].row@, rest@[0].idx as int, ks);
            }
            while j < rest.len()
                invariant
                    rest@.len() > 0,
                    mi < j <= rest@.len(),
                    width == head@.len(),
                    ks == idx_sorters@.map_values(|s: (usize, SortDir)| (s.0 as int, s.1)),
                    forall|k: int| 0 <= k < idx_sorters@.len() ==> (#[trigger] idx_sorters@[k]).0
                        < width,
                    forall|k: int|
                        0 <= k < rest@.len() ==> (#[trigger] rest@[k]).row@.len() == width,
                    forall|k: int, l: int|
                        0 <= k < rest@.len() && 0 <= l < rest@.len() && k != l ==> (
                        #[trigger] rest@[k]).idx != (#[trigger] rest@[l]).idx,
                    forall|k: int|
                        0 <= k < j ==> !key_lt(
                            (#[trigger] rest@[k]).row@,
                            rest@[k].idx as int,
                            rest@[mi as int].row@,
                            rest@[mi as int].idx as int,
                            ks,
                        ),
                decreases rest@.len() - j,
            {
                if keyed_lt(&rest[j], &rest[mi], &idx_sorters, width) {
                    proof {
                        let old_mi = mi as int;
                        assert forall|k: int| 0 <= k < j implies !key_lt(
                            (#[trigger] rest@[k]).row@,
                            rest@[k].idx as int,
                            rest@[j as int].row@,
                            rest@[j as int].idx as int,
                            ks,
                        ) by {
                            if key_lt(
                                rest@[k].row@,
                                rest@[k].idx as int,
                                rest@[j as int].row@,
                                rest@[j as int].idx as int,
                                ks,
                            ) {
                                lemma_key_trans(
                                    rest@[k].row@,
                                    rest@[k].idx as int,
                                    rest@[j as int].row@,
                                    rest@[j as int].idx as int,
                                    rest@[old_mi].row@,
                                    rest@[old_mi].idx as int,
                                    ks,
                                );
                            }
                        }
                    }
                    mi = j;
                }
                proof {
                    lemma_key_irrefl(rest@[j as int].row@, rest@[j as int].idx as int, ks);
                }
                j += 1;
            }
            let chosen = rest.remove(mi);
            proof {
                let ghost rest_old = rest@.insert(mi as int, chosen);
                assert(rest_old.remove(mi as int) =~= rest@);
                assert forall|l: int| 0 <= l < rest@.len() implies key_lt(
                    chosen.row@,
                    chosen.idx as int,
                    (#[trigger] rest@[l]).row@,
                    rest@[l].idx as int,
                    ks,
                ) by {
                    let lo = if l < mi as int {
                        l
                    } else {
                        l + 1
                    };
                    assert(rest@[l] == rest_old[lo]);
                    lemma_key_total(
                        chosen.row@,
                        chosen.idx as int,
                        rest@[l].row@,
                        rest@[l].idx as int,
                        ks,
                    );
                }
            }
            out.push(chosen);
        }
        let mut rows: Vec<Tuple> = Vec::new();
        let mut i: usize = 0;
        while i < out.len()
            invariant
                i <= out@.len(),
                rows@.len() == i as int,
                forall|k: int| 0 <= k < i ==> (#[trigger] rows@[k])@ == out@[k].row@,
            decreases out@.len() - i,
        {
            rows.push(out[i].row.dup());
            i += 1;
        }
        proof {
            let p = Seq::new(out@.len(), |i: int| out@[i].idx as int);
            reveal(is_sort_witness);
            assert(is_sort_witness(p, inp, row_views(rows@), ks));
        }
        let result = DerivedRelStore { rows };
        proof {
            assert(row_views(result.rows@) == row_views(rows@));
            assert(exists|q: Seq<int>|
                is_sort_witness(
                    q,
                    row_views(original.rows@),
                    row_views(result.rows@),
                    idx_sorters_spec(head@, sorters@),
                ));
        }
        result
    }
}

/// Position of a sorter's name in the head row.
fn find_head_index(head: &Vec<Keyword>, kw: &Keyword) -> (r: usize)
    requires
        head_index(head@, kw@) < head@.len(),
    ensures
        r as int == head_index(head@, kw@),
{
    let ghost full = head@;
    let mut i: usize = 0;
    proof {
        assert(full.skip(0) =~= full);
    }
    while i < head.len()
        invariant
            i <= head@.len(),
            head@ == full,
            head_index(full, kw@) < full.len(),
            head_index(full, kw@) == i + head_index(full.skip(i as int), kw@),
        decreases head@.len() - i,
    {
        proof {
            assert(full.skip(i as int)[0] == full[i as int]);
        }
        if kw_eq(&head[i], kw) {
            return i;
        }
        proof {
            assert(full.skip(i as int).drop_first() =~= full.skip(i as int + 1));
        }
        i += 1;
    }
    proof {
        assert(full.skip(full.len() as int).len() == 0);
        assert(false);
    }
    i
}

/// A sort witness never sends two result rows to the same input row.
pub proof fn lemma_witness_injective(
    p: Seq<int>,
    inp: Seq<Seq<DataValue>>,
    outp: Seq<Seq<DataValue>>,
    ks: Seq<(int, SortDir)>,
)
    requires
        is_sort_witness(p, inp, outp, ks),
    ensures
        forall|i: int, j: int| 0 <= i < j < p.len() ==> p[i] != p[j],
{
    reveal(is_sort_witness);
    assert forall|i: int, j: int| 0 <= i < j < p.len() implies p[i] != p[j] by {
        if p[i] == p[j] {
            lemma_key_irrefl(inp[p[i]], p[i], ks);
        }
    }
}

/// When the keyed columns decide, the tie-break positions are irrelevant;
/// when they tie, any ascending pair of positions preserves the order.
proof fn lemma_key_lt_reindex(
    a: Seq<DataValue>,
    ia: int,
    b: Seq<DataValue>,
    ib: int,
    ia2: int,
    ib2: int,
    ks: Seq<(int, SortDir)>,
)
    requires
        key_lt(a, ia, b, ib, ks),
        ia2 < ib2,
    ensures
        key_lt(a, ia2, b, ib2, ks),
    decreases ks.len(),
{
    if ks.len() > 0 {
        if dir_cmp(dv_cmp(a[ks[0].0], b[ks[0].0]), ks[0].1) == Cmp::Eq {
            lemma_key_lt_reindex(a, ia, b, ib, ia2, ib2, ks.drop_first());
        }
    }
}

/// Sorting a second time with the same keys changes nothing: a witnessed
/// sort of a witnessed sort's output returns that output unchanged.
pub proof fn lemma_resort_identity(
    p1: Seq<int>,
    inp: Seq<Seq<DataValue>>,
    mid: Seq<Seq<DataValue>>,
    p2: Seq<int>,
    outp: Seq<Seq<DataValue>>,
    ks: Seq<(int, SortDir)>,
)
    requires
        is_sort_witness(p1, inp, mid, ks),
        is_sort_witness(p2, mid, outp, ks),
    ensures
        outp =~= mid,
{
    reveal(is_sort_witness);
    assert forall|i: int, j: int| 0 <= i < j < mid.len() implies key_lt(
        mid[i],
        i,
        mid[j],
        j,
        ks,
    ) by {
        lemma_key_lt_reindex(inp[p1[i]], p1[i], inp[p1[j]], p1[j], i, j, ks);
    }
    lemma_sort_idempotent(p2, mid, outp, ks);
}

/// Re-sorting preserves the order: if the rows are already strictly sorted
/// at their positions, any witnessed sort of them is the identity.
pub proof fn lemma_sort_idempotent(
    p: Seq<int>,
    inp: Seq<Seq<DataValue>>,
    outp: Seq<Seq<DataValue>>,
    ks: Seq<(int, SortDir)>,
)
    requires
        is_sort_witness(p, inp, outp, ks),
        forall|i: int, j: int| 0 <= i < j < inp.len() ==> key_lt(inp[i], i, inp[j], j, ks),
    ensures
        outp =~= inp,
{
    reveal(is_sort_witness);
    let n = inp.len() as int;
    assert forall|i: int, j: int| 0 <= i < j < n implies p[i] < p[j] by {
        if p[i] > p[j] {
            lemma_key_trans(inp[p[i]], p[i], inp[p[j]], p[j], inp[p[i]], p[i], ks);
            lemma_key_irrefl(inp[p[i]], p[i], ks);
        }
        if p[i] == p[j] {
            lemma_key_irrefl(inp[p[i]], p[i], ks);
        }
    }
    assert forall|i: int| 0 <= i < n implies p[i] == i by {
        lemma_incr_ge(p, i, n);
        lemma_incr_le(p, i, n);
    }
}

/// A strictly increasing sequence of `n` values below `n` sits at or above
/// its position.
proof fn lemma_incr_ge(p: Seq<int>, i: int, n: int)
    requires
        p.len() == n,
        0 <= i < n,
        forall|a: int, b: int| 0 <= a < b < n ==> p[a] < p[b],
        forall|a: int| 0 <= a < n ==> 0 <= #[trigger] p[a] < n,
    ensures
        p[i] >= i,
    decreases i,
{
    if i > 0 {
        lemma_incr_ge(p, i - 1, n);
    }
}

/// ... and at or below it.
proof fn lemma_incr_le(p: Seq<int>, i: int, n: int)
    requires
        p.len() == n,
        0 <= i < n,
        forall|a: int, b: int| 0 <= a < b < n ==> p[a] < p[b],
        forall|a: int| 0 <= a < n ==> 0 <= #[trigger] p[a] < n,
    ensures
        p[i] <= i,
    decreases n - i,
{
    if i < n - 1 {
        lemma_incr_le(p, i + 1, n);
    }
}

} // verus!
