//! Lookups over the decoded registry.
//!
//! A later record with the same code replaces an earlier one, so every
//! lookup answers with the last record of a section that carries the code.
//! Operation candidates for a CRS pair are gathered from the operations
//! that join the pair's CRS codes (either way round) and then the pair's
//! datum codes (either way round), each group in ascending id order, with
//! no id repeated.

use vstd::prelude::*;
use crate::error::Error;
use crate::operation::{CoordinateOperationId, OperationEndpoints, OperationStep, OperationStepDirection};
use crate::text::{
    append_decimal, append_str, decimal, eq_ignore_ascii_case, eq_ignore_ascii_case_spec, parse_u32,
    parse_u32_spec, split_once, split_once_spec, str_trim, trim,
};
use crate::registry_format::{
    DatumRecord, EllipsoidRecord, ExtentModel, ExtentRecord, GeographicModel, GeographicRecord,
    GridModel, GridRecord, OperationMethodModel, OperationMethodRecord, OperationModel,
    OperationRecord, ProjectedModel, ProjectedRecord, RegistryDb, RegistryModel,
};

verus! {

/// Records that carry a registry code.
pub trait Keyed: View + Sized {
    spec fn spec_key(m: Self::V) -> u32;

    fn key(&self) -> (k: u32)
        ensures
            k == Self::spec_key(self@),
    ;
}

impl Keyed for EllipsoidRecord {
    open spec fn spec_key(m: EllipsoidRecord) -> u32 {
        m.code
    }

    fn key(&self) -> (k: u32) {
        self.code
    }
}

impl Keyed for DatumRecord {
    open spec fn spec_key(m: DatumRecord) -> u32 {
        m.code
    }

    fn key(&self) -> (k: u32) {
        self.code
    }
}

impl Keyed for GeographicRecord {
    open spec fn spec_key(m: GeographicModel) -> u32 {
        m.code
    }

    fn key(&self) -> (k: u32) {
        self.code
    }
}

impl Keyed for ProjectedRecord {
    open spec fn spec_key(m: ProjectedModel) -> u32 {
        m.code
    }

    fn key(&self) -> (k: u32) {
        self.code
    }
}

impl Keyed for ExtentRecord {
    open spec fn spec_key(m: ExtentModel) -> u32 {
        m.code
    }

    fn key(&self) -> (k: u32) {
        self.code
    }
}

impl Keyed for GridRecord {
    open spec fn spec_key(m: GridModel) -> u32 {
        m.id.0
    }

    fn key(&self) -> (k: u32) {
        self.id.0
    }
}

impl Keyed for OperationRecord {
    open spec fn spec_key(m: OperationModel) -> u32 {
        m.id.0
    }

    fn key(&self) -> (k: u32) {
        self.id.0
    }
}

/// The last record of `s` whose key is `code`.
pub open spec fn lookup_last<R: Keyed>(s: Seq<R::V>, code: u32) -> Option<R::V>
    decreases s.len(),
{
    if s.len() == 0 {
        None
    } else if R::spec_key(s.last()) == code {
        Some(s.last())
    } else {
        lookup_last::<R>(s.drop_last(), code)
    }
}

pub open spec fn opt_view<R: View>(r: Option<&R>) -> Option<R::V> {
    match r {
        Some(x) => Some(x@),
        None => None,
    }
}

/// The last record of `v` with key `code`.
pub fn find_last<R: Keyed>(v: &Vec<R>, code: u32) -> (r: Option<&R>)
    ensures
        opt_view(r) == lookup_last::<R>(v@.map_values(|x: R| x@), code),
{
    let ghost m = v@.map_values(|x: R| x@);
    let mut i: usize = v.len();
    assert(m.take(v@.len() as int) =~= m);
    while i > 0
        invariant
            i <= v@.len(),
            m == v@.map_values(|x: R| x@),
            lookup_last::<R>(m, code) == lookup_last::<R>(m.take(i as int), code),
        decreases i,
    {
        assert(m.take(i as int).drop_last() =~= m.take(i - 1));
        if v[i - 1].key() == code {
            return Some(&v[i - 1]);
        }
        i = i - 1;
    }
    assert(m.take(0) =~= Seq::<R::V>::empty());
    None
}

/// Ids of the registry operations, ascending, whose effective record joins
/// `a` to `b` (CRS codes, or datum codes when `by_datum`).
pub open spec fn pair_matches(m: OperationModel, by_datum: bool, a: u32, b: u32) -> bool {
    if by_datum {
        m.source_datum_epsg == Some(a) && m.target_datum_epsg == Some(b)
    } else {
        m.source_crs_epsg == Some(a) && m.target_crs_epsg == Some(b)
    }
}

/// Position `p` holds the record that stands for its id: no later record
/// has the same id.
pub open spec fn effective(ops: Seq<OperationModel>, p: int) -> bool {
    forall|q: int| p < q < ops.len() ==> ops[q].id != ops[p].id
}

pub open spec fn index_hit(ops: Seq<OperationModel>, by_datum: bool, a: u32, b: u32, x: u32) -> bool {
    exists|p: int|
        0 <= p < ops.len() && #[trigger] ops[p].id.0 == x && effective(ops, p) && pair_matches(
            ops[p],
            by_datum,
            a,
            b,
        )
}

pub open spec fn strictly_increasing(s: Seq<u32>) -> bool {
    forall|i: int, j: int| 0 <= i < j < s.len() ==> s[i] < s[j]
}

pub open spec fn is_index_hits(
    s: Seq<u32>,
    ops: Seq<OperationModel>,
    by_datum: bool,
    a: u32,
    b: u32,
) -> bool {
    strictly_increasing(s) && forall|x: u32| s.contains(x) <==> index_hit(ops, by_datum, a, b, x)
}

/// The ascending sequence of index hits.
pub open spec fn index_hits(ops: Seq<OperationModel>, by_datum: bool, a: u32, b: u32) -> Seq<u32> {
    choose|s: Seq<u32>| is_index_hits(s, ops, by_datum, a, b)
}

/// The values below `n` that satisfy `pred`, in ascending order.
pub open spec fn ascending_below(pred: spec_fn(u32) -> bool, n: nat) -> Seq<u32>
    decreases n,
{
    if n == 0 {
        Seq::empty()
    } else {
        let prev = ascending_below(pred, (n - 1) as nat);
        if pred((n - 1) as u32) {
            prev.push((n - 1) as u32)
        } else {
            prev
        }
    }
}

proof fn lemma_ascending_below(pred: spec_fn(u32) -> bool, n: nat)
    requires
        n <= 0x1_0000_0000,
    ensures
        strictly_increasing(ascending_below(pred, n)),
        forall|i: int| 0 <= i < ascending_below(pred, n).len() ==> ascending_below(pred, n)[i] < n,
        forall|x: u32| ascending_below(pred, n).contains(x) <==> (x < n && pred(x)),
    decreases n,
{
    if n > 0 {
        let m = (n - 1) as nat;
        lemma_ascending_below(pred, m);
        let prev = ascending_below(pred, m);
        let y = m as u32;
        assert(y == m);
        if pred(y) {
            let s = prev.push(y);
            assert forall|x: u32| s.contains(x) <==> (x < n && pred(x)) by {
                if s.contains(x) && x != y {
                    let i = choose|i: int| 0 <= i < s.len() && s[i] == x;
                    assert(prev[i] == x);
                    assert(prev.contains(x));
                }
                if x < n && pred(x) && x != y {
                    assert(prev.contains(x));
                    let i = choose|i: int| 0 <= i < prev.len() && prev[i] == x;
                    assert(s[i] == x);
                }
                if x == y {
                    assert(s[prev.len() as int] == x);
                }
            }
        } else {
            assert forall|x: u32| prev.contains(x) <==> (x < n && pred(x)) by {
                if x < n && pred(x) {
                    assert(x != y);
                }
            }
        }
    }
}

/// The ascending index hits exist: `index_hits` is strictly increasing and
/// holds exactly the ids of the operations that stand for their id and
/// join the pair.
pub proof fn lemma_index_hits_exist(ops: Seq<OperationModel>, by_datum: bool, a: u32, b: u32)
    ensures
        is_index_hits(index_hits(ops, by_datum, a, b), ops, by_datum, a, b),
{
    let pred = |x: u32| index_hit(ops, by_datum, a, b, x);
    lemma_ascending_below(pred, 0x1_0000_0000);
    let w = ascending_below(pred, 0x1_0000_0000);
    assert(is_index_hits(w, ops, by_datum, a, b));
}

/// `ids` followed by the elements of `hits` it does not hold yet, in order.
pub open spec fn extend_unique(ids: Seq<u32>, hits: Seq<u32>) -> Seq<u32>
    decreases hits.len(),
{
    if hits.len() == 0 {
        ids
    } else {
        let prev = extend_unique(ids, hits.drop_last());
        if prev.contains(hits.last()) {
            prev
        } else {
            prev.push(hits.last())
        }
    }
}

/// The datum of a CRS: the geographic record's datum, else the projected
/// record's datum.
pub open spec fn datum_code_for_crs_spec(db: RegistryModel, code: u32) -> Option<u32> {
    match lookup_last::<GeographicRecord>(db.geographic_crs, code) {
        Some(g) => Some(g.datum_code),
        None => match lookup_last::<ProjectedRecord>(db.projected_crs, code) {
            Some(p) => Some(p.datum_code),
            None => None,
        },
    }
}

/// Operation ids related to a pair of base geographic CRS codes. With
/// `both_ways`, operations in the reverse direction are included.
pub open spec fn operation_ids_spec(
    db: RegistryModel,
    source_geo: Option<u32>,
    target_geo: Option<u32>,
    both_ways: bool,
) -> Seq<u32> {
    match (source_geo, target_geo) {
        (Some(s), Some(t)) => {
            let ops = db.operations;
            let fwd = extend_unique(Seq::empty(), index_hits(ops, false, s, t));
            let crs_ids = if both_ways {
                extend_unique(fwd, index_hits(ops, false, t, s))
            } else {
                fwd
            };
            match (datum_code_for_crs_spec(db, s), datum_code_for_crs_spec(db, t)) {
                (Some(sd), Some(td)) => {
                    let with_datum = extend_unique(crs_ids, index_hits(ops, true, sd, td));
                    if both_ways {
                        extend_unique(with_datum, index_hits(ops, true, td, sd))
                    } else {
                        with_datum
                    }
                },
                _ => crs_ids,
            }
        },
        _ => Seq::empty(),
    }
}

/// Two strictly increasing sequences with the same elements are equal.
pub proof fn lemma_strictly_increasing_unique(s1: Seq<u32>, s2: Seq<u32>)
    requires
        strictly_increasing(s1),
        strictly_increasing(s2),
        forall|x: u32| s1.contains(x) <==> s2.contains(x),
    ensures
        s1 == s2,
    decreases s1.len() + s2.len(),
{
    if s1.len() == 0 {
        if s2.len() > 0 {
            assert(s2.contains(s2[0]));
        }
        assert(s1 =~= s2);
    } else if s2.len() == 0 {
        assert(s1.contains(s1[0]));
    } else {
        assert(s1.contains(s1[0]));
        assert(s2.contains(s2[0]));
        let i1 = choose|i: int| 0 <= i < s2.len() && s2[i] == s1[0];
        let i2 = choose|i: int| 0 <= i < s1.len() && s1[i] == s2[0];
        assert(s1[0] == s2[0]) by {
            if i1 > 0 {
                assert(s2[0] < s2[i1]);
            }
            if i2 > 0 {
                assert(s1[0] < s1[i2]);
            }
        }
        let t1 = s1.drop_first();
        let t2 = s2.drop_first();
        assert forall|x: u32| t1.contains(x) <==> t2.contains(x) by {
            if t1.contains(x) {
                let k = choose|k: int| 0 <= k < t1.len() && t1[k] == x;
                assert(s1[k + 1] == x);
                assert(s1.contains(x));
                let j = choose|j: int| 0 <= j < s2.len() && s2[j] == x;
                assert(s1[0] < x);
                assert(j != 0);
                assert(t2[j - 1] == x);
            }
            if t2.contains(x) {
                let k = choose|k: int| 0 <= k < t2.len() && t2[k] == x;
                assert(s2[k + 1] == x);
                assert(s2.contains(x));
                let j = choose|j: int| 0 <= j < s1.len() && s1[j] == x;
                assert(s2[0] < x);
                assert(j != 0);
                assert(t1[j - 1] == x);
            }
        }
        lemma_strictly_increasing_unique(t1, t2);
        assert(s1 =~= s2) by {
            assert forall|i: int| 0 <= i < s1.len() implies s1[i] == s2[i] by {
                if i > 0 {
                    assert(t1[i - 1] == s1[i]);
                    assert(t2[i - 1] == s2[i]);
                }
            }
        }
    }
}

/// Inserts `x` into a strictly increasing vector unless it is present.
pub(crate) fn insert_sorted(v: &mut Vec<u32>, x: u32)
    requires
        strictly_increasing(old(v)@),
    ensures
        strictly_increasing(final(v)@),
        forall|y: u32| final(v)@.contains(y) <==> (old(v)@.contains(y) || y == x),
{
    let ghost old_v = v@;
    let mut k: usize = 0;
    while k < v.len() && v[k] < x
        invariant
            k <= v@.len(),
            v@ == old_v,
            strictly_increasing(old_v),
            forall|i: int| 0 <= i < k ==> old_v[i] < x,
        decreases v.len() - k,
    {
        k = k + 1;
    }
    if k < v.len() && v[k] == x {
        assert(old_v.contains(x));
        return;
    }
    v.insert(k, x);
    proof {
        old_v.insert_ensures(k as int, x);
    }
    assert(v@.len() == old_v.len() + 1);
    assert(forall|i: int| 0 <= i < k ==> v@[i] == old_v[i]);
    assert(forall|i: int| k <= i < old_v.len() ==> v@[i + 1] == old_v[i]);
    assert(v@[k as int] == x);
    assert(strictly_increasing(v@)) by {
        assert forall|i: int, j: int| 0 <= i < j < v@.len() implies v@[i] < v@[j] by {
            if j < k {
            } else if j == k {
            } else if i < k {
                assert(v@[j] == old_v[j - 1]);
                assert(old_v[k as int] > x || old_v[k as int] >= x);
                if j - 1 > k {
                    assert(old_v[k as int] < old_v[j - 1]);
                }
            } else if i == k {
                assert(v@[j] == old_v[j - 1]);
                if j - 1 > k {
                    assert(old_v[k as int] < old_v[j - 1]);
                }
            } else {
                assert(v@[i] == old_v[i - 1]);
                assert(v@[j] == old_v[j - 1]);
            }
        }
    }
    assert forall|y: u32| v@.contains(y) <==> (old_v.contains(y) || y == x) by {
        if v@.contains(y) {
            let i = choose|i: int| 0 <= i < v@.len() && v@[i] == y;
            if i < k {
                assert(old_v[i] == y);
                assert(old_v.contains(y));
            } else if i > k {
                assert(v@[(i - 1) + 1] == old_v[i - 1]);
                assert(old_v[i - 1] == y);
                assert(old_v.contains(y));
            }
        }
        if old_v.contains(y) {
            let i = choose|i: int| 0 <= i < old_v.len() && old_v[i] == y;
            if i < k {
                assert(v@[i] == y);
            } else {
                assert(v@[i + 1] == y);
            }
        }
        if y == x {
            assert(v@[k as int] == x);
        }
    }
}

/// Appends the elements of `hits` that `ids` does not hold yet, in order.
pub fn extend_index_hits(ids: &mut Vec<u32>, hits: &Vec<u32>)
    ensures
        final(ids)@ == extend_unique(old(ids)@, hits@),
{
    let ghost start = ids@;
    let mut i: usize = 0;
    while i < hits.len()
        invariant
            i <= hits@.len(),
            ids@ == extend_unique(start, hits@.take(i as int)),
        decreases hits.len() - i,
    {
        let h = hits[i];
        assert(hits@.take(i + 1).drop_last() =~= hits@.take(i as int));
        assert(hits@.take(i + 1).last() == h);
        let mut present = false;
        let mut j: usize = 0;
        while j < ids.len()
            invariant
                j <= ids@.len(),
                present == (exists|k: int| 0 <= k < j && ids@[k] == h),
            decreases ids.len() - j,
        {
            if ids[j] == h {
                present = true;
            }
            j = j + 1;
        }
        if !present {
            ids.push(h);
        }
        i = i + 1;
    }
    assert(hits@.take(hits@.len() as int) =~= hits@);
}

impl RegistryDb {
    pub fn lookup_ellipsoid(&self, code: u32) -> (r: Option<&EllipsoidRecord>)
        ensures
            opt_view(r) == lookup_last::<EllipsoidRecord>(self@.ellipsoids, code),
    {
        find_last(&self.ellipsoids, code)
    }

    /// The datum with EPSG code `code`.
    pub fn lookup_datum(&self, code: u32) -> (r: Option<&DatumRecord>)
        ensures
            opt_view(r) == lookup_last::<DatumRecord>(self@.datums, code),
    {
        find_last(&self.datums, code)
    }

    /// The geographic CRS with EPSG code `code`.
    pub fn lookup_geographic(&self, code: u32) -> (r: Option<&GeographicRecord>)
        ensures
            opt_view(r) == lookup_last::<GeographicRecord>(self@.geographic_crs, code),
    {
        find_last(&self.geographic_crs, code)
    }

    /// The projected CRS with EPSG code `code`.
    pub fn lookup_projected(&self, code: u32) -> (r: Option<&ProjectedRecord>)
        ensures
            opt_view(r) == lookup_last::<ProjectedRecord>(self@.projected_crs, code),
    {
        find_last(&self.projected_crs, code)
    }

    pub fn lookup_extent(&self, code: u32) -> (r: Option<&ExtentRecord>)
        ensures
            opt_view(r) == lookup_last::<ExtentRecord>(self@.extents, code),
    {
        find_last(&self.extents, code)
    }

    /// The grid definition with id `id`.
    pub fn lookup_grid(&self, id: u32) -> (r: Option<&GridRecord>)
        ensures
            opt_view(r) == lookup_last::<GridRecord>(self@.grids, id),
    {
        find_last(&self.grids, id)
    }

    /// The coordinate operation with id `id`.
    pub fn lookup_operation(&self, id: u32) -> (r: Option<&OperationRecord>)
        ensures
            opt_view(r) == lookup_last::<OperationRecord>(self@.operations, id),
    {
        find_last(&self.operations, id)
    }

    /// The area of use of a grid: none for area code 0, else the extent the
    /// code names, if the registry has it.
    pub fn grid_area_of_use(&self, grid: &GridRecord) -> (r: Option<&ExtentRecord>)
        ensures
            opt_view(r) == (if grid.area_code == 0 {
                None
            } else {
                lookup_last::<ExtentRecord>(self@.extents, grid.area_code)
            }),
    {
        if grid.area_code == 0 {
            None
        } else {
            self.lookup_extent(grid.area_code)
        }
    }

    /// The datum code of a geographic or projected CRS.
    pub fn lookup_datum_code_for_crs(&self, code: u32) -> (r: Option<u32>)
        ensures
            r == datum_code_for_crs_spec(self@, code),
    {
        match self.lookup_geographic(code) {
            Some(g) => Some(g.datum_code),
            None => match self.lookup_projected(code) {
                Some(p) => Some(p.datum_code),
                None => None,
            },
        }
    }

    fn is_effective_operation(&self, p: usize) -> (r: bool)
        requires
            p < self.operations@.len(),
        ensures
            r == effective(self@.operations, p as int),
    {
        let ghost ops = self@.operations;
        let id = self.operations[p].id.0;
        let n = self.operations.len();
        let mut q = p + 1;
        while q < self.operations.len()
            invariant
                p < q <= self.operations@.len(),
                ops == self@.operations,
                id == ops[p as int].id.0,
                forall|k: int| p < k < q ==> ops[k].id != ops[p as int].id,
            decreases self.operations.len() - q,
        {
            if self.operations[q].id.0 == id {
                assert(ops[q as int].id == ops[p as int].id);
                return false;
            }
            q = q + 1;
        }
        true
    }

    /// Ascending ids of the effective operations that join `a` to `b`.
    pub fn index_hits(&self, by_datum: bool, a: u32, b: u32) -> (r: Vec<u32>)
        ensures
            r@ == index_hits(self@.operations, by_datum, a, b),
    {
        let ghost ops = self@.operations;
        let mut out: Vec<u32> = Vec::new();
        let mut p: usize = 0;
        while p < self.operations.len()
            invariant
                p <= ops.len(),
                ops == self@.operations,
                strictly_increasing(out@),
                forall|x: u32|
                    out@.contains(x) <==> exists|q: int|
                        0 <= q < p && #[trigger] ops[q].id.0 == x && effective(ops, q) && pair_matches(
                            ops[q],
                            by_datum,
                            a,
                            b,
                        ),
            decreases self.operations.len() - p,
        {
            let op = &self.operations[p];
            let matches = if by_datum {
                op.source_datum_epsg == Some(a) && op.target_datum_epsg == Some(b)
            } else {
                op.source_crs_epsg == Some(a) && op.target_crs_epsg == Some(b)
            };
            assert(matches == pair_matches(ops[p as int], by_datum, a, b));
            let ghost before = out@;
            if matches && self.is_effective_operation(p) {
                insert_sorted(&mut out, op.id.0);
            }
            assert forall|x: u32|
                out@.contains(x) <==> exists|q: int|
                    0 <= q < p + 1 && #[trigger] ops[q].id.0 == x && effective(ops, q)
                        && pair_matches(ops[q], by_datum, a, b) by {
                if out@.contains(x) && !before.contains(x) {
                    assert(ops[p as int].id.0 == x);
                }
                if exists|q: int|
                    0 <= q < p + 1 && #[trigger] ops[q].id.0 == x && effective(ops, q)
                        && pair_matches(ops[q], by_datum, a, b) {
                    let q = choose|q: int|
                        0 <= q < p + 1 && #[trigger] ops[q].id.0 == x && effective(ops, q)
                            && pair_matches(ops[q], by_datum, a, b);
                    if q < p {
                        assert(before.contains(x));
                    }
                }
            }
            p = p + 1;
        }
        proof {
            assert(is_index_hits(out@, ops, by_datum, a, b));
            let c = index_hits(ops, by_datum, a, b);
            assert(is_index_hits(c, ops, by_datum, a, b));
            lemma_strictly_increasing_unique(out@, c);
        }
        out
    }

    fn operation_ids(&self, source_geo: Option<u32>, target_geo: Option<u32>, both_ways: bool) -> (r: Vec<u32>)
        ensures
            r@ == operation_ids_spec(self@, source_geo, target_geo, both_ways),
    {
        match (source_geo, target_geo) {
            (Some(s), Some(t)) => {
                let source_datum = self.lookup_datum_code_for_crs(s);
                let target_datum = self.lookup_datum_code_for_crs(t);
                let mut ids: Vec<u32> = Vec::new();
                let hits = self.index_hits(false, s, t);
                extend_index_hits(&mut ids, &hits);
                if both_ways {
                    let hits = self.index_hits(false, t, s);
                    extend_index_hits(&mut ids, &hits);
                }
                match (source_datum, target_datum) {
                    (Some(sd), Some(td)) => {
                        let hits = self.index_hits(true, sd, td);
                        extend_index_hits(&mut ids, &hits);
                        if both_ways {
                            let hits = self.index_hits(true, td, sd);
                            extend_index_hits(&mut ids, &hits);
                        }
                    },
                    _ => {},
                }
                ids
            },
            _ => Vec::new(),
        }
    }

    /// Ids of the operations between two base geographic CRS codes, in
    /// either direction: CRS-pair matches first, then datum-pair matches.
    pub fn related_operation_ids(&self, source_geo: Option<u32>, target_geo: Option<u32>) -> (r: Vec<u32>)
        ensures
            r@ == operation_ids_spec(self@, source_geo, target_geo, true),
    {
        self.operation_ids(source_geo, target_geo, true)
    }

    /// Ids of the operations that run from the source to the target base
    /// geographic CRS: CRS-pair matches first, then datum-pair matches.
    pub fn forward_operation_ids(&self, source_geo: Option<u32>, target_geo: Option<u32>) -> (r: Vec<u32>)
        ensures
            r@ == operation_ids_spec(self@, source_geo, target_geo, false),
    {
        self.operation_ids(source_geo, target_geo, false)
    }
}


// ---------------------------------------------------------------------------
// Grid usage of operations
// ---------------------------------------------------------------------------

/// Number of positions of `ops` whose id is not on `path`.
pub open spec fn unvisited_count(ops: Seq<OperationModel>, path: Seq<u32>) -> nat
    decreases ops.len(),
{
    if ops.len() == 0 {
        0
    } else {
        unvisited_count(ops.drop_last(), path) + if path.contains(ops.last().id.0) {
            0nat
        } else {
            1nat
        }
    }
}

/// Putting an id on the path never adds unvisited positions, and removes at
/// least one when some operation carries that id and it was not on the path.
pub proof fn lemma_unvisited_count_push(ops: Seq<OperationModel>, path: Seq<u32>, x: u32)
    ensures
        unvisited_count(ops, path.push(x)) <= unvisited_count(ops, path),
        (!path.contains(x) && exists|p: int| 0 <= p < ops.len() && ops[p].id.0 == x)
            ==> unvisited_count(ops, path.push(x)) < unvisited_count(ops, path),
    decreases ops.len(),
{
    if ops.len() > 0 {
        let init = ops.drop_last();
        lemma_unvisited_count_push(init, path, x);
        let l = ops.last();
        assert(path.push(x).contains(l.id.0) <==> (path.contains(l.id.0) || l.id.0 == x)) by {
            if path.push(x).contains(l.id.0) {
                let k = choose|k: int| 0 <= k < path.push(x).len() && path.push(x)[k] == l.id.0;
                if k < path.len() {
                    assert(path[k] == l.id.0);
                }
            }
            if path.contains(l.id.0) {
                let k = choose|k: int| 0 <= k < path.len() && path[k] == l.id.0;
                assert(path.push(x)[k] == l.id.0);
            }
            if l.id.0 == x {
                assert(path.push(x)[path.len() as int] == x);
            }
        }
        if !path.contains(x) && exists|p: int| 0 <= p < ops.len() && ops[p].id.0 == x {
            let p = choose|p: int| 0 <= p < ops.len() && ops[p].id.0 == x;
            if p < ops.len() - 1 {
                assert(init[p].id.0 == x);
            }
        }
    }
}

/// A record that `lookup_last` finds stands in the sequence under its key.
pub proof fn lemma_lookup_last_found<R: Keyed>(s: Seq<R::V>, code: u32)
    ensures
        lookup_last::<R>(s, code) matches Some(m) ==> exists|p: int|
            0 <= p < s.len() && s[p] == m && R::spec_key(s[p]) == code,
    decreases s.len(),
{
    if s.len() > 0 {
        lemma_lookup_last_found::<R>(s.drop_last(), code);
        if R::spec_key(s.last()) != code {
            if let Some(m) = lookup_last::<R>(s.drop_last(), code) {
                let p = choose|p: int|
                    0 <= p < s.drop_last().len() && s.drop_last()[p] == m && R::spec_key(
                        s.drop_last()[p],
                    ) == code;
                assert(s[p] == m);
            }
        } else {
            assert(s[s.len() - 1] == s.last());
        }
    }
}

/// Whether an operation method depends on grid files: a grid shift does; a
/// concatenation does when one of its steps does.
pub open spec fn method_uses_grids(
    ops: Seq<OperationModel>,
    method: OperationMethodModel,
    path: Seq<u32>,
) -> bool
    decreases unvisited_count(ops, path), 2nat, 0nat,
{
    match method {
        OperationMethodModel::GridShift { .. } => true,
        OperationMethodModel::Concatenated(steps) => steps_use_grids(ops, steps, path, steps.len()),
        _ => false,
    }
}

/// Whether one of the first `n` steps depends on grid files.
pub open spec fn steps_use_grids(
    ops: Seq<OperationModel>,
    steps: Seq<OperationStep>,
    path: Seq<u32>,
    n: nat,
) -> bool
    decreases unvisited_count(ops, path), 1nat, n,
{
    if n == 0 || n > steps.len() {
        false
    } else {
        steps_use_grids(ops, steps, path, (n - 1) as nat) || step_uses_grids(
            ops,
            steps[n - 1].operation_id.0,
            path,
        )
    }
}

/// Whether the step naming operation `id` depends on grid files, `path`
/// holding the operations already being expanded: a step that repeats one of
/// them, or names no registry operation, does not.
pub open spec fn step_uses_grids(ops: Seq<OperationModel>, id: u32, path: Seq<u32>) -> bool
    decreases unvisited_count(ops, path), 0nat, 0nat,
{
    if path.contains(id) {
        false
    } else {
        match lookup_last::<OperationRecord>(ops, id) {
            None => false,
            Some(m) => {
                proof {
                    lemma_lookup_last_found::<OperationRecord>(ops, id);
                    lemma_unvisited_count_push(ops, path, id);
                }
                method_uses_grids(ops, m.method, path.push(id))
            },
        }
    }
}

proof fn lemma_steps_use_grids_monotone(
    ops: Seq<OperationModel>,
    steps: Seq<OperationStep>,
    path: Seq<u32>,
    n: nat,
    m: nat,
)
    requires
        n <= m <= steps.len(),
        steps_use_grids(ops, steps, path, n),
    ensures
        steps_use_grids(ops, steps, path, m),
    decreases m - n,
{
    if n < m {
        lemma_steps_use_grids_monotone(ops, steps, path, n, (m - 1) as nat);
    }
}

fn path_contains(path: &Vec<u32>, id: u32) -> (r: bool)
    ensures
        r == path@.contains(id),
{
    let mut i: usize = 0;
    while i < path.len()
        invariant
            i <= path@.len(),
            forall|k: int| 0 <= k < i ==> path@[k] != id,
        decreases path.len() - i,
    {
        if path[i] == id {
            return true;
        }
        i = i + 1;
    }
    false
}

impl RegistryDb {
    fn method_uses_grids_on_path(&self, method: &OperationMethodRecord, path: &mut Vec<u32>) -> (r:
        bool)
        ensures
            r == method_uses_grids(self@.operations, method@, old(path)@),
            final(path)@ == old(path)@,
        decreases unvisited_count(self@.operations, old(path)@), 2nat, 0nat,
    {
        match method {
            OperationMethodRecord::GridShift { .. } => true,
            OperationMethodRecord::Concatenated(steps) => {
                let ghost ops = self@.operations;
                let ghost start = path@;
                let mut i: usize = 0;
                while i < steps.len()
                    invariant
                        i <= steps@.len(),
                        ops == self@.operations,
                        path@ == start,
                        start == old(path)@,
                        method@ == OperationMethodModel::Concatenated(steps@),
                        !steps_use_grids(ops, steps@, start, i as nat),
                    decreases steps.len() - i,
                {
                    let id = steps[i].operation_id.0;
                    if self.step_uses_grids_on_path(id, path) {
                        assert(steps_use_grids(ops, steps@, start, (i + 1) as nat));
                        proof {
                            lemma_steps_use_grids_monotone(
                                ops,
                                steps@,
                                start,
                                (i + 1) as nat,
                                steps@.len(),
                            );
                        }
                        return true;
                    }
                    i = i + 1;
                }
                false
            },
            _ => false,
        }
    }

    fn step_uses_grids_on_path(&self, id: u32, path: &mut Vec<u32>) -> (r: bool)
        ensures
            r == step_uses_grids(self@.operations, id, old(path)@),
            final(path)@ == old(path)@,
        decreases unvisited_count(self@.operations, old(path)@), 0nat, 0nat,
    {
        if path_contains(path, id) {
            return false;
        }
        match self.lookup_operation(id) {
            None => false,
            Some(op) => {
                proof {
                    lemma_lookup_last_found::<OperationRecord>(self@.operations, id);
                    lemma_unvisited_count_push(self@.operations, path@, id);
                }
                path.push(id);
                let r = self.method_uses_grids_on_path(&op.method, path);
                path.pop();
                assert(path@ =~= old(path)@);
                r
            },
        }
    }

    /// Whether a registry operation depends on grid files: a grid shift
    /// does, and so does a concatenation with a step that names a registry
    /// operation that does. A step that names an operation already being
    /// expanded counts as not using grids, so cyclic concatenations end.
    pub fn operation_uses_grids(&self, op: &OperationRecord) -> (r: bool)
        ensures
            r == method_uses_grids(self@.operations, op@.method, Seq::empty()),
    {
        let mut path: Vec<u32> = Vec::new();
        self.method_uses_grids_on_path(&op.method, &mut path)
    }
}

// ---------------------------------------------------------------------------
// Operation metadata
// ---------------------------------------------------------------------------

/// What a registry operation reports about itself when it runs in one
/// direction. Accuracy is in metres, as raw `f64` bits; `area_code` names
/// the first area of use.
#[derive(Debug)]
pub struct CoordinateOperationMetadata {
    pub id: Option<CoordinateOperationId>,
    pub name: Vec<u8>,
    pub direction: OperationStepDirection,
    pub endpoints: OperationEndpoints,
    pub accuracy_bits: Option<u64>,
    pub area_code: Option<u32>,
    pub deprecated: bool,
    pub preferred: bool,
    pub approximate: bool,
    pub uses_grids: bool,
}

/// The endpoints an operation record carries, in its forward direction.
pub open spec fn record_endpoints(m: OperationModel) -> OperationEndpoints {
    OperationEndpoints {
        source_crs_epsg: m.source_crs_epsg,
        target_crs_epsg: m.target_crs_epsg,
        source_datum_epsg: m.source_datum_epsg,
        target_datum_epsg: m.target_datum_epsg,
    }
}

/// The metadata of `m` run in `direction`, its name aside.
pub open spec fn metadata_matches(
    r: CoordinateOperationMetadata,
    ops: Seq<OperationModel>,
    m: OperationModel,
    direction: OperationStepDirection,
) -> bool {
    &&& r.id == Some(m.id)
    &&& r.name@ == m.name
    &&& r.direction == direction
    &&& r.endpoints == record_endpoints(m).spec_for_direction(direction)
    &&& r.accuracy_bits == m.accuracy_bits
    &&& r.area_code == (if m.area_codes.len() > 0 {
        Some(m.area_codes[0])
    } else {
        None
    })
    &&& r.deprecated == m.deprecated
    &&& r.preferred == m.preferred
    &&& r.approximate == m.approximate
    &&& r.uses_grids == method_uses_grids(ops, m.method, Seq::empty())
}

fn copy_bytes(v: &Vec<u8>) -> (r: Vec<u8>)
    ensures
        r@ == v@,
{
    let mut out: Vec<u8> = Vec::new();
    let mut i: usize = 0;
    while i < v.len()
        invariant
            i <= v@.len(),
            out@ == v@.take(i as int),
        decreases v.len() - i,
    {
        out.push(v[i]);
        i = i + 1;
        assert(out@ =~= v@.take(i as int));
    }
    assert(v@.take(v@.len() as int) =~= v@);
    out
}

impl RegistryDb {
    /// The metadata of a registry operation when it runs in `direction`: a
    /// reverse run swaps the source and target CRS and datum codes.
    pub fn operation_metadata_for_direction(
        &self,
        op: &OperationRecord,
        direction: OperationStepDirection,
    ) -> (r: CoordinateOperationMetadata)
        ensures
            metadata_matches(r, self@.operations, op@, direction),
    {
        let forward = OperationEndpoints {
            source_crs_epsg: op.source_crs_epsg,
            target_crs_epsg: op.target_crs_epsg,
            source_datum_epsg: op.source_datum_epsg,
            target_datum_epsg: op.target_datum_epsg,
        };
        let area_code = if op.area_codes.len() > 0 {
            Some(op.area_codes[0])
        } else {
            None
        };
        CoordinateOperationMetadata {
            id: Some(op.id),
            name: copy_bytes(&op.name),
            direction,
            endpoints: forward.for_direction(direction),
            accuracy_bits: op.accuracy_bits,
            area_code,
            deprecated: op.deprecated,
            preferred: op.preferred,
            approximate: op.approximate,
            uses_grids: self.operation_uses_grids(op),
        }
    }

    /// The metadata of a registry operation in its forward direction.
    pub fn operation_metadata(&self, op: &OperationRecord) -> (r: CoordinateOperationMetadata)
        ensures
            metadata_matches(r, self@.operations, op@, OperationStepDirection::Forward),
    {
        self.operation_metadata_for_direction(op, OperationStepDirection::Forward)
    }
}

// ---------------------------------------------------------------------------
// CRS codes
// ---------------------------------------------------------------------------

/// A geographic CRS the registry can build: its record and its datum are
/// both present.
pub open spec fn geographic_defined(db: RegistryModel, code: u32) -> bool {
    match lookup_last::<GeographicRecord>(db.geographic_crs, code) {
        Some(g) => lookup_last::<DatumRecord>(db.datums, g.datum_code) is Some,
        None => false,
    }
}

/// A projected CRS the registry can build: its record and its datum are
/// both present.
pub open spec fn projected_defined(db: RegistryModel, code: u32) -> bool {
    match lookup_last::<ProjectedRecord>(db.projected_crs, code) {
        Some(p) => lookup_last::<DatumRecord>(db.datums, p.datum_code) is Some,
        None => false,
    }
}

pub open spec fn crs_defined(db: RegistryModel, code: u32) -> bool {
    geographic_defined(db, code) || projected_defined(db, code)
}

/// The EPSG code an `authority:code` string names, or the message of the
/// unknown-CRS error it is refused with.
pub open spec fn authority_code_spec(db: RegistryModel, s: Seq<char>) -> Result<u32, Seq<char>> {
    match split_once_spec(s, ':') {
        None => Err("invalid authority:code format: "@ + s),
        Some((a, c)) => {
            let authority = str_trim(a);
            let code = str_trim(c);
            if !eq_ignore_ascii_case_spec(authority, seq!['E', 'P', 'S', 'G']) {
                Err("unsupported authority: "@ + authority + " (only EPSG is supported)"@)
            } else {
                match parse_u32_spec(code) {
                    None => Err("invalid EPSG code: "@ + code),
                    Some(epsg) => if crs_defined(db, epsg) {
                        Ok(epsg)
                    } else {
                        Err("unknown EPSG code: "@ + decimal(epsg as nat))
                    },
                }
            }
        },
    }
}

impl RegistryDb {
    /// Whether the registry can build the CRS with EPSG code `code`, as a
    /// geographic CRS or else as a projected one.
    pub fn has_crs(&self, code: u32) -> (r: bool)
        ensures
            r == crs_defined(self@, code),
    {
        let geographic = match self.lookup_geographic(code) {
            Some(g) => self.lookup_datum(g.datum_code).is_some(),
            None => false,
        };
        if geographic {
            return true;
        }
        match self.lookup_projected(code) {
            Some(p) => self.lookup_datum(p.datum_code).is_some(),
            None => false,
        }
    }

    /// Parses an `authority:code` string such as `EPSG:4326` (authority
    /// matched ignoring ASCII case, both parts trimmed) and checks that the
    /// registry defines the CRS. Only the EPSG authority is supported.
    pub fn lookup_authority_code(&self, code: &str) -> (r: Result<u32, Error>)
        ensures
            match r {
                Ok(epsg) => authority_code_spec(self@, code@) == Ok::<u32, Seq<char>>(epsg),
                Err(e) => e matches Error::UnknownCrs(m) && authority_code_spec(self@, code@)
                    == Err::<u32, Seq<char>>(m@),
            },
    {
        let (authority, code_str) = match split_once(code, ':') {
            Some(parts) => parts,
            None => {
                let mut m = "invalid authority:code format: ".to_owned();
                append_str(&mut m, code);
                return Err(Error::UnknownCrs(m));
            },
        };
        let authority = trim(authority.as_str());
        let code_str = trim(code_str.as_str());
        proof {
            reveal_strlit("EPSG");
        }
        if !eq_ignore_ascii_case(authority.as_str(), "EPSG") {
            let mut m = "unsupported authority: ".to_owned();
            append_str(&mut m, authority.as_str());
            append_str(&mut m, " (only EPSG is supported)");
            return Err(Error::UnknownCrs(m));
        }
        let epsg = match parse_u32(code_str.as_str()) {
            Some(v) => v,
            None => {
                let mut m = "invalid EPSG code: ".to_owned();
                append_str(&mut m, code_str.as_str());
                return Err(Error::UnknownCrs(m));
            },
        };
        if self.has_crs(epsg) {
            Ok(epsg)
        } else {
            let mut m = "unknown EPSG code: ".to_owned();
            append_decimal(&mut m, epsg as u64);
            Err(Error::UnknownCrs(m))
        }
    }
}

// ---------------------------------------------------------------------------
// Laws
// ---------------------------------------------------------------------------

/// Appending hits keeps what was there and adds exactly the hits.
pub proof fn lemma_extend_unique_contains(ids: Seq<u32>, hits: Seq<u32>)
    ensures
        forall|x: u32| #[trigger] extend_unique(ids, hits).contains(x) <==> (ids.contains(x)
            || hits.contains(x)),
    decreases hits.len(),
{
    if hits.len() > 0 {
        let prev = extend_unique(ids, hits.drop_last());
        lemma_extend_unique_contains(ids, hits.drop_last());
        assert forall|x: u32| #[trigger] extend_unique(ids, hits).contains(x) <==> (ids.contains(x)
            || hits.contains(x)) by {
            if hits.contains(x) && !hits.drop_last().contains(x) {
                let k = choose|k: int| 0 <= k < hits.len() && hits[k] == x;
                if k < hits.len() - 1 {
                    assert(hits.drop_last()[k] == x);
                }
                assert(x == hits.last());
            }
            if hits.drop_last().contains(x) {
                let k = choose|k: int| 0 <= k < hits.drop_last().len() && hits.drop_last()[k] == x;
                assert(hits[k] == x);
            }
            if !prev.contains(hits.last()) {
                assert(prev.push(hits.last())[prev.len() as int] == hits.last());
                if prev.push(hits.last()).contains(x) {
                    let k = choose|k: int| 0 <= k < prev.len() + 1 && prev.push(hits.last())[k] == x;
                    if k < prev.len() {
                        assert(prev[k] == x);
                    }
                }
                if prev.contains(x) {
                    let k = choose|k: int| 0 <= k < prev.len() && prev[k] == x;
                    assert(prev.push(hits.last())[k] == x);
                }
            }
            if hits.last() == x {
                assert(hits[hits.len() - 1] == x);
            }
        }
    }
}

/// Appending hits never repeats an id when none was repeated before.
pub proof fn lemma_extend_unique_no_duplicates(ids: Seq<u32>, hits: Seq<u32>)
    requires
        ids.no_duplicates(),
    ensures
        extend_unique(ids, hits).no_duplicates(),
    decreases hits.len(),
{
    if hits.len() > 0 {
        lemma_extend_unique_no_duplicates(ids, hits.drop_last());
        let prev = extend_unique(ids, hits.drop_last());
        if !prev.contains(hits.last()) {
            assert forall|i: int, j: int|
                0 <= i < prev.len() + 1 && 0 <= j < prev.len() + 1 && i != j implies prev.push(
                hits.last(),
            )[i] != prev.push(hits.last())[j] by {
                if i == prev.len() {
                    assert(prev[j] != hits.last());
                } else if j == prev.len() {
                    assert(prev[i] != hits.last());
                }
            }
        }
    }
}

/// The ids in `operation_ids_spec`, as a set: the index hits of the CRS
/// pair, then (when both datums are known) of the datum pair, each way
/// round when `both_ways`.
pub open spec fn operation_id_members(
    db: RegistryModel,
    s: u32,
    t: u32,
    both_ways: bool,
    x: u32,
) -> bool {
    let ops = db.operations;
    ||| index_hits(ops, false, s, t).contains(x)
    ||| both_ways && index_hits(ops, false, t, s).contains(x)
    ||| match (datum_code_for_crs_spec(db, s), datum_code_for_crs_spec(db, t)) {
        (Some(sd), Some(td)) => index_hits(ops, true, sd, td).contains(x) || (both_ways
            && index_hits(ops, true, td, sd).contains(x)),
        _ => false,
    }
}

proof fn lemma_operation_ids_members(
    db: RegistryModel,
    s: u32,
    t: u32,
    both_ways: bool,
)
    ensures
        forall|x: u32| #[trigger]
            operation_ids_spec(db, Some(s), Some(t), both_ways).contains(x)
                <==> operation_id_members(db, s, t, both_ways, x),
        operation_ids_spec(db, Some(s), Some(t), both_ways).no_duplicates(),
{
    let ops = db.operations;
    let e = Seq::<u32>::empty();
    let h1 = index_hits(ops, false, s, t);
    let h2 = index_hits(ops, false, t, s);
    lemma_extend_unique_contains(e, h1);
    let fwd = extend_unique(e, h1);
    lemma_extend_unique_contains(fwd, h2);
    lemma_extend_unique_no_duplicates(e, h1);
    lemma_extend_unique_no_duplicates(fwd, h2);
    let crs_ids = if both_ways {
        extend_unique(fwd, h2)
    } else {
        fwd
    };
    match (datum_code_for_crs_spec(db, s), datum_code_for_crs_spec(db, t)) {
        (Some(sd), Some(td)) => {
            let h3 = index_hits(ops, true, sd, td);
            let h4 = index_hits(ops, true, td, sd);
            lemma_extend_unique_contains(crs_ids, h3);
            lemma_extend_unique_no_duplicates(crs_ids, h3);
            let with_datum = extend_unique(crs_ids, h3);
            lemma_extend_unique_contains(with_datum, h4);
            lemma_extend_unique_no_duplicates(with_datum, h4);
        },
        _ => {},
    }
}

/// The operations related to a pair of CRS include every operation that
/// runs forward between them, and neither list repeats an id.
pub proof fn lemma_forward_ids_are_related(db: RegistryModel, s: Option<u32>, t: Option<u32>)
    ensures
        forall|x: u32| #[trigger] operation_ids_spec(db, s, t, false).contains(x)
            ==> operation_ids_spec(db, s, t, true).contains(x),
        operation_ids_spec(db, s, t, false).no_duplicates(),
        operation_ids_spec(db, s, t, true).no_duplicates(),
{
    if let (Some(a), Some(b)) = (s, t) {
        lemma_operation_ids_members(db, a, b, false);
        lemma_operation_ids_members(db, a, b, true);
    }
}

/// Related operations do not depend on which CRS is the source: swapping
/// source and target gives the same ids, possibly in another order.
pub proof fn lemma_related_ids_symmetric(db: RegistryModel, s: Option<u32>, t: Option<u32>)
    ensures
        forall|x: u32| #[trigger] operation_ids_spec(db, s, t, true).contains(x)
            <==> operation_ids_spec(db, t, s, true).contains(x),
{
    if let (Some(a), Some(b)) = (s, t) {
        lemma_operation_ids_members(db, a, b, true);
        lemma_operation_ids_members(db, b, a, true);
    }
}

/// A reverse run reports the forward endpoints swapped, the same grid
/// usage and the same flags; reversing the reverse gives the forward view.
pub proof fn lemma_metadata_directions(
    forward: CoordinateOperationMetadata,
    reverse: CoordinateOperationMetadata,
    ops: Seq<OperationModel>,
    m: OperationModel,
)
    requires
        metadata_matches(forward, ops, m, OperationStepDirection::Forward),
        metadata_matches(reverse, ops, m, OperationStepDirection::Reverse),
    ensures
        reverse.endpoints == forward.endpoints.spec_for_direction(OperationStepDirection::Reverse),
        reverse.endpoints.spec_for_direction(OperationStepDirection::Reverse) == forward.endpoints,
        reverse.uses_grids == forward.uses_grids,
        reverse.id == forward.id,
        reverse.accuracy_bits == forward.accuracy_bits,
        reverse.area_code == forward.area_code,
{
}

/// A grid shift always uses grids; an identity or Helmert operation never
/// does, and neither does a concatenation whose steps all name operations
/// the registry lacks.
pub proof fn lemma_uses_grids_by_method(ops: Seq<OperationModel>, m: OperationMethodModel)
    ensures
        m is GridShift ==> method_uses_grids(ops, m, Seq::empty()),
        (m is Identity || m is Helmert) ==> !method_uses_grids(ops, m, Seq::empty()),
        (m matches OperationMethodModel::Concatenated(steps) && forall|i: int|
            0 <= i < steps.len() ==> lookup_last::<OperationRecord>(
                ops,
                #[trigger] steps[i].operation_id.0,
            ) is None) ==> !method_uses_grids(ops, m, Seq::empty()),
{
    if let OperationMethodModel::Concatenated(steps) = m {
        if forall|i: int|
            0 <= i < steps.len() ==> lookup_last::<OperationRecord>(
                ops,
                #[trigger] steps[i].operation_id.0,
            ) is None {
            lemma_steps_without_operations(ops, steps, Seq::empty(), steps.len());
        }
    }
}

proof fn lemma_steps_without_operations(
    ops: Seq<OperationModel>,
    steps: Seq<OperationStep>,
    path: Seq<u32>,
    n: nat,
)
    requires
        n <= steps.len(),
        forall|i: int|
            0 <= i < steps.len() ==> lookup_last::<OperationRecord>(
                ops,
                #[trigger] steps[i].operation_id.0,
            ) is None,
    ensures
        !steps_use_grids(ops, steps, path, n),
    decreases n,
{
    if n > 0 {
        lemma_steps_without_operations(ops, steps, path, (n - 1) as nat);
        assert(lookup_last::<OperationRecord>(ops, steps[n - 1].operation_id.0) is None);
        assert(!step_uses_grids(ops, steps[n - 1].operation_id.0, path));
    }
}

proof fn lemma_steps_use_grids_witness(
    ops: Seq<OperationModel>,
    steps: Seq<OperationStep>,
    path: Seq<u32>,
    i: int,
)
    requires
        0 <= i < steps.len(),
        step_uses_grids(ops, steps[i].operation_id.0, path),
    ensures
        steps_use_grids(ops, steps, path, steps.len()),
{
    assert(steps_use_grids(ops, steps, path, (i + 1) as nat));
    lemma_steps_use_grids_monotone(ops, steps, path, (i + 1) as nat, steps.len());
}

proof fn lemma_steps_use_grids_some(
    ops: Seq<OperationModel>,
    steps: Seq<OperationStep>,
    path: Seq<u32>,
    n: nat,
)
    requires
        steps_use_grids(ops, steps, path, n),
    ensures
        exists|i: int| 0 <= i < n && i < steps.len() && #[trigger] step_uses_grids(
            ops,
            steps[i].operation_id.0,
            path,
        ),
    decreases n,
{
    if n > 0 && n <= steps.len() {
        if steps_use_grids(ops, steps, path, (n - 1) as nat) {
            lemma_steps_use_grids_some(ops, steps, path, (n - 1) as nat);
        } else {
            assert(step_uses_grids(ops, steps[n - 1].operation_id.0, path));
        }
    }
}

/// A concatenation uses grids exactly when one of its steps does, whichever
/// step that is.
pub proof fn lemma_concatenation_uses_grids(
    ops: Seq<OperationModel>,
    steps: Seq<OperationStep>,
    path: Seq<u32>,
)
    ensures
        method_uses_grids(ops, OperationMethodModel::Concatenated(steps), path) <==> exists|i: int|
            0 <= i < steps.len() && #[trigger] step_uses_grids(ops, steps[i].operation_id.0, path),
{
    if exists|i: int|
        0 <= i < steps.len() && #[trigger] step_uses_grids(ops, steps[i].operation_id.0, path) {
        let i = choose|i: int|
            0 <= i < steps.len() && #[trigger] step_uses_grids(ops, steps[i].operation_id.0, path);
        lemma_steps_use_grids_witness(ops, steps, path, i);
    }
    if method_uses_grids(ops, OperationMethodModel::Concatenated(steps), path) {
        lemma_steps_use_grids_some(ops, steps, path, steps.len());
    }
}

/// A concatenation with a step that names a grid-shift operation of the
/// registry uses grids, wherever that step stands among its steps.
pub proof fn lemma_concatenation_with_grid_shift_step(
    ops: Seq<OperationModel>,
    steps: Seq<OperationStep>,
    i: int,
)
    requires
        0 <= i < steps.len(),
        lookup_last::<OperationRecord>(ops, steps[i].operation_id.0) matches Some(m)
            && m.method is GridShift,
    ensures
        method_uses_grids(ops, OperationMethodModel::Concatenated(steps), Seq::empty()),
{
    let id = steps[i].operation_id.0;
    let m = lookup_last::<OperationRecord>(ops, id).unwrap();
    assert(!Seq::<u32>::empty().contains(id));
    assert(method_uses_grids(ops, m.method, Seq::<u32>::empty().push(id)));
    assert(step_uses_grids(ops, id, Seq::empty()));
    lemma_steps_use_grids_witness(ops, steps, Seq::empty(), i);
}

} // verus!
