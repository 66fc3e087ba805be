use vstd::prelude::*;
use std::collections::HashMap;
use std::sync::Arc;
use sprs::TriMat;

use crate::labels::LabelMap;

verus! {

broadcast use vstd::std_specs::hash::group_hash_axioms;

/// Largest number of rows or columns: indices are 32-bit.
pub const MAX_DIM: usize = 4294967295;

/// Errors of the matrix operations.
#[derive(Debug, Clone, Copy, PartialEq, Eq, Structural)]
pub enum MatrixError {
    /// The matrix carries no factorization.
    NotInvertible,
    /// An operand's length does not match the matrix.
    ShapeMismatch,
    /// A label is not in the mapping.
    MissingLabel,
}

/// Compressed-sparse-column pattern of a matrix: `slot[t]` names the value
/// stored at position `t`.
pub struct Cs {
    pub m: usize,
    pub n: usize,
    pub p: Vec<usize>,
    pub i: Vec<usize>,
    pub slot: Vec<usize>,
}

/// `p` delimits the columns of a pattern with `nnz` stored positions.
pub open spec fn column_pointers(n: nat, nnz: nat, p: Seq<usize>) -> bool {
    &&& p.len() == n + 1
    &&& p[0] == 0
    &&& p[n as int] == nnz
    &&& forall|a: int, b: int| 0 <= a <= b <= n ==> #[trigger] p[a] <= #[trigger] p[b]
}

/// Position `t` lies in column `j`.
pub open spec fn in_column(p: Seq<usize>, j: int, t: int) -> bool {
    p[j] <= t < p[j + 1]
}

/// Within each column the row indices strictly increase.
pub open spec fn rows_sorted(n: nat, p: Seq<usize>, i: Seq<usize>) -> bool {
    forall|j: int, t: int, u: int|
        #![trigger in_column(p, j, t), in_column(p, j, u)]
        0 <= j < n && in_column(p, j, t) && in_column(p, j, u) && t < u ==> i[t] < i[u]
}

/// `(p, i, x)` is the compressed-column form of the triplets
/// `(rows[k], cols[k], data[k])`.
pub open spec fn compressed_columns(
    n: nat,
    rows: Seq<usize>,
    cols: Seq<usize>,
    data: Seq<usize>,
    p: Seq<usize>,
    i: Seq<usize>,
    x: Seq<usize>,
) -> bool {
    &&& column_pointers(n, data.len(), p)
    &&& i.len() == data.len()
    &&& x.len() == data.len()
    &&& rows_sorted(n, p, i)
    &&& forall|j: int, t: int|
        0 <= j < n && #[trigger] in_column(p, j, t) ==> exists|k: int|
            0 <= k < data.len() && rows[k] == i[t] && cols[k] == j && #[trigger] data[k] == x[t]
    &&& forall|k: int|
        #![trigger cols[k]]
        0 <= k < data.len() ==> exists|t: int|
            #[trigger] in_column(p, cols[k] as int, t) && i[t] == rows[k] && x[t] == data[k]
}

/// Relies on `Arc::ptr_eq`: two handles to one allocation share its value.
#[verifier::external_body]
fn shares_allocation(a: &Arc<LabelMap>, b: &Arc<LabelMap>) -> (r: bool)
    ensures
        r ==> **a == **b,
{
    Arc::ptr_eq(a, b)
}

/// Relies on sprs' `TriMat::from_triplets` and `TriMat::to_csc`: the triplets
/// are sorted by column, then by row, and laid out in compressed-column form.
/// With distinct coordinates no two values are summed.
#[verifier::external_body]
fn compress_columns(
    m: usize,
    n: usize,
    rows: Vec<usize>,
    cols: Vec<usize>,
    data: Vec<usize>,
) -> (r: (Vec<usize>, Vec<usize>, Vec<usize>))
    requires
        rows@.len() == cols@.len(),
        data@.len() == cols@.len(),
        forall|k: int| 0 <= k < rows@.len() ==> #[trigger] rows@[k] < m,
        forall|k: int| 0 <= k < cols@.len() ==> #[trigger] cols@[k] < n,
        forall|a: int, b: int|
            #![trigger rows@[a], rows@[b]]
            0 <= a < b < rows@.len() ==> (rows@[a], cols@[a]) != (
                rows@[b],
                cols@[b],
            ),
    ensures
        compressed_columns(n as nat, rows@, cols@, data@, r.0@, r.1@, r.2@),
{
    let csc = TriMat::from_triplets((m, n), rows, cols, data).to_csc::<usize>();
    csc.into_raw_storage()
}

proof fn lemma_monotone(p: Seq<usize>, n: int, a: int, b: int)
    requires
        p.len() == n + 1,
        forall|j: int| 0 <= j < n ==> #[trigger] p[j] <= p[j + 1],
        0 <= a <= b <= n,
    ensures
        p[a] <= p[b],
    decreases b - a,
{
    if a < b {
        lemma_monotone(p, n, a, b - 1);
        assert(p[b - 1] <= p[b]);
    }
}

proof fn lemma_sorted_in_column(i: Seq<usize>, lo: int, t: int, u: int)
    requires
        forall|v: int| lo < v <= u ==> #[trigger] i[v - 1] < i[v],
        lo <= t < u,
    ensures
        i[t] < i[u],
    decreases u - t,
{
    if t < u - 1 {
        lemma_sorted_in_column(i, lo, t, u - 1);
    }
    assert(i[u - 1] < i[u]);
}

/// The columns of a pattern do not overlap.
proof fn lemma_column_unique(p: Seq<usize>, n: int, nnz: nat, t: int, j1: int, j2: int)
    requires
        column_pointers(n as nat, nnz, p),
        0 <= j1 < n,
        0 <= j2 < n,
        in_column(p, j1, t),
        in_column(p, j2, t),
    ensures
        j1 == j2,
{
    if j1 < j2 {
        assert(p[j1 + 1] <= p[j2]);
    } else if j2 < j1 {
        assert(p[j2 + 1] <= p[j1]);
    }
}

/// Along the positions, columns never decrease, and rows increase within one.
proof fn lemma_positions_ordered(p: Seq<usize>, i: Seq<usize>, n: int, nnz: nat, t: int, u: int, jt: int, ju: int)
    requires
        column_pointers(n as nat, nnz, p),
        rows_sorted(n as nat, p, i),
        0 <= jt < n,
        0 <= ju < n,
        in_column(p, jt, t),
        in_column(p, ju, u),
        t < u,
    ensures
        jt < ju || (jt == ju && i[t] < i[u]),
{
    if ju < jt {
        assert(p[ju + 1] <= p[jt]);
    }
}

/// Each stored position names, by its data, a triplet at its own row and column.
pub open spec fn positions_named(
    n: int,
    nnz: nat,
    rows: Seq<usize>,
    cols: Seq<usize>,
    p: Seq<usize>,
    i: Seq<usize>,
    x: Seq<usize>,
) -> bool {
    forall|u: int, j: int|
        0 <= j < n && #[trigger] in_column(p, j, u) ==> x[u] < nnz && rows[x[u] as int] == i[u]
            && cols[x[u] as int] == j
}

/// Triplet `k` is named at some position of its column.
pub open spec fn placed(cols: Seq<usize>, p: Seq<usize>, x: Seq<usize>, k: int) -> bool {
    exists|v: int| #[trigger] in_column(p, cols[k] as int, v) && x[v] == k
}

/// Each triplet is named at some position of its column.
pub open spec fn triplets_placed(nnz: nat, cols: Seq<usize>, p: Seq<usize>, x: Seq<usize>) -> bool {
    forall|k: int| 0 <= k < nnz ==> #[trigger] placed(cols, p, x, k)
}

proof fn lemma_layout_facts(
    n: int,
    rows: Seq<usize>,
    cols: Seq<usize>,
    data: Seq<usize>,
    p: Seq<usize>,
    i: Seq<usize>,
    x: Seq<usize>,
)
    requires
        forall|k: int| 0 <= k < data.len() ==> #[trigger] data[k] == k,
        compressed_columns(n as nat, rows, cols, data, p, i, x),
    ensures
        positions_named(n, data.len(), rows, cols, p, i, x),
        triplets_placed(data.len(), cols, p, x),
{
    assert forall|u: int, j: int| 0 <= j < n && #[trigger] in_column(p, j, u) implies x[u] < data.len()
        && rows[x[u] as int] == i[u] && cols[x[u] as int] == j by {
        let k = choose|k: int|
            0 <= k < data.len() && rows[k] == i[u] && cols[k] == j && #[trigger] data[k] == x[u];
    }
    assert forall|k: int| 0 <= k < data.len() implies #[trigger] placed(cols, p, x, k) by {
        assert(cols[k] == cols[k]);
        let v = choose|v: int| #[trigger] in_column(p, cols[k] as int, v) && i[v] == rows[k] && x[v] == data[k];
        assert(data[k] == k);
        assert(in_column(p, cols[k] as int, v) && x[v] == k);
    }
}

/// Two compressed-column layouts of the same triplets, each naming its own
/// index as data, agree.
proof fn lemma_layout_unique(
    n: int,
    rows: Seq<usize>,
    cols: Seq<usize>,
    data: Seq<usize>,
    p1: Seq<usize>,
    i1: Seq<usize>,
    x1: Seq<usize>,
    p2: Seq<usize>,
    i2: Seq<usize>,
    x2: Seq<usize>,
)
    requires
        0 <= n,
        forall|k: int| 0 <= k < data.len() ==> #[trigger] data[k] == k,
        compressed_columns(n as nat, rows, cols, data, p1, i1, x1),
        compressed_columns(n as nat, rows, cols, data, p2, i2, x2),
    ensures
        x1 == x2,
        i1 == i2,
        p1 == p2,
{
    let nnz = data.len();
    lemma_layout_facts(n, rows, cols, data, p1, i1, x1);
    lemma_layout_facts(n, rows, cols, data, p2, i2, x2);
    lemma_prefix_agrees(n, nnz, rows, cols, p1, i1, x1, p2, i2, x2, nnz as int);
    assert(x1 =~= x2);
    lemma_rows_and_pointers_agree(n, nnz, rows, cols, p1, i1, x1, p2, i2, x2);
}

proof fn lemma_rows_and_pointers_agree(
    n: int,
    nnz: nat,
    rows: Seq<usize>,
    cols: Seq<usize>,
    p1: Seq<usize>,
    i1: Seq<usize>,
    x1: Seq<usize>,
    p2: Seq<usize>,
    i2: Seq<usize>,
    x2: Seq<usize>,
)
    requires
        0 <= n,
        column_pointers(n as nat, nnz, p1),
        column_pointers(n as nat, nnz, p2),
        i1.len() == nnz,
        i2.len() == nnz,
        x1 == x2,
        positions_named(n, nnz, rows, cols, p1, i1, x1),
        positions_named(n, nnz, rows, cols, p2, i2, x2),
    ensures
        i1 == i2,
        p1 == p2,
{
    assert forall|t: int| 0 <= t < nnz implies i1[t] == i2[t] by {
        let j = choose_column(p1, n, n, t);
        let j2 = choose_column(p2, n, n, t);
    }
    assert(i1 =~= i2);
    assert forall|j: int| 0 <= j <= n implies p1[j] == p2[j] by {
        if p1[j] < p2[j] {
            let t = p1[j] as int;
            assert(p2[j] <= p2[n]);
            let c2 = choose_column(p2, n, n, t);
            if c2 >= j {
                assert(p2[j] <= p2[c2]);
            }
            let c1 = choose_column(p1, n, n, t);
            if c1 < j {
                assert(p1[c1 + 1] <= p1[j]);
            }
        } else if p2[j] < p1[j] {
            let t = p2[j] as int;
            assert(p1[j] <= p1[n]);
            let c1 = choose_column(p1, n, n, t);
            if c1 >= j {
                assert(p1[j] <= p1[c1]);
            }
            let c2 = choose_column(p2, n, n, t);
            if c2 < j {
                assert(p2[c2 + 1] <= p2[j]);
            }
        }
    }
    assert(p1 =~= p2);
}

/// The two layouts agree on their first `t` positions.
proof fn lemma_prefix_agrees(
    n: int,
    nnz: nat,
    rows: Seq<usize>,
    cols: Seq<usize>,
    p1: Seq<usize>,
    i1: Seq<usize>,
    x1: Seq<usize>,
    p2: Seq<usize>,
    i2: Seq<usize>,
    x2: Seq<usize>,
    t: int,
)
    requires
        0 <= n,
        0 <= t <= nnz,
        column_pointers(n as nat, nnz, p1),
        column_pointers(n as nat, nnz, p2),
        rows_sorted(n as nat, p1, i1),
        rows_sorted(n as nat, p2, i2),
        positions_named(n, nnz, rows, cols, p1, i1, x1),
        positions_named(n, nnz, rows, cols, p2, i2, x2),
        triplets_placed(nnz, cols, p1, x1),
        triplets_placed(nnz, cols, p2, x2),
    ensures
        forall|u: int| 0 <= u < t ==> #[trigger] x1[u] == x2[u],
    decreases t,
{
    if t > 0 {
        lemma_prefix_agrees(n, nnz, rows, cols, p1, i1, x1, p2, i2, x2, t - 1);
        let u = t - 1;
        let ju1 = choose_column(p1, n, n, u);
        let ju2 = choose_column(p2, n, n, u);
        let k1 = x1[u] as int;
        let k2 = x2[u] as int;
        if k1 != k2 {
            assert(placed(cols, p2, x2, k1));
            assert(placed(cols, p1, x1, k2));
            let v = choose|v: int| #[trigger] in_column(p2, cols[k1] as int, v) && x2[v] == k1;
            let w = choose|w: int| #[trigger] in_column(p1, cols[k2] as int, w) && x1[w] == k2;
            if v < u {
                assert(x1[v] == x2[v]);
                let jv = choose_column(p1, n, n, v);
                lemma_positions_ordered(p1, i1, n, nnz, v, u, jv, ju1);
            } else if w < u {
                assert(x1[w] == x2[w]);
                let jw = choose_column(p2, n, n, w);
                lemma_positions_ordered(p2, i2, n, nnz, w, u, jw, ju2);
            } else {
                lemma_positions_ordered(p2, i2, n, nnz, u, v, ju2, cols[k1] as int);
                lemma_positions_ordered(p1, i1, n, nnz, u, w, ju1, cols[k2] as int);
            }
        }
    }
}

impl Cs {
    /// Whether the pattern is well formed, checked.
    pub fn is_wf(&self) -> (r: bool)
        ensures
            r == self.wf(),
    {
        let nnz = self.slot.len();
        if self.p.len() == 0 || self.p.len() - 1 != self.n || self.p[0] != 0 || self.p[self.n] != nnz
            || self.i.len() != nnz {
            return false;
        }
        let n = self.n;
        let mut j: usize = 0;
        while j < n
            invariant
                j <= n,
                n == self.n,
                self.p@.len() == n + 1,
                forall|q: int| 0 <= q < j ==> #[trigger] self.p@[q] <= self.p@[q + 1],
            decreases n - j,
        {
            if self.p[j] > self.p[j + 1] {
                return false;
            }
            j = j + 1;
        }
        proof {
            assert forall|a: int, b: int| 0 <= a <= b <= n implies #[trigger] self.p@[a] <= #[trigger] self.p@[b] by {
                lemma_monotone(self.p@, n as int, a, b);
            }
        }
        let mut t: usize = 0;
        while t < nnz
            invariant
                t <= nnz,
                nnz == self.i@.len(),
                forall|q: int| 0 <= q < t ==> #[trigger] self.i@[q] < self.m,
            decreases nnz - t,
        {
            if self.i[t] >= self.m {
                return false;
            }
            t = t + 1;
        }
        let mut j: usize = 0;
        while j < n
            invariant
                j <= n,
                n == self.n,
                nnz == self.i@.len(),
                column_pointers(n as nat, nnz as nat, self.p@),
                forall|c: int, v: int|
                    #![trigger self.p@[c + 1], self.i@[v]]
                    0 <= c < j && self.p@[c] < v < self.p@[c + 1] ==> self.i@[v - 1] < self.i@[v],
            decreases n - j,
        {
            let lo = self.p[j];
            let hi = self.p[j + 1];
            assert(self.p@[j as int] <= self.p@[j + 1]);
            assert(self.p@[j + 1] <= self.p@[n as int]);
            let mut v: usize = lo;
            while v < hi
                invariant
                    lo <= v,
                    v <= hi || lo == hi,
                    hi <= nnz,
                    j < n,
                    lo == self.p@[j as int],
                    hi == self.p@[j + 1],
                    nnz == self.i@.len(),
                    column_pointers(n as nat, nnz as nat, self.p@),
                    forall|c: int, w: int|
                        #![trigger self.p@[c + 1], self.i@[w]]
                        0 <= c < j && self.p@[c] < w < self.p@[c + 1] ==> self.i@[w - 1] < self.i@[w],
                    forall|w: int| lo < w < v ==> #[trigger] self.i@[w - 1] < self.i@[w],
                decreases hi - v,
            {
                if v > lo && self.i[v - 1] >= self.i[v] {
                    proof {
                        assert(in_column(self.p@, j as int, v - 1) && in_column(self.p@, j as int, v as int));
                    }
                    return false;
                }
                v = v + 1;
            }
            j = j + 1;
        }
        proof {
            assert forall|c: int, t: int, u: int|
                #![trigger in_column(self.p@, c, t), in_column(self.p@, c, u)]
                0 <= c < n && in_column(self.p@, c, t) && in_column(self.p@, c, u) && t < u implies self.i@[t] < self.i@[u] by {
                assert forall|w: int| self.p@[c] < w <= u implies #[trigger] self.i@[w - 1] < self.i@[w] by {
                    assert(self.p@[c] < w < self.p@[c + 1]);
                }
                lemma_sorted_in_column(self.i@, self.p@[c] as int, t, u);
            }
        }
        true
    }

    /// The pattern is well formed: columns delimited, rows in range and sorted.
    pub open spec fn wf(&self) -> bool {
        &&& column_pointers(self.n as nat, self.slot@.len(), self.p@)
        &&& self.i@.len() == self.slot@.len()
        &&& rows_sorted(self.n as nat, self.p@, self.i@)
        &&& forall|t: int| 0 <= t < self.i@.len() ==> #[trigger] self.i@[t] < self.m
    }

    /// Number of stored positions.
    pub open spec fn nnz(&self) -> nat {
        self.slot@.len()
    }
}

/// A position below `p[hi]` lies in some column below `hi`.
proof fn choose_column(p: Seq<usize>, n: int, hi: int, t: int) -> (j: int)
    requires
        column_pointers(n as nat, p[n] as nat, p),
        0 < hi <= n,
        0 <= t < p[hi],
    ensures
        0 <= j < hi,
        in_column(p, j, t),
    decreases hi,
{
    if p[hi - 1] <= t {
        hi - 1
    } else {
        choose_column(p, n, hi - 1, t)
    }
}

/// Index of a coordinate in the builder's table.
pub open spec fn coord_key(r: int, c: int) -> int {
    r * 4294967296 + c
}

proof fn lemma_coord_key(r1: int, c1: int, r2: int, c2: int)
    requires
        0 <= r1,
        0 <= r2,
        0 <= c1 < 4294967296,
        0 <= c2 < 4294967296,
        coord_key(r1, c1) == coord_key(r2, c2),
    ensures
        r1 == r2,
        c1 == c2,
{
    if r1 < r2 {
        assert(r1 * 4294967296 + 4294967296 <= r2 * 4294967296) by (nonlinear_arith)
            requires
                r1 < r2,
        ;
    } else if r2 < r1 {
        assert(r2 * 4294967296 + 4294967296 <= r1 * 4294967296) by (nonlinear_arith)
            requires
                r2 < r1,
        ;
    }
}

fn key_of(r: usize, c: usize) -> (k: u64)
    requires
        r < MAX_DIM,
        c < MAX_DIM,
    ensures
        k == coord_key(r as int, c as int),
{
    assert(r * 4294967296 + c < 18446744073709551616) by (nonlinear_arith)
        requires
            r < 4294967295,
            c < 4294967295,
    ;
    (r as u64) * 4294967296u64 + (c as u64)
}

/// `labels` after `l` was given an index: unchanged if it had one.
pub open spec fn with_label(labels: Seq<Seq<char>>, l: Seq<char>) -> Seq<Seq<char>> {
    if labels.contains(l) {
        labels
    } else {
        labels.push(l)
    }
}

/// Giving a label an index keeps every label, and adds it.
pub broadcast proof fn lemma_with_label_contains(labels: Seq<Seq<char>>, l: Seq<char>, x: Seq<char>)
    ensures
        (labels.contains(x) || x == l) ==> #[trigger] with_label(labels, l).contains(x),
{
    if labels.contains(x) && !labels.contains(l) {
        let i = choose|i: int| 0 <= i < labels.len() && labels[i] == x;
        assert(labels.push(l)[i] == x);
    }
    if x == l && !labels.contains(l) {
        assert(labels.push(l)[labels.len() as int] == x);
    }
}

/// `entries` after a triplet at `e`: a coordinate seen before keeps its slot.
pub open spec fn with_entry(
    entries: Seq<(Seq<char>, Seq<char>)>,
    e: (Seq<char>, Seq<char>),
) -> Seq<(Seq<char>, Seq<char>)> {
    if entries.contains(e) {
        entries
    } else {
        entries.push(e)
    }
}

/// Triplets at one coordinate share a slot: after two triplets at `e`, the
/// entries are those after one, and both calls were given the same slot, so
/// their values are summed there.
pub proof fn lemma_duplicate_triplets_share_slot(
    entries: Seq<(Seq<char>, Seq<char>)>,
    e: (Seq<char>, Seq<char>),
    first: int,
    second: int,
)
    requires
        entries.no_duplicates(),
        0 <= first < with_entry(entries, e).len(),
        with_entry(entries, e)[first] == e,
        0 <= second < with_entry(with_entry(entries, e), e).len(),
        with_entry(with_entry(entries, e), e)[second] == e,
    ensures
        with_entry(with_entry(entries, e), e) == with_entry(entries, e),
        first == second,
{
    let once = with_entry(entries, e);
    assert(once.contains(e));
    if !entries.contains(e) {
        assert forall|a: int, b: int| 0 <= a < once.len() && 0 <= b < once.len() && a != b implies once[a] != once[b] by {
            if a < entries.len() && b < entries.len() {
            } else if a < entries.len() {
                assert(once[a] == entries[a]);
            } else if b < entries.len() {
                assert(once[b] == entries[b]);
            }
        }
    }
}

/// Builders that hold the same labels and the same slots lay out the same
/// pattern: two builders fed the same triplets in the same order build
/// identical `(p, i, slot)`.
pub proof fn lemma_build_deterministic(b1: MappedMatrixBuilder, b2: MappedMatrixBuilder, c1: Cs, c2: Cs)
    requires
        b1.wf(),
        b2.wf(),
        b1.row_labels() == b2.row_labels(),
        b1.col_labels() == b2.col_labels(),
        b1.entries() == b2.entries(),
        b1.lays_out(c1),
        b2.lays_out(c2),
    ensures
        c1.p@ == c2.p@,
        c1.i@ == c2.i@,
        c1.slot@ == c2.slot@,
{
    b1.rows.lemma_distinct();
    b1.cols.lemma_distinct();
    let k = b1.coords@.len();
    assert(b1.entries().len() == b1.coords@.len());
    assert(b2.entries().len() == b2.coords@.len());
    assert forall|s: int| 0 <= s < k implies b1.coords@[s] == b2.coords@[s] by {
        let e = b1.entries()[s];
        assert(e == b2.entries()[s]);
        let a = b1.coords@[s];
        let b = b2.coords@[s];
        assert(a.0 < b1.rows@.len() && a.1 < b1.cols@.len());
        assert(b.0 < b2.rows@.len() && b.1 < b2.cols@.len());
        assert(e == (b1.rows@[a.0 as int], b1.cols@[a.1 as int]));
        assert(e == (b2.rows@[b.0 as int], b2.cols@[b.1 as int]));
    }
    let rows = Seq::new(k, |s: int| b1.coords@[s].0);
    let cols = Seq::new(k, |s: int| b1.coords@[s].1);
    let data = Seq::new(k, |s: int| s as usize);
    assert(rows =~= Seq::new(b2.coords@.len(), |s: int| b2.coords@[s].0));
    assert(cols =~= Seq::new(b2.coords@.len(), |s: int| b2.coords@[s].1));
    assert(data =~= Seq::new(b2.coords@.len(), |s: int| s as usize));
    lemma_layout_unique(b1.cols@.len() as int, rows, cols, data, c1.p@, c1.i@, c1.slot@, c2.p@, c2.i@, c2.slot@);
}

/// Collects triplets `(row label, column label)` and gives each distinct
/// coordinate a slot, in the order of first occurrence.
pub struct MappedMatrixBuilder {
    rows: LabelMap,
    cols: LabelMap,
    keys: HashMap<u64, usize>,
    coords: Vec<(usize, usize)>,
}

impl MappedMatrixBuilder {
    pub closed spec fn row_labels(&self) -> Seq<Seq<char>> {
        self.rows@
    }

    pub closed spec fn col_labels(&self) -> Seq<Seq<char>> {
        self.cols@
    }

    /// The labelled coordinate of each slot.
    pub closed spec fn entries(&self) -> Seq<(Seq<char>, Seq<char>)> {
        Seq::new(
            self.coords@.len(),
            |s: int| (self.rows@[self.coords@[s].0 as int], self.cols@[self.coords@[s].1 as int]),
        )
    }

    /// `cs` is the compressed-column layout of this builder's slots, each
    /// stored position naming its slot.
    pub closed spec fn lays_out(&self, cs: Cs) -> bool {
        compressed_columns(
            self.cols@.len(),
            Seq::new(self.coords@.len(), |s: int| self.coords@[s].0),
            Seq::new(self.coords@.len(), |s: int| self.coords@[s].1),
            Seq::new(self.coords@.len(), |s: int| s as usize),
            cs.p@,
            cs.i@,
            cs.slot@,
        )
    }

    pub closed spec fn wf(&self) -> bool {
        &&& self.rows.wf()
        &&& self.cols.wf()
        &&& self.rows@.len() <= MAX_DIM
        &&& self.cols@.len() <= MAX_DIM
        &&& forall|s: int|
            0 <= s < self.coords@.len() ==> (#[trigger] self.coords@[s]).0 < self.rows@.len()
                && self.coords@[s].1 < self.cols@.len()
        &&& forall|s: int|
            0 <= s < self.coords@.len() ==> #[trigger] self.keys@.contains_key(
                coord_key(self.coords@[s].0 as int, self.coords@[s].1 as int) as u64,
            ) && self.keys@[coord_key(self.coords@[s].0 as int, self.coords@[s].1 as int) as u64]
                == s
        &&& forall|k: u64| #[trigger]
            self.keys@.contains_key(k) ==> self.keys@[k] < self.coords@.len() && coord_key(
                self.coords@[self.keys@[k] as int].0 as int,
                self.coords@[self.keys@[k] as int].1 as int,
            ) == k
    }

    proof fn lemma_coords_distinct(&self)
        requires
            self.wf(),
        ensures
            forall|a: int, b: int|
                0 <= a < self.coords@.len() && 0 <= b < self.coords@.len() && a != b ==> #[trigger] self.coords@[a]
                    != #[trigger] self.coords@[b],
    {
        assert forall|a: int, b: int|
            0 <= a < self.coords@.len() && 0 <= b < self.coords@.len() && a != b implies #[trigger] self.coords@[a]
                != #[trigger] self.coords@[b] by {
            assert(self.keys@.contains_key(
                coord_key(self.coords@[a].0 as int, self.coords@[a].1 as int) as u64,
            ));
            assert(self.keys@.contains_key(
                coord_key(self.coords@[b].0 as int, self.coords@[b].1 as int) as u64,
            ));
        }
    }

    /// Number of row labels.
    pub fn nrows(&self) -> (r: usize)
        requires
            self.wf(),
        ensures
            r == self.row_labels().len(),
    {
        self.rows.len()
    }

    /// Number of column labels.
    pub fn ncols(&self) -> (r: usize)
        requires
            self.wf(),
        ensures
            r == self.col_labels().len(),
    {
        self.cols.len()
    }

    /// Index of the row labelled `id`.
    pub fn row(&self, id: &str) -> (r: Option<usize>)
        requires
            self.wf(),
        ensures
            r matches Some(i) ==> i < self.row_labels().len() && self.row_labels()[i as int] == id@,
            r is None ==> !self.row_labels().contains(id@),
    {
        self.rows.index_of(id)
    }

    /// Index of the column labelled `id`.
    pub fn col(&self, id: &str) -> (r: Option<usize>)
        requires
            self.wf(),
        ensures
            r matches Some(i) ==> i < self.col_labels().len() && self.col_labels()[i as int] == id@,
            r is None ==> !self.col_labels().contains(id@),
    {
        self.cols.index_of(id)
    }

    /// Takes the row labels of `copied` as column labels.
    pub fn copy_rows_into_cols<F>(&mut self, copied: &MappedMatrix<F>)
        requires
            old(self).wf(),
            copied.wf(),
            old(self).entries().len() == 0,
            copied.row_labels().len() <= MAX_DIM,
        ensures
            final(self).wf(),
            final(self).col_labels() == copied.row_labels(),
            final(self).row_labels() == old(self).row_labels(),
            final(self).entries().len() == 0,
    {
        self.cols = LabelMap::copy_of(&copied.rows);
    }

    /// Takes the labels of `copied` as row labels.
    pub fn copy_vec_into_rows<V>(&mut self, copied: &MappedVector<V>)
        requires
            old(self).wf(),
            copied.wf(),
            old(self).entries().len() == 0,
            copied.labels().len() <= MAX_DIM,
        ensures
            final(self).wf(),
            final(self).row_labels() == copied.labels(),
            final(self).col_labels() == old(self).col_labels(),
            final(self).entries().len() == 0,
    {
        self.copy_mapping_into_rows(copied.mapping_ref());
    }

    /// Takes the labels of `labels` as row labels.
    pub fn copy_mapping_into_rows(&mut self, labels: &LabelMap)
        requires
            old(self).wf(),
            labels.wf(),
            old(self).entries().len() == 0,
            labels@.len() <= MAX_DIM,
        ensures
            final(self).wf(),
            final(self).row_labels() == labels@,
            final(self).col_labels() == old(self).col_labels(),
            final(self).entries().len() == 0,
    {
        self.rows = LabelMap::copy_of(labels);
    }

    /// Gives the row label `id` the next row index, unless it has one.
    pub fn add_row(&mut self, id: String)
        requires
            old(self).wf(),
            old(self).row_labels().len() < MAX_DIM,
        ensures
            final(self).wf(),
            final(self).row_labels() == with_label(old(self).row_labels(), id@),
            final(self).col_labels() == old(self).col_labels(),
            final(self).entries() == old(self).entries(),
    {
        let ghost e = self.entries();
        self.rows.insert(id);
        proof {
            assert forall|s: int| 0 <= s < self.coords@.len() implies (#[trigger] self.coords@[s]).0
                < self.rows@.len() && self.coords@[s].1 < self.cols@.len() by {}
            assert(self.entries() =~= e);
        }
    }

    /// Gives the column label `id` the next column index, unless it has one.
    pub fn add_col(&mut self, id: String)
        requires
            old(self).wf(),
            old(self).col_labels().len() < MAX_DIM,
        ensures
            final(self).wf(),
            final(self).col_labels() == with_label(old(self).col_labels(), id@),
            final(self).row_labels() == old(self).row_labels(),
            final(self).entries() == old(self).entries(),
    {
        let ghost e = self.entries();
        self.cols.insert(id);
        proof {
            assert forall|s: int| 0 <= s < self.coords@.len() implies (#[trigger] self.coords@[s]).0
                < self.rows@.len() && self.coords@[s].1 < self.cols@.len() by {}
            assert(self.entries() =~= e);
        }
    }

    /// Records a triplet at `(row, col)` and returns the slot of its value.
    /// Labels not seen before get the next index; a coordinate seen before
    /// keeps its slot, so that the values sent to it are summed.
    pub fn add_triplet(&mut self, row: String, col: String) -> (slot: usize)
        requires
            old(self).wf(),
            old(self).row_labels().len() < MAX_DIM,
            old(self).col_labels().len() < MAX_DIM,
        ensures
            final(self).wf(),
            final(self).row_labels() == with_label(old(self).row_labels(), row@),
            final(self).col_labels() == with_label(old(self).col_labels(), col@),
            final(self).entries() == with_entry(old(self).entries(), (row@, col@)),
            slot < final(self).entries().len(),
            final(self).entries()[slot as int] == (row@, col@),
    {
        let ghost old_rows = self.rows@;
        let ghost old_cols = self.cols@;
        let ghost old_coords = self.coords@;
        let ghost old_keys = self.keys@;
        let ghost e = self.entries();
        let ghost rl = row@;
        let ghost cl = col@;
        let r = self.rows.insert(row);
        let c = self.cols.insert(col);
        proof {
            self.rows.lemma_distinct();
            self.cols.lemma_distinct();
            assert forall|s: int| 0 <= s < old_coords.len() implies self.entries()[s] == e[s] by {
                assert(old_coords[s] == self.coords@[s]);
            }
        }
        let key = key_of(r, c);
        match self.keys.get(&key) {
            Some(s) => {
                let s = *s;
                proof {
                    let cs = self.coords@[s as int];
                    lemma_coord_key(cs.0 as int, cs.1 as int, r as int, c as int);
                    assert(cs.0 < old_rows.len() && cs.1 < old_cols.len());
                    assert(self.entries() =~= e);
                    assert(e[s as int] == (rl, cl));
                }
                s
            },
            None => {
                let s = self.coords.len();
                proof {
                    if e.contains((rl, cl)) {
                        let t = choose|t: int| 0 <= t < e.len() && e[t] == (rl, cl);
                        let ct = self.coords@[t];
                        assert(self.rows@[ct.0 as int] == self.rows@[r as int]);
                        assert(self.cols@[ct.1 as int] == self.cols@[c as int]);
                        assert(self.keys@.contains_key(coord_key(ct.0 as int, ct.1 as int) as u64));
                    }
                }
                self.coords.push((r, c));
                self.keys.insert(key, s);
                proof {
                    assert forall|t: int| 0 <= t < self.coords@.len() implies #[trigger] self.keys@.contains_key(
                        coord_key(self.coords@[t].0 as int, self.coords@[t].1 as int) as u64,
                    ) && self.keys@[coord_key(self.coords@[t].0 as int, self.coords@[t].1 as int) as u64]
                        == t by {
                        if t < s {
                            let ct = self.coords@[t];
                            assert(ct == old_coords[t]);
                            assert(old_keys.contains_key(coord_key(ct.0 as int, ct.1 as int) as u64));
                        }
                    }
                    assert forall|k: u64| #[trigger] self.keys@.contains_key(k) implies self.keys@[k]
                        < self.coords@.len() && coord_key(
                        self.coords@[self.keys@[k] as int].0 as int,
                        self.coords@[self.keys@[k] as int].1 as int,
                    ) == k by {}
                    assert(self.entries() =~= e.push((rl, cl)));
                }
                s
            },
        }
    }

    /// Lays the collected slots out in compressed-column form. Each stored
    /// position names the slot whose values it holds; each slot is stored
    /// exactly once, at its coordinate. The result carries no factorization.
    pub fn build<F>(self) -> (r: MappedMatrix<F>)
        requires
            self.wf(),
        ensures
            r.wf(),
            r.row_labels() == self.row_labels(),
            r.col_labels() == self.col_labels(),
            !r.has_factor_spec(),
            r.pattern().nnz() == self.entries().len(),
            self.lays_out(r.pattern()),
            forall|j: int, t: int|
                0 <= j < r.col_labels().len() && #[trigger] in_column(r.pattern().p@, j, t)
                    ==> r.pattern().slot@[t] < self.entries().len() && self.entries()[r.pattern().slot@[t] as int]
                    == (r.row_labels()[r.pattern().i@[t] as int], r.col_labels()[j]),
            forall|s: int| 0 <= s < self.entries().len() ==> #[trigger] r.stores_slot(s),
    {
        let m = self.rows.len();
        let n = self.cols.len();
        let k = self.coords.len();
        let mut ri: Vec<usize> = Vec::new();
        let mut ci: Vec<usize> = Vec::new();
        let mut data: Vec<usize> = Vec::new();
        let mut pos: usize = 0;
        while pos < k
            invariant
                self.wf(),
                k == self.coords@.len(),
                m == self.rows@.len(),
                n == self.cols@.len(),
                pos <= k,
                ri@.len() == pos,
                ci@.len() == pos,
                data@.len() == pos,
                forall|t: int| 0 <= t < pos ==> #[trigger] ri@[t] == self.coords@[t].0,
                forall|t: int| 0 <= t < pos ==> #[trigger] ci@[t] == self.coords@[t].1,
                forall|t: int| 0 <= t < pos ==> #[trigger] data@[t] == t,
            decreases k - pos,
        {
            ri.push(self.coords[pos].0);
            ci.push(self.coords[pos].1);
            data.push(pos);
            pos = pos + 1;
        }
        proof {
            self.lemma_coords_distinct();
            assert forall|a: int, b: int|
                #![trigger ri@[a], ri@[b]]
                0 <= a < b < ri@.len() implies (ri@[a], ci@[a]) != (ri@[b], ci@[b]) by {
                assert(self.coords@[a] != self.coords@[b]);
            }
            assert forall|t: int| 0 <= t < ri@.len() implies #[trigger] ri@[t] < m by {
                assert(self.coords@[t].0 < m);
            }
            assert forall|t: int| 0 <= t < ci@.len() implies #[trigger] ci@[t] < n by {
                assert(self.coords@[t].1 < n);
            }
        }
        let ghost d = data@;
        let ghost rows_v = ri@;
        let ghost cols_v = ci@;
        let (p, i, x) = compress_columns(m, n, ri, ci, data);
        proof {
            assert(rows_v =~= Seq::new(self.coords@.len(), |s: int| self.coords@[s].0));
            assert(cols_v =~= Seq::new(self.coords@.len(), |s: int| self.coords@[s].1));
            assert(d =~= Seq::new(self.coords@.len(), |s: int| s as usize));
        }
        let ghost entries = self.entries();
        let cs = Cs { m, n, p, i, slot: x };
        let r = MappedMatrix { rows: Arc::new(self.rows), cols: Arc::new(self.cols), cs, factor: None };
        proof {
            assert forall|t: int| 0 <= t < r.cs.i@.len() implies #[trigger] r.cs.i@[t] < r.cs.m by {
                let j = choose_column(r.cs.p@, n as int, n as int, t);
                let kk = choose|kk: int|
                    0 <= kk < d.len() && rows_v[kk] == r.cs.i@[t] && cols_v[kk] == j && #[trigger] d[kk] == r.cs.slot@[t];
            }
            assert forall|j: int, t: int|
                0 <= j < r.col_labels().len() && #[trigger] in_column(r.pattern().p@, j, t)
                    implies r.pattern().slot@[t] < entries.len() && entries[r.pattern().slot@[t] as int]
                    == (r.row_labels()[r.pattern().i@[t] as int], r.col_labels()[j]) by {
                let kk = choose|kk: int|
                    0 <= kk < d.len() && rows_v[kk] == r.cs.i@[t] && cols_v[kk] == j && #[trigger] d[kk] == r.cs.slot@[t];
                assert(d[kk] == kk);
            }
            assert forall|s: int| 0 <= s < self.entries().len() implies #[trigger] r.stores_slot(s) by {
                let j = cols_v[s] as int;
                let t = choose|t: int| #[trigger] in_column(r.cs.p@, j, t) && r.cs.i@[t] == rows_v[s] && r.cs.slot@[t] == d[s];
                assert(d[s] == s);
                assert(cols_v[s] < n);
                assert(0 <= j < r.col_labels().len() && in_column(r.pattern().p@, j, t) && r.pattern().slot@[t] == s);
            }
        }
        r
    }

    /// No label appears twice.
    pub proof fn lemma_labels_distinct(&self)
        requires
            self.wf(),
        ensures
            self.row_labels().no_duplicates(),
            self.col_labels().no_duplicates(),
    {
        self.rows.lemma_distinct();
        self.cols.lemma_distinct();
    }

    /// No two slots share a coordinate.
    pub proof fn lemma_entries_distinct(&self)
        requires
            self.wf(),
        ensures
            self.entries().no_duplicates(),
    {
        self.lemma_coords_distinct();
        self.rows.lemma_distinct();
        self.cols.lemma_distinct();
        assert forall|a: int, b: int|
            0 <= a < self.entries().len() && 0 <= b < self.entries().len() && a != b implies self.entries()[a]
                != self.entries()[b] by {
            assert(self.coords@[a] != self.coords@[b]);
        }
    }

    /// An empty builder.
    pub fn new() -> (r: MappedMatrixBuilder)
        ensures
            r.wf(),
            r.row_labels() == Seq::<Seq<char>>::empty(),
            r.col_labels() == Seq::<Seq<char>>::empty(),
            r.entries() == Seq::<(Seq<char>, Seq<char>)>::empty(),
    {
        let r = MappedMatrixBuilder {
            rows: LabelMap::new(),
            cols: LabelMap::new(),
            keys: HashMap::new(),
            coords: Vec::new(),
        };
        assert(r.entries() =~= Seq::<(Seq<char>, Seq<char>)>::empty());
        r
    }
}


/// A sparse matrix whose rows and columns are labelled, with an optional
/// factorization of type `F` for solving linear systems.
pub struct MappedMatrix<F> {
    rows: Arc<LabelMap>,
    cols: Arc<LabelMap>,
    cs: Cs,
    factor: Option<F>,
}

impl<F> MappedMatrix<F> {
    pub closed spec fn row_labels(&self) -> Seq<Seq<char>> {
        self.rows@
    }

    pub closed spec fn col_labels(&self) -> Seq<Seq<char>> {
        self.cols@
    }

    /// The compressed-column pattern.
    pub closed spec fn pattern(&self) -> Cs {
        self.cs
    }

    /// The factorization carried, if any.
    pub closed spec fn factor_spec(&self) -> Option<F> {
        self.factor
    }

    pub open spec fn has_factor_spec(&self) -> bool {
        self.factor_spec() is Some
    }

    pub closed spec fn labels_wf(&self) -> bool {
        self.rows.wf() && self.cols.wf()
    }

    /// Slot `s` is held at some stored position.
    pub open spec fn stores_slot(&self, s: int) -> bool {
        exists|j: int, t: int|
            0 <= j < self.col_labels().len() && #[trigger] in_column(self.pattern().p@, j, t)
                && self.pattern().slot@[t] == s
    }

    pub open spec fn wf(&self) -> bool {
        &&& self.labels_wf()
        &&& self.pattern().wf()
        &&& self.pattern().m == self.row_labels().len()
        &&& self.pattern().n == self.col_labels().len()
    }

    /// Index of the row labelled `id`.
    pub fn row(&self, id: &str) -> (r: Option<usize>)
        requires
            self.wf(),
        ensures
            r matches Some(i) ==> i < self.row_labels().len() && self.row_labels()[i as int] == id@,
            r is None ==> !self.row_labels().contains(id@),
    {
        self.rows.index_of(id)
    }

    /// Index of the column labelled `id`.
    pub fn col(&self, id: &str) -> (r: Option<usize>)
        requires
            self.wf(),
        ensures
            r matches Some(i) ==> i < self.col_labels().len() && self.col_labels()[i as int] == id@,
            r is None ==> !self.col_labels().contains(id@),
    {
        self.cols.index_of(id)
    }

    /// A matrix of the given mappings and pattern, without factorization; the
    /// pattern must be well formed and fit the mappings.
    pub fn new(rows: Arc<LabelMap>, cols: Arc<LabelMap>, cs: Cs) -> (r: Result<MappedMatrix<F>, MatrixError>)
        requires
            rows.wf(),
            cols.wf(),
        ensures
            r is Ok <==> (cs.wf() && cs.m == rows@.len() && cs.n == cols@.len()),
            r matches Ok(mm) ==> mm.wf() && mm.row_labels() == rows@ && mm.col_labels() == cols@
                && mm.pattern() == cs && !mm.has_factor_spec(),
            r is Err ==> r == Err::<MappedMatrix<F>, MatrixError>(MatrixError::ShapeMismatch),
    {
        if cs.m == rows.len() && cs.n == cols.len() && cs.is_wf() {
            Ok(MappedMatrix { rows, cols, cs, factor: None })
        } else {
            Err(MatrixError::ShapeMismatch)
        }
    }

    /// Label of the row at `index`.
    pub fn irow(&self, index: usize) -> (r: Option<String>)
        requires
            self.wf(),
        ensures
            r matches Some(l) ==> index < self.row_labels().len() && l@ == self.row_labels()[index as int],
            r is None ==> index >= self.row_labels().len(),
    {
        self.rows.label_of(index)
    }

    /// Label of the column at `index`.
    pub fn icol(&self, index: usize) -> (r: Option<String>)
        requires
            self.wf(),
        ensures
            r matches Some(l) ==> index < self.col_labels().len() && l@ == self.col_labels()[index as int],
            r is None ==> index >= self.col_labels().len(),
    {
        self.cols.label_of(index)
    }

    /// Number of rows.
    pub fn nrows(&self) -> (r: usize)
        requires
            self.wf(),
        ensures
            r == self.row_labels().len(),
    {
        self.rows.len()
    }

    /// Number of columns.
    pub fn ncols(&self) -> (r: usize)
        requires
            self.wf(),
        ensures
            r == self.col_labels().len(),
    {
        self.cols.len()
    }

    /// Whether some row is labelled `id`.
    pub fn contains_row(&self, id: &str) -> (r: bool)
        requires
            self.wf(),
        ensures
            r == self.row_labels().contains(id@),
    {
        self.rows.contains(id)
    }

    /// Whether some column is labelled `id`.
    pub fn contains_col(&self, id: &str) -> (r: bool)
        requires
            self.wf(),
        ensures
            r == self.col_labels().contains(id@),
    {
        self.cols.contains(id)
    }

    /// The row mapping, shared.
    pub fn row_mapping(&self) -> (r: Arc<LabelMap>)
        requires
            self.wf(),
        ensures
            r.wf(),
            r@ == self.row_labels(),
    {
        self.rows.clone()
    }

    /// The column mapping, shared.
    pub fn col_mapping(&self) -> (r: Arc<LabelMap>)
        requires
            self.wf(),
        ensures
            r.wf(),
            r@ == self.col_labels(),
    {
        self.cols.clone()
    }

    /// The compressed-column pattern.
    pub fn cs(&self) -> (r: &Cs)
        ensures
            *r == self.pattern(),
    {
        &self.cs
    }

    /// A vector over the columns, every entry `zero`, sharing the column mapping.
    pub fn zeros_like_cols<V: Copy>(&self, zero: V) -> (r: MappedVector<V>)
        requires
            self.wf(),
        ensures
            r.wf(),
            r.labels() == self.col_labels(),
            r.values() == Seq::new(self.col_labels().len(), |k: int| zero),
    {
        MappedVector::filled(self.col_mapping(), zero)
    }

    /// A vector over the rows, every entry `zero`, sharing the row mapping.
    pub fn zeros_like_rows<V: Copy>(&self, zero: V) -> (r: MappedVector<V>)
        requires
            self.wf(),
        ensures
            r.wf(),
            r.labels() == self.row_labels(),
            r.values() == Seq::new(self.row_labels().len(), |k: int| zero),
    {
        MappedVector::filled(self.row_mapping(), zero)
    }

    /// Whether the matrix carries a factorization.
    pub fn has_factor(&self) -> (r: bool)
        ensures
            r == self.has_factor_spec(),
    {
        self.factor.is_some()
    }

    /// The factorization, if any.
    pub fn factor(&self) -> (r: Option<&F>)
        ensures
            r is Some == self.has_factor_spec(),
            r matches Some(f) ==> *f == self.factor_spec()->Some_0,
    {
        self.factor.as_ref()
    }

    /// Attaches a factorization to a square matrix.
    pub fn set_factor(&mut self, factor: F) -> (r: Result<(), MatrixError>)
        requires
            old(self).wf(),
        ensures
            final(self).wf(),
            final(self).row_labels() == old(self).row_labels(),
            final(self).col_labels() == old(self).col_labels(),
            final(self).pattern() == old(self).pattern(),
            r is Ok == (old(self).row_labels().len() == old(self).col_labels().len()),
            r is Err ==> r == Err::<(), MatrixError>(MatrixError::ShapeMismatch)
                && final(self).factor_spec() == old(self).factor_spec(),
            r is Ok ==> final(self).factor_spec() == Some(factor),
    {
        if self.rows.len() == self.cols.len() {
            self.factor = Some(factor);
            Ok(())
        } else {
            Err(MatrixError::ShapeMismatch)
        }
    }

    /// Checks that `solve` may run on a right-hand side of length `len`:
    /// a factorization is present and `len` is the number of rows.
    pub fn check_solve(&self, len: usize) -> (r: Result<(), MatrixError>)
        requires
            self.wf(),
        ensures
            r == (if !self.has_factor_spec() {
                Err::<(), MatrixError>(MatrixError::NotInvertible)
            } else if len != self.row_labels().len() {
                Err(MatrixError::ShapeMismatch)
            } else {
                Ok(())
            }),
    {
        if self.factor.is_none() {
            Err(MatrixError::NotInvertible)
        } else if len != self.rows.len() {
            Err(MatrixError::ShapeMismatch)
        } else {
            Ok(())
        }
    }

    /// Checks that `dot` may run on an operand of length `len`: `len` is the
    /// number of columns.
    pub fn check_dot(&self, len: usize) -> (r: Result<(), MatrixError>)
        requires
            self.wf(),
        ensures
            r == (if len != self.col_labels().len() {
                Err::<(), MatrixError>(MatrixError::ShapeMismatch)
            } else {
                Ok(())
            }),
    {
        if len != self.cols.len() {
            Err(MatrixError::ShapeMismatch)
        } else {
            Ok(())
        }
    }
}


/// A vector whose entries are labelled by a shared mapping.
pub struct MappedVector<V> {
    mapping: Arc<LabelMap>,
    values: Vec<V>,
}

impl<V> MappedVector<V> {
    pub closed spec fn labels(&self) -> Seq<Seq<char>> {
        self.mapping@
    }

    pub closed spec fn values(&self) -> Seq<V> {
        self.values@
    }

    pub closed spec fn wf(&self) -> bool {
        self.mapping.wf() && self.values@.len() == self.mapping@.len()
    }

    /// A vector with the given mapping and values.
    pub fn new(mapping: Arc<LabelMap>, values: Vec<V>) -> (r: Result<MappedVector<V>, MatrixError>)
        requires
            mapping.wf(),
        ensures
            r is Ok == (values@.len() == mapping@.len()),
            r matches Ok(v) ==> v.wf() && v.labels() == mapping@ && v.values() == values@,
            r is Err ==> r == Err::<MappedVector<V>, MatrixError>(MatrixError::ShapeMismatch),
    {
        if values.len() == mapping.len() {
            Ok(MappedVector { mapping, values })
        } else {
            Err(MatrixError::ShapeMismatch)
        }
    }

    /// An empty vector over an empty mapping.
    pub fn empty() -> (r: MappedVector<V>)
        ensures
            r.wf(),
            r.labels() == Seq::<Seq<char>>::empty(),
            r.values() == Seq::<V>::empty(),
    {
        MappedVector { mapping: Arc::new(LabelMap::new()), values: Vec::new() }
    }

    /// A vector over `mapping` whose entries are all `v`.
    pub fn filled(mapping: Arc<LabelMap>, v: V) -> (r: MappedVector<V>)
        where
            V: Copy,
        requires
            mapping.wf(),
        ensures
            r.wf(),
            r.labels() == mapping@,
            r.values() == Seq::new(mapping@.len(), |k: int| v),
    {
        let n = mapping.len();
        let mut values: Vec<V> = Vec::new();
        let mut k: usize = 0;
        while k < n
            invariant
                k <= n,
                values@ == Seq::new(k as nat, |q: int| v),
            decreases n - k,
        {
            values.push(v);
            k = k + 1;
            assert(values@ =~= Seq::new(k as nat, |q: int| v));
        }
        MappedVector { mapping, values }
    }

    /// Number of entries.
    pub fn nrows(&self) -> (r: usize)
        requires
            self.wf(),
        ensures
            r == self.labels().len(),
    {
        self.mapping.len()
    }

    /// Index of the entry labelled `id`.
    pub fn row(&self, id: &str) -> (r: Option<usize>)
        requires
            self.wf(),
        ensures
            r matches Some(i) ==> i < self.labels().len() && self.labels()[i as int] == id@,
            r is None ==> !self.labels().contains(id@),
    {
        self.mapping.index_of(id)
    }

    /// Index of the entry labelled `id`; the same as `row`.
    pub fn map(&self, id: &str) -> (r: Option<usize>)
        requires
            self.wf(),
        ensures
            r matches Some(i) ==> i < self.labels().len() && self.labels()[i as int] == id@,
            r is None ==> !self.labels().contains(id@),
    {
        self.row(id)
    }

    /// Label of the entry at `index`.
    pub fn irow(&self, index: usize) -> (r: Option<String>)
        requires
            self.wf(),
        ensures
            r matches Some(l) ==> index < self.labels().len() && l@ == self.labels()[index as int],
            r is None ==> index >= self.labels().len(),
    {
        self.mapping.label_of(index)
    }

    /// Whether some entry is labelled `id`.
    pub fn contains(&self, id: &str) -> (r: bool)
        requires
            self.wf(),
        ensures
            r == self.labels().contains(id@),
    {
        self.mapping.contains(id)
    }

    /// The shared mapping.
    pub fn mapping(&self) -> (r: Arc<LabelMap>)
        requires
            self.wf(),
        ensures
            r.wf(),
            r@ == self.labels(),
    {
        self.mapping.clone()
    }

    /// The shared mapping, borrowed.
    pub fn mapping_ref(&self) -> (r: &LabelMap)
        requires
            self.wf(),
        ensures
            r.wf(),
            r@ == self.labels(),
    {
        &self.mapping
    }

    /// Whether `other` has the same labels, in the same order: the mappings
    /// are shared, or equal.
    pub fn same_labels<W>(&self, other: &MappedVector<W>) -> (r: bool)
        requires
            self.wf(),
            other.wf(),
        ensures
            r == (self.labels() == other.labels()),
    {
        if shares_allocation(&self.mapping, &other.mapping) {
            true
        } else {
            self.mapping.same_labels(&other.mapping)
        }
    }

    /// The entries, in index order.
    pub fn values_ref(&self) -> (r: &Vec<V>)
        ensures
            r@ == self.values(),
    {
        &self.values
    }

    /// Index of the entry that `set` changes for `label`; a label outside the
    /// mapping is an error.
    pub fn slot(&self, label: &str) -> (r: Result<usize, MatrixError>)
        requires
            self.wf(),
        ensures
            r matches Ok(i) ==> i < self.labels().len() && self.labels()[i as int] == label@,
            r is Err ==> r == Err::<usize, MatrixError>(MatrixError::MissingLabel) && !self.labels().contains(label@),
    {
        match self.mapping.index_of(label) {
            Some(i) => Ok(i),
            None => Err(MatrixError::MissingLabel),
        }
    }

    /// Replaces the entry at `index`; returns the previous one.
    pub fn replace(&mut self, index: usize, v: V) -> (r: V)
        requires
            old(self).wf(),
            index < old(self).labels().len(),
        ensures
            final(self).wf(),
            final(self).labels() == old(self).labels(),
            final(self).values() == old(self).values().update(index as int, v),
            r == old(self).values()[index as int],
    {
        let mut v = v;
        std::mem::swap(&mut self.values[index], &mut v);
        v
    }

    /// The square matrix with this vector on its diagonal: rows and columns
    /// share this vector's mapping, and diagonal position `k` holds entry `k`.
    pub fn diag<F>(&self) -> (r: MappedMatrix<F>)
        requires
            self.wf(),
        ensures
            r.wf(),
            r.row_labels() == self.labels(),
            r.col_labels() == self.labels(),
            !r.has_factor_spec(),
            r.pattern().p@ == Seq::new(self.labels().len() + 1, |k: int| k as usize),
            r.pattern().i@ == Seq::new(self.labels().len(), |k: int| k as usize),
            r.pattern().slot@ == Seq::new(self.labels().len(), |k: int| k as usize),
    {
        let n = self.mapping.len();
        let mut p: Vec<usize> = Vec::new();
        let mut i: Vec<usize> = Vec::new();
        let mut k: usize = 0;
        p.push(0);
        while k < n
            invariant
                k <= n,
                n == self.labels().len(),
                p@ == Seq::new(k as nat + 1, |q: int| q as usize),
                i@ == Seq::new(k as nat, |q: int| q as usize),
            decreases n - k,
        {
            i.push(k);
            k = k + 1;
            p.push(k);
            assert(p@ =~= Seq::new(k as nat + 1, |q: int| q as usize));
            assert(i@ =~= Seq::new(k as nat, |q: int| q as usize));
        }
        let slot = i.clone();
        let cs = Cs { m: n, n, p, i, slot };
        let r = MappedMatrix { rows: self.mapping.clone(), cols: self.mapping.clone(), cs, factor: None };
        proof {
            assert forall|j: int, t: int|
                #![trigger in_column(r.cs.p@, j, t), in_column(r.cs.p@, j, t)]
                0 <= j < n && in_column(r.cs.p@, j, t) && in_column(r.cs.p@, j, t) implies t == j by {}
        }
        r
    }
}

} // verus!
