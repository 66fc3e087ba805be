use vstd::prelude::*;
use vstd::string::StringExecFns;

use crate::ids::{hyphenated, ids_from_str_spec, product_text, IdError};
use crate::labels::LabelMap;
use crate::search::InventoryItem;
use crate::sparse::{lemma_with_label_contains, with_label, MappedMatrixBuilder, MAX_DIM};

verus! {

broadcast use lemma_with_label_contains;

/// An intermediate exchange of an activity. The amount itself is not held
/// here: only whether it is zero.
pub struct IntermediateExchange {
    /// The activity that the exchange links to, if any.
    pub process_id: Option<String>,
    pub product_id: String,
    pub zero_amount: bool,
    /// The exchange is consumed (it has an input group).
    pub input: bool,
    pub name: String,
    pub unit: String,
}

/// An elementary exchange of an activity; only whether its amount is zero is held.
pub struct ElementaryExchange {
    pub product_id: String,
    pub zero_amount: bool,
}

/// A parsed activity, under its composite id `<process>_<product>`.
pub struct Process {
    pub id: String,
    pub activity_name: String,
    pub location: String,
    pub intermediates: Vec<IntermediateExchange>,
    pub elementaries: Vec<ElementaryExchange>,
}

/// The value of exchange `exchange` of process `process` goes to `slot`,
/// negated when `negate` holds.
#[derive(Debug, Clone, Copy, PartialEq, Eq, Structural)]
pub struct Contribution {
    pub slot: usize,
    pub process: usize,
    pub exchange: usize,
    pub negate: bool,
}

/// Why the matrices could not be built.
#[derive(Debug, Clone, Copy, PartialEq, Eq, Structural)]
pub enum TopologyError {
    /// Two processes share an id.
    DuplicateId,
    /// More labels than 32-bit indices can address.
    TooLarge,
}

/// The row that intermediate exchange `x` of `p` contributes to: the linked
/// activity's product, or `p`'s own reference product.
pub open spec fn row_key(p: Process, x: int) -> Seq<char> {
    match p.intermediates@[x].process_id {
        Some(pid) => pid@ + "_"@ + p.intermediates@[x].product_id@,
        None => p.id@,
    }
}

/// Upper bound on the labels that one process brings.
pub open spec fn share(p: Process) -> nat {
    1 + p.intermediates@.len() + p.elementaries@.len()
}

/// Sum of the shares of the first `i` processes.
pub open spec fn total_share(ps: Seq<Process>, i: int) -> nat
    decreases i,
{
    if i <= 0 {
        0
    } else {
        total_share(ps, i - 1) + share(ps[i - 1])
    }
}

/// Sum of the shares of the first `i` processes that are no longer pending.
pub open spec fn done_share(ps: Seq<Process>, pending: Seq<bool>, i: int) -> nat
    decreases i,
{
    if i <= 0 {
        0
    } else {
        done_share(ps, pending, i - 1) + if pending[i - 1] {
            0
        } else {
            share(ps[i - 1])
        }
    }
}

/// Number of pending processes among the first `i`.
pub open spec fn pending_count(pending: Seq<bool>, i: int) -> nat
    decreases i,
{
    if i <= 0 {
        0
    } else {
        pending_count(pending, i - 1) + if pending[i - 1] {
            1nat
        } else {
            0
        }
    }
}

proof fn lemma_done_le_total(ps: Seq<Process>, pending: Seq<bool>, i: int)
    ensures
        done_share(ps, pending, i) <= total_share(ps, i),
    decreases i,
{
    if i > 0 {
        lemma_done_le_total(ps, pending, i - 1);
    }
}

proof fn lemma_total_monotone(ps: Seq<Process>, i: int, j: int)
    requires
        i <= j,
    ensures
        total_share(ps, i) <= total_share(ps, j),
    decreases j - i,
{
    if i < j {
        lemma_total_monotone(ps, i, j - 1);
    }
}

proof fn lemma_flip(ps: Seq<Process>, pending: Seq<bool>, k: int, i: int)
    requires
        0 <= k < pending.len(),
        pending[k],
        i <= pending.len(),
    ensures
        done_share(ps, pending.update(k, false), i) == done_share(ps, pending, i) + if k < i {
            share(ps[k])
        } else {
            0
        },
        pending_count(pending.update(k, false), i) + if k < i {
            1nat
        } else {
            0
        } == pending_count(pending, i),
    decreases i,
{
    if i > 0 {
        lemma_flip(ps, pending, k, i - 1);
    }
}

proof fn lemma_count_zero(pending: Seq<bool>, i: int, k: int)
    requires
        pending_count(pending, i) == 0,
        0 <= k < i <= pending.len(),
    ensures
        !pending[k],
    decreases i,
{
    if k < i - 1 {
        lemma_count_zero(pending, i - 1, k);
    }
}

proof fn lemma_count_all(i: int, n: int)
    requires
        0 <= i <= n,
    ensures
        pending_count(Seq::new(n as nat, |q: int| true), i) == i,
    decreases i,
{
    if i > 0 {
        lemma_count_all(i - 1, n);
    }
}

proof fn lemma_done_all_pending(ps: Seq<Process>, n: int, i: int)
    requires
        0 <= i <= n,
    ensures
        done_share(ps, Seq::new(n as nat, |q: int| true), i) == 0,
    decreases i,
{
    if i > 0 {
        lemma_done_all_pending(ps, n, i - 1);
    }
}

proof fn lemma_share_at_least(ps: Seq<Process>, k: int)
    requires
        0 <= k,
    ensures
        total_share(ps, k) >= k,
    decreases k,
{
    if k > 0 {
        lemma_share_at_least(ps, k - 1);
    }
}

proof fn lemma_some_pending(pending: Seq<bool>, n: int, cursor: int)
    requires
        pending_count(pending, n) > 0,
        0 <= cursor <= n <= pending.len(),
        forall|k: int| 0 <= k < cursor ==> !pending[k],
    ensures
        exists|k: int| cursor <= k < n && pending[k],
    decreases n,
{
    if cursor == n {
        lemma_count_none(pending, n);
    } else if !pending[n - 1] {
        lemma_some_pending(pending, n - 1, cursor);
    }
}

proof fn lemma_count_none(pending: Seq<bool>, i: int)
    requires
        0 <= i <= pending.len(),
        forall|k: int| 0 <= k < i ==> !pending[k],
    ensures
        pending_count(pending, i) == 0,
    decreases i,
{
    if i > 0 {
        lemma_count_none(pending, i - 1);
    }
}

/// Whether all shares together stay below `MAX_DIM`.
fn fits(processes: &Vec<Process>) -> (r: bool)
    ensures
        r == (total_share(processes@, processes@.len() as int) < MAX_DIM),
{
    let mut total: usize = 0;
    let mut k: usize = 0;
    while k < processes.len()
        invariant
            k <= processes@.len(),
            total == total_share(processes@, k as int),
            total < MAX_DIM,
        decreases processes@.len() - k,
    {
        let p = &processes[k];
        let add = 1 + p.intermediates.len() as u128 + p.elementaries.len() as u128;
        if total as u128 + add >= MAX_DIM as u128 {
            proof {
                lemma_total_monotone(processes@, k + 1, processes@.len() as int);
            }
            return false;
        }
        total = total + add as usize;
        k = k + 1;
    }
    true
}


/// The ids of the processes, in order.
pub open spec fn process_ids(ps: Seq<Process>) -> Seq<Seq<char>> {
    Seq::new(ps.len(), |k: int| ps[k].id@)
}

/// `l` is the row of a process or of a link of one.
pub open spec fn row_origin(ps: Seq<Process>, l: Seq<char>) -> bool {
    process_ids(ps).contains(l) || exists|k: int, x: int|
        0 <= k < ps.len() && 0 <= x < ps[k].intermediates@.len() && #[trigger] row_key(ps[k], x) == l
}

/// Every label of `rows` is the row of a process or of a link.
pub open spec fn rows_have_origin(ps: Seq<Process>, rows: Seq<Seq<char>>) -> bool {
    forall|r: int| 0 <= r < rows.len() ==> #[trigger] row_origin(ps, rows[r])
}

proof fn lemma_rows_extend(ps: Seq<Process>, rows: Seq<Seq<char>>, l: Seq<char>)
    requires
        rows_have_origin(ps, rows),
        row_origin(ps, l),
    ensures
        rows_have_origin(ps, with_label(rows, l)),
{
    let w = with_label(rows, l);
    assert forall|r: int| 0 <= r < w.len() implies #[trigger] row_origin(ps, w[r]) by {
        if r < rows.len() {
            assert(w[r] == rows[r]);
        }
    }
}

/// `c` sends the value of an intermediate exchange to its coordinate in `entries`.
pub open spec fn technology_contribution(
    ps: Seq<Process>,
    entries: Seq<(Seq<char>, Seq<char>)>,
    c: Contribution,
) -> bool {
    &&& c.process < ps.len()
    &&& c.exchange < ps[c.process as int].intermediates@.len()
    &&& c.slot < entries.len()
    &&& entries[c.slot as int] == (row_key(ps[c.process as int], c.exchange as int), ps[c.process as int].id@)
    &&& c.negate == ps[c.process as int].intermediates@[c.exchange as int].input
}

/// `c` sends the value of a non-zero elementary exchange to its coordinate in `entries`.
pub open spec fn intervention_contribution(
    ps: Seq<Process>,
    entries: Seq<(Seq<char>, Seq<char>)>,
    c: Contribution,
) -> bool {
    &&& c.process < ps.len()
    &&& c.exchange < ps[c.process as int].elementaries@.len()
    &&& c.slot < entries.len()
    &&& !ps[c.process as int].elementaries@[c.exchange as int].zero_amount
    &&& entries[c.slot as int] == (
        ps[c.process as int].elementaries@[c.exchange as int].product_id@,
        ps[c.process as int].id@,
    )
    &&& !c.negate
}

/// No two contributions name the same exchange.
pub open spec fn distinct_sources(cs: Seq<Contribution>) -> bool {
    forall|q1: int, q2: int|
        0 <= q1 < cs.len() && 0 <= q2 < cs.len() && q1 != q2 ==> (#[trigger] cs[q1].process, cs[q1].exchange)
            != (#[trigger] cs[q2].process, cs[q2].exchange)
}

/// Some contribution names exchange `x` of process `k`.
pub open spec fn has_source(cs: Seq<Contribution>, k: int, x: int) -> bool {
    exists|q: int| 0 <= q < cs.len() && #[trigger] cs[q].process == k && cs[q].exchange == x
}

/// Some contribution goes to slot `s`.
pub open spec fn has_slot(cs: Seq<Contribution>, s: int) -> bool {
    exists|q: int| 0 <= q < cs.len() && #[trigger] cs[q].slot == s
}

/// The builders of the technology matrix A and the intervention matrix B, and
/// where the value of each exchange goes.
pub struct Topology {
    pub technology: MappedMatrixBuilder,
    pub intervention: MappedMatrixBuilder,
    pub technology_values: Vec<Contribution>,
    pub intervention_values: Vec<Contribution>,
}

/// The ids of the processes as a label map, or `None` when two coincide.
fn index_ids(processes: &Vec<Process>) -> (r: Option<LabelMap>)
    requires
        processes@.len() < MAX_DIM,
    ensures
        r is Some <==> process_ids(processes@).no_duplicates(),
        r matches Some(m) ==> m.wf() && m@ == process_ids(processes@),
{
    let mut m = LabelMap::new();
    let mut k: usize = 0;
    while k < processes.len()
        invariant
            k <= processes@.len() < MAX_DIM,
            m.wf(),
            m@ == process_ids(processes@).take(k as int),
            m@.no_duplicates(),
        decreases processes@.len() - k,
    {
        let ghost before = m@;
        let i = m.insert(processes[k].id.clone());
        if i != k {
            proof {
                assert(before.contains(processes@[k as int].id@));
                let q = choose|q: int| 0 <= q < k && before[q] == processes@[k as int].id@;
                assert(process_ids(processes@)[q] == process_ids(processes@)[k as int]);
            }
            return None;
        }
        k = k + 1;
        assert(m@ =~= process_ids(processes@).take(k as int));
    }
    assert(m@ =~= process_ids(processes@));
    Some(m)
}


/// `t` holds the matrices of the processes `ps`: every process is a column of
/// A and of B and a row of A; every contribution sends an exchange's value to
/// its coordinate; every exchange (every non-zero elementary one, for B) has
/// exactly one contribution; every entry receives some contribution.
pub open spec fn topology_of(ps: Seq<Process>, t: Topology) -> bool {
    let a = t.technology;
    let b = t.intervention;
    let ca = t.technology_values@;
    let cb = t.intervention_values@;
    &&& a.wf()
    &&& b.wf()
    &&& a.col_labels().len() == ps.len()
    &&& b.col_labels() == a.col_labels()
    &&& forall|k: int| 0 <= k < ps.len() ==> a.col_labels().contains(#[trigger] ps[k].id@)
    &&& forall|k: int| 0 <= k < ps.len() ==> a.row_labels().contains(#[trigger] ps[k].id@)
    &&& rows_have_origin(ps, a.row_labels())
    &&& forall|q: int| 0 <= q < ca.len() ==> technology_contribution(ps, a.entries(), #[trigger] ca[q])
    &&& forall|q: int| 0 <= q < cb.len() ==> intervention_contribution(ps, b.entries(), #[trigger] cb[q])
    &&& distinct_sources(ca)
    &&& distinct_sources(cb)
    &&& forall|k: int, x: int|
        0 <= k < ps.len() && 0 <= x < ps[k].intermediates@.len() ==> #[trigger] has_source(ca, k, x)
    &&& forall|k: int, x: int|
        0 <= k < ps.len() && 0 <= x < ps[k].elementaries@.len()
            && !ps[k].elementaries@[x].zero_amount ==> #[trigger] has_source(cb, k, x)
    &&& forall|s: int| 0 <= s < a.entries().len() ==> #[trigger] has_slot(ca, s)
    &&& forall|s: int| 0 <= s < b.entries().len() ==> #[trigger] has_slot(cb, s)
}

/// Builds the technology matrix A and the intervention matrix B of a set of
/// processes, walking the links between activities breadth first.
///
/// Each process becomes a column of A and of B, under its id, and a row of A.
/// Each of its intermediate exchanges adds a triplet to A at
/// `(row_key, id)`, negated when the exchange is an input; each elementary
/// exchange with a non-zero amount adds a triplet to B at `(product, id)`.
pub fn build_matrices(processes: &Vec<Process>) -> (r: Result<Topology, TopologyError>)
    ensures
        r == Err::<Topology, TopologyError>(TopologyError::TooLarge) <==> total_share(
            processes@,
            processes@.len() as int,
        ) >= MAX_DIM,
        r == Err::<Topology, TopologyError>(TopologyError::DuplicateId) <==> (total_share(
            processes@,
            processes@.len() as int,
        ) < MAX_DIM && !process_ids(processes@).no_duplicates()),
        r matches Ok(t) ==> topology_of(processes@, t),
{
    if !fits(processes) {
        return Err(TopologyError::TooLarge);
    }
    let ghost ps = processes@;
    let n = processes.len();
    proof {
        lemma_total_monotone(ps, 0, n as int);
        assert forall|k: int| 0 <= k <= n implies total_share(ps, k) >= k by {
            lemma_share_at_least(ps, k);
        }
    }
    let ids = match index_ids(processes) {
        Some(m) => m,
        None => {
            return Err(TopologyError::DuplicateId);
        },
    };
    let mut a = MappedMatrixBuilder::new();
    let mut b = MappedMatrixBuilder::new();
    let mut ca: Vec<Contribution> = Vec::new();
    let mut cb: Vec<Contribution> = Vec::new();
    let mut pending: Vec<bool> = Vec::new();
    let mut k0: usize = 0;
    while k0 < n
        invariant
            k0 <= n,
            pending@ == Seq::new(k0 as nat, |q: int| true),
        decreases n - k0,
    {
        pending.push(true);
        k0 = k0 + 1;
        assert(pending@ =~= Seq::new(k0 as nat, |q: int| true));
    }
    proof {
        lemma_count_all(n as int, n as int);
        lemma_done_all_pending(ps, n as int, n as int);
    }
    let mut remaining: usize = n;
    let mut queue: Vec<usize> = Vec::new();
    let mut head: usize = 0;
    let mut cursor: usize = 0;
    while remaining > 0
        invariant
            ps == processes@,
            n == ps.len(),
            ids.wf(),
            ids@ == process_ids(ps),
            process_ids(ps).no_duplicates(),
            total_share(ps, n as int) < MAX_DIM,
            pending@.len() == n,
            remaining == pending_count(pending@, n as int),
            remaining <= n,
            cursor <= n,
            forall|k: int| 0 <= k < cursor ==> !pending@[k],
            head <= queue@.len(),
            forall|t: int| 0 <= t < queue@.len() ==> #[trigger] queue@[t] < n,
            a.wf(),
            b.wf(),
            a.row_labels().len() <= done_share(ps, pending@, n as int),
            a.col_labels().len() <= done_share(ps, pending@, n as int),
            b.row_labels().len() <= done_share(ps, pending@, n as int),
            a.col_labels().len() == n - remaining,
            b.col_labels() == a.col_labels(),
            forall|j: int|
                0 <= j < a.col_labels().len() ==> exists|k: int|
                    0 <= k < n && !pending@[k] && #[trigger] a.col_labels()[j] == ps[k].id@,
            forall|k: int| 0 <= k < n && !pending@[k] ==> a.col_labels().contains(#[trigger] ps[k].id@),
            forall|k: int| 0 <= k < n && !pending@[k] ==> a.row_labels().contains(#[trigger] ps[k].id@),
            rows_have_origin(ps, a.row_labels()),
            forall|q: int| 0 <= q < ca@.len() ==> technology_contribution(ps, a.entries(), #[trigger] ca@[q]),
            forall|q: int| 0 <= q < cb@.len() ==> intervention_contribution(ps, b.entries(), #[trigger] cb@[q]),
            forall|q: int| 0 <= q < ca@.len() ==> !pending@[(#[trigger] ca@[q]).process as int],
            forall|q: int| 0 <= q < cb@.len() ==> !pending@[(#[trigger] cb@[q]).process as int],
            distinct_sources(ca@),
            distinct_sources(cb@),
            forall|k: int, x: int|
                0 <= k < n && !pending@[k] && 0 <= x < ps[k].intermediates@.len() ==> #[trigger] has_source(ca@, k, x),
            forall|k: int, x: int|
                0 <= k < n && !pending@[k] && 0 <= x < ps[k].elementaries@.len()
                    && !ps[k].elementaries@[x].zero_amount ==> #[trigger] has_source(cb@, k, x),
            forall|s: int| 0 <= s < a.entries().len() ==> #[trigger] has_slot(ca@, s),
            forall|s: int| 0 <= s < b.entries().len() ==> #[trigger] has_slot(cb@, s),
        decreases remaining, queue@.len() - head,
    {
        if head == queue.len() {
            proof {
                lemma_some_pending(pending@, n as int, cursor as int);
            }
            while !pending[cursor]
                invariant
                    cursor < n,
                    pending@.len() == n,
                    exists|k: int| cursor <= k < n && pending@[k],
                    forall|k: int| 0 <= k < cursor ==> !pending@[k],
                decreases n - cursor,
            {
                cursor = cursor + 1;
            }
            queue.push(cursor);
        }
        let qlen = queue.len();
        let col = queue[head];
        assert(head < qlen);
        head = head + 1;
        if !pending[col] {
            continue;
        }
        let p = &processes[col];
        let id = p.id.clone();
        let ghost sp0 = done_share(ps, pending@, n as int);
        let ghost pend0 = pending@;
        proof {
            lemma_flip(ps, pending@, col as int, n as int);
            lemma_done_le_total(ps, pending@.update(col as int, false), n as int);
            if a.col_labels().contains(id@) {
                let j = choose|j: int| 0 <= j < a.col_labels().len() && a.col_labels()[j] == id@;
                let k = choose|k: int|
                    0 <= k < n && !pending@[k] && #[trigger] a.col_labels()[j] == ps[k].id@;
                assert(process_ids(ps)[k] == process_ids(ps)[col as int]);
            }
            assert forall|q: int| 0 <= q < ca@.len() implies (#[trigger] ca@[q]).process != col by {}
            assert forall|q: int| 0 <= q < cb@.len() implies (#[trigger] cb@[q]).process != col by {}
        }
        let ghost cols0 = a.col_labels();
        a.add_col(id.clone());
        let ghost rows0 = a.row_labels();
        a.add_row(id.clone());
        proof {
            assert(process_ids(ps)[col as int] == id@);
            lemma_rows_extend(ps, rows0, id@);
        }
        b.add_col(id.clone());
        pending.set(col, false);
        remaining = remaining - 1;
        proof {
            assert forall|k: int| 0 <= k < n && !pending@[k] implies a.col_labels().contains(#[trigger] ps[k].id@) by {
                if k != col {
                    assert(!pend0[k]);
                }
            }
            assert forall|k: int| 0 <= k < n && !pending@[k] implies a.row_labels().contains(#[trigger] ps[k].id@) by {
                if k != col {
                    assert(!pend0[k]);
                }
            }
            assert forall|j: int|
                0 <= j < a.col_labels().len() implies exists|k: int|
                    0 <= k < n && !pending@[k] && #[trigger] a.col_labels()[j] == ps[k].id@ by {
                if j == a.col_labels().len() - 1 {
                    assert(a.col_labels()[j] == ps[col as int].id@);
                    assert(!pending@[col as int]);
                } else {
                    assert(a.col_labels()[j] == cols0[j]);
                    let k = choose|k: int| 0 <= k < n && !pend0[k] && #[trigger] cols0[j] == ps[k].id@;
                    assert(!pending@[k]);
                    assert(0 <= k < n && !pending@[k] && a.col_labels()[j] == ps[k].id@);
                }
            }
        }
        let ghost ca0 = ca@;
        let mut x: usize = 0;
        while x < p.intermediates.len()
            invariant
                ps == processes@,
                n == ps.len(),
                col < n,
                *p == ps[col as int],
                id@ == p.id@,
                ids.wf(),
                ids@ == process_ids(ps),
                pending@.len() == n,
                !pending@[col as int],
                forall|k: int| 0 <= k < cursor ==> !pending@[k],
                cursor <= n,
                remaining == pending_count(pending@, n as int),
                head <= queue@.len(),
                forall|t: int| 0 <= t < queue@.len() ==> #[trigger] queue@[t] < n,
                done_share(ps, pending@, n as int) == sp0 + share(*p),
                done_share(ps, pending@, n as int) < MAX_DIM,
                x <= p.intermediates@.len(),
                a.wf(),
                b.wf(),
                a.row_labels().len() <= sp0 + 1 + x,
                a.col_labels().len() <= sp0 + 1,
                b.row_labels().len() <= sp0,
                a.col_labels().contains(id@),
                a.col_labels().len() == n - remaining,
                b.col_labels() == a.col_labels(),
                forall|j: int|
                    0 <= j < a.col_labels().len() ==> exists|k: int|
                        0 <= k < n && !pending@[k] && #[trigger] a.col_labels()[j] == ps[k].id@,
                forall|k: int| 0 <= k < n && !pending@[k] ==> a.col_labels().contains(#[trigger] ps[k].id@),
                forall|k: int| 0 <= k < n && !pending@[k] ==> a.row_labels().contains(#[trigger] ps[k].id@),
                rows_have_origin(ps, a.row_labels()),
                forall|q: int| 0 <= q < ca@.len() ==> technology_contribution(ps, a.entries(), #[trigger] ca@[q]),
                forall|q: int| 0 <= q < cb@.len() ==> intervention_contribution(ps, b.entries(), #[trigger] cb@[q]),
                forall|q: int| 0 <= q < ca@.len() ==> !pending@[(#[trigger] ca@[q]).process as int],
                forall|q: int| 0 <= q < cb@.len() ==> !pending@[(#[trigger] cb@[q]).process as int],
                forall|q: int| 0 <= q < ca@.len() && (#[trigger] ca@[q]).process == col ==> ca@[q].exchange < x,
                forall|q: int| 0 <= q < cb@.len() ==> (#[trigger] cb@[q]).process != col,
                distinct_sources(ca@),
                distinct_sources(cb@),
                forall|k: int, xx: int|
                    0 <= k < n && !pending@[k] && 0 <= xx < ps[k].intermediates@.len() && (k != col || xx < x) ==> #[trigger] has_source(ca@, k, xx),
                forall|k: int, xx: int|
                    0 <= k < n && !pending@[k] && k != col && 0 <= xx < ps[k].elementaries@.len()
                        && !ps[k].elementaries@[xx].zero_amount ==> #[trigger] has_source(cb@, k, xx),
                forall|s: int| 0 <= s < a.entries().len() ==> #[trigger] has_slot(ca@, s),
                forall|s: int| 0 <= s < b.entries().len() ==> #[trigger] has_slot(cb@, s),
            decreases p.intermediates@.len() - x,
        {
            let e = &p.intermediates[x];
            let row_id = match &e.process_id {
                Some(pid) => {
                    let key = pid.clone().concat("_").concat(e.product_id.as_str());
                    if !e.zero_amount {
                        match ids.index_of(key.as_str()) {
                            Some(k) => {
                                if pending[k] {
                                    queue.push(k);
                                }
                            },
                            None => {},
                        }
                    }
                    key
                },
                None => id.clone(),
            };
            proof {
                assert(row_id@ == row_key(*p, x as int));
            }
            let ghost before = a.entries();
            let ghost rows0 = a.row_labels();
            proof {
                assert(row_key(ps[col as int], x as int) == row_id@);
                if e.process_id is None {
                    assert(process_ids(ps)[col as int] == row_id@);
                }
            }
            let slot = a.add_triplet(row_id, id.clone());
            proof {
                lemma_rows_extend(ps, rows0, row_key(ps[col as int], x as int));
            }
            let c = Contribution { slot, process: col, exchange: x, negate: e.input };
            let ghost ca1 = ca@;
            ca.push(c);
            proof {
                assert forall|q: int| 0 <= q < before.len() implies a.entries()[q] == before[q] by {}
                assert forall|q: int| 0 <= q < ca@.len() implies technology_contribution(ps, a.entries(), #[trigger] ca@[q]) by {
                    if q < ca1.len() {
                        assert(ca@[q] == ca1[q]);
                    }
                }
                assert forall|q1: int, q2: int|
                    0 <= q1 < ca@.len() && 0 <= q2 < ca@.len() && q1 != q2 implies (#[trigger] ca@[q1].process, ca@[q1].exchange)
                        != (#[trigger] ca@[q2].process, ca@[q2].exchange) by {
                    if q1 < ca1.len() && q2 < ca1.len() {
                        assert(ca@[q1] == ca1[q1] && ca@[q2] == ca1[q2]);
                    } else if q1 < ca1.len() {
                        assert(ca@[q1] == ca1[q1]);
                    } else if q2 < ca1.len() {
                        assert(ca@[q2] == ca1[q2]);
                    }
                }
                assert forall|k: int, xx: int|
                    0 <= k < n && !pending@[k] && 0 <= xx < ps[k].intermediates@.len() && (k != col || xx < x + 1) implies #[trigger] has_source(ca@, k, xx) by {
                    if k == col && xx == x {
                        assert(ca@[ca1.len() as int].process == k && ca@[ca1.len() as int].exchange == xx);
                    } else {
                        assert(has_source(ca1, k, xx));
                        let q = choose|q: int| 0 <= q < ca1.len() && #[trigger] ca1[q].process == k && ca1[q].exchange == xx;
                        assert(ca@[q] == ca1[q]);
                    }
                }
                assert forall|s: int| 0 <= s < a.entries().len() implies #[trigger] has_slot(ca@, s) by {
                    if s == slot {
                        assert(ca@[ca1.len() as int].slot == s);
                    } else {
                        assert(s < before.len());
                        assert(has_slot(ca1, s));
                        let q = choose|q: int| 0 <= q < ca1.len() && #[trigger] ca1[q].slot == s;
                        assert(ca@[q] == ca1[q]);
                    }
                }
                assert forall|k: int| 0 <= k < n && !pending@[k] implies a.row_labels().contains(#[trigger] ps[k].id@) by {}
            }
            x = x + 1;
        }
        let mut y: usize = 0;
        while y < p.elementaries.len()
            invariant
                ps == processes@,
                n == ps.len(),
                col < n,
                *p == ps[col as int],
                id@ == p.id@,
                ids.wf(),
                ids@ == process_ids(ps),
                pending@.len() == n,
                !pending@[col as int],
                forall|k: int| 0 <= k < cursor ==> !pending@[k],
                cursor <= n,
                remaining == pending_count(pending@, n as int),
                head <= queue@.len(),
                forall|t: int| 0 <= t < queue@.len() ==> #[trigger] queue@[t] < n,
                done_share(ps, pending@, n as int) == sp0 + share(*p),
                done_share(ps, pending@, n as int) < MAX_DIM,
                y <= p.elementaries@.len(),
                a.wf(),
                b.wf(),
                a.row_labels().len() <= sp0 + 1 + p.intermediates@.len(),
                a.col_labels().len() <= sp0 + 1,
                b.row_labels().len() <= sp0 + y,
                a.col_labels().contains(id@),
                a.col_labels().len() == n - remaining,
                b.col_labels() == a.col_labels(),
                forall|j: int|
                    0 <= j < a.col_labels().len() ==> exists|k: int|
                        0 <= k < n && !pending@[k] && #[trigger] a.col_labels()[j] == ps[k].id@,
                forall|k: int| 0 <= k < n && !pending@[k] ==> a.col_labels().contains(#[trigger] ps[k].id@),
                forall|k: int| 0 <= k < n && !pending@[k] ==> a.row_labels().contains(#[trigger] ps[k].id@),
                rows_have_origin(ps, a.row_labels()),
                forall|q: int| 0 <= q < ca@.len() ==> technology_contribution(ps, a.entries(), #[trigger] ca@[q]),
                forall|q: int| 0 <= q < cb@.len() ==> intervention_contribution(ps, b.entries(), #[trigger] cb@[q]),
                forall|q: int| 0 <= q < ca@.len() ==> !pending@[(#[trigger] ca@[q]).process as int],
                forall|q: int| 0 <= q < cb@.len() ==> !pending@[(#[trigger] cb@[q]).process as int],
                forall|q: int| 0 <= q < cb@.len() && (#[trigger] cb@[q]).process == col ==> cb@[q].exchange < y,
                distinct_sources(ca@),
                distinct_sources(cb@),
                forall|k: int, xx: int|
                    0 <= k < n && !pending@[k] && 0 <= xx < ps[k].intermediates@.len() ==> #[trigger] has_source(ca@, k, xx),
                forall|k: int, xx: int|
                    0 <= k < n && !pending@[k] && (k != col || xx < y) && 0 <= xx < ps[k].elementaries@.len()
                        && !ps[k].elementaries@[xx].zero_amount ==> #[trigger] has_source(cb@, k, xx),
                forall|s: int| 0 <= s < a.entries().len() ==> #[trigger] has_slot(ca@, s),
                forall|s: int| 0 <= s < b.entries().len() ==> #[trigger] has_slot(cb@, s),
            decreases p.elementaries@.len() - y,
        {
            let e = &p.elementaries[y];
            if !e.zero_amount {
                let ghost before = b.entries();
                let slot = b.add_triplet(e.product_id.clone(), id.clone());
                let c = Contribution { slot, process: col, exchange: y, negate: false };
                let ghost cb1 = cb@;
                cb.push(c);
                proof {
                    assert forall|q: int| 0 <= q < before.len() implies b.entries()[q] == before[q] by {}
                    assert forall|q: int| 0 <= q < cb@.len() implies intervention_contribution(ps, b.entries(), #[trigger] cb@[q]) by {
                        if q < cb1.len() {
                            assert(cb@[q] == cb1[q]);
                        }
                    }
                    assert forall|q1: int, q2: int|
                        0 <= q1 < cb@.len() && 0 <= q2 < cb@.len() && q1 != q2 implies (#[trigger] cb@[q1].process, cb@[q1].exchange)
                            != (#[trigger] cb@[q2].process, cb@[q2].exchange) by {
                        if q1 < cb1.len() && q2 < cb1.len() {
                            assert(cb@[q1] == cb1[q1] && cb@[q2] == cb1[q2]);
                        } else if q1 < cb1.len() {
                            assert(cb@[q1] == cb1[q1]);
                        } else if q2 < cb1.len() {
                            assert(cb@[q2] == cb1[q2]);
                        }
                    }
                    assert forall|k: int, xx: int|
                        0 <= k < n && !pending@[k] && (k != col || xx < y + 1) && 0 <= xx < ps[k].elementaries@.len()
                            && !ps[k].elementaries@[xx].zero_amount implies #[trigger] has_source(cb@, k, xx) by {
                        if k == col && xx == y {
                            assert(cb@[cb1.len() as int].process == k && cb@[cb1.len() as int].exchange == xx);
                        } else {
                            assert(has_source(cb1, k, xx));
                            let q = choose|q: int| 0 <= q < cb1.len() && #[trigger] cb1[q].process == k && cb1[q].exchange == xx;
                            assert(cb@[q] == cb1[q]);
                        }
                    }
                    assert forall|s: int| 0 <= s < b.entries().len() implies #[trigger] has_slot(cb@, s) by {
                        if s == slot {
                            assert(cb@[cb1.len() as int].slot == s);
                        } else {
                            assert(s < before.len());
                            assert(has_slot(cb1, s));
                            let q = choose|q: int| 0 <= q < cb1.len() && #[trigger] cb1[q].slot == s;
                            assert(cb@[q] == cb1[q]);
                        }
                    }
                }
            }
            y = y + 1;
        }
    }
    proof {
        assert forall|k: int| 0 <= k < n implies !pending@[k] by {
            lemma_count_zero(pending@, n as int, k);
        }
    }
    Ok(Topology { technology: a, intervention: b, technology_values: ca, intervention_values: cb })
}

/// Index of the reference product of `p`: the first intermediate exchange
/// without a linked activity whose product is `product`.
pub open spec fn is_reference_product(p: Process, product: Seq<char>, x: int) -> bool {
    &&& 0 <= x < p.intermediates@.len()
    &&& p.intermediates@[x].process_id is None
    &&& p.intermediates@[x].product_id@ == product
    &&& forall|y: int|
        0 <= y < x ==> !(p.intermediates@[y].process_id is None
            && #[trigger] p.intermediates@[y].product_id@ == product)
}

/// Why no candidate could be made of a process.
#[derive(Debug, Clone, Copy, PartialEq, Eq, Structural)]
pub enum CandidateError {
    /// The process id is malformed.
    Id(IdError),
    /// No exchange is the reference product named by the id.
    NoProduct,
}

/// The reference product of `p` for the product text `product`.
fn find_product(p: &Process, product: &String) -> (r: Option<usize>)
    ensures
        r matches Some(x) ==> is_reference_product(*p, product@, x as int),
        r is None ==> forall|x: int|
            0 <= x < p.intermediates@.len() ==> !(p.intermediates@[x].process_id is None
                && #[trigger] p.intermediates@[x].product_id@ == product@),
{
    let mut x: usize = 0;
    while x < p.intermediates.len()
        invariant
            x <= p.intermediates@.len(),
            forall|y: int|
                0 <= y < x ==> !(p.intermediates@[y].process_id is None
                    && #[trigger] p.intermediates@[y].product_id@ == product@),
        decreases p.intermediates@.len() - x,
    {
        let e = &p.intermediates[x];
        if e.process_id.is_none() && e.product_id == *product {
            return Some(x);
        }
        x = x + 1;
    }
    None
}

/// `item` is the candidate of `p`: the activity's name and location, and the
/// name and unit of its reference product, in database `Ecoinvent_<version>`.
pub open spec fn is_candidate(p: Process, version: Seq<char>, item: InventoryItem) -> bool {
    ids_from_str_spec(p.id@) matches Ok(pq) && exists|x: int|
        is_reference_product(p, hyphenated(pq.1), x) && {
            let e = p.intermediates@[x];
            &&& item.id@ == p.id@
            &&& item.database@ == "Ecoinvent_"@ + version
            &&& item.name@ == p.activity_name@
            &&& (item.alt_name matches Some(n) && n@ == e.name@)
            &&& (item.location matches Some(l) && l@ == p.location@)
            &&& item.unit@ == e.unit@
        }
}

/// The candidate of process `p` for the search index: the activity's name and
/// location, and the name and unit of its reference product, in database
/// `Ecoinvent_<version>`.
pub fn candidate(p: &Process, version: &str) -> (r: Result<InventoryItem, CandidateError>)
    ensures
        ids_from_str_spec(p.id@) matches Err(e) ==> r == Err::<InventoryItem, CandidateError>(CandidateError::Id(e)),
        ids_from_str_spec(p.id@) matches Ok(pq) ==> {
            let product = hyphenated(pq.1);
            &&& r is Err <==> forall|x: int|
                0 <= x < p.intermediates@.len() ==> !(p.intermediates@[x].process_id is None
                    && #[trigger] p.intermediates@[x].product_id@ == product)
            &&& r is Err ==> r == Err::<InventoryItem, CandidateError>(CandidateError::NoProduct)
            &&& r matches Ok(item) ==> is_candidate(*p, version@, item)
        },
{
    let product = match product_text(p.id.as_str()) {
        Ok(t) => t,
        Err(e) => {
            return Err(CandidateError::Id(e));
        },
    };
    match find_product(p, &product) {
        None => Err(CandidateError::NoProduct),
        Some(x) => {
            let e = &p.intermediates[x];
            let item = InventoryItem {
                id: p.id.clone(),
                database: String::from_str("Ecoinvent_").concat(version),
                name: p.activity_name.clone(),
                alt_name: Some(e.name.clone()),
                location: Some(p.location.clone()),
                unit: e.unit.clone(),
            };
            proof {
                assert(is_reference_product(*p, product@, x as int));
            }
            Ok(item)
        },
    }
}

/// The candidates of all processes, in order; the first failure stops.
pub fn build_candidates(processes: &Vec<Process>, version: &str) -> (r: Result<Vec<InventoryItem>, CandidateError>)
    ensures
        r matches Ok(items) ==> items@.len() == processes@.len() && forall|k: int|
            0 <= k < processes@.len() ==> is_candidate(processes@[k], version@, #[trigger] items@[k]),
        r is Ok <==> forall|k: int| 0 <= k < processes@.len() ==> #[trigger] candidate_exists(processes@[k]),
{
    let mut items: Vec<InventoryItem> = Vec::new();
    let mut k: usize = 0;
    while k < processes.len()
        invariant
            k <= processes@.len(),
            items@.len() == k,
            forall|q: int| 0 <= q < k ==> is_candidate(processes@[q], version@, #[trigger] items@[q]),
            forall|q: int| 0 <= q < k ==> #[trigger] candidate_exists(processes@[q]),
        decreases processes@.len() - k,
    {
        match candidate(&processes[k], version) {
            Ok(item) => {
                items.push(item);
            },
            Err(e) => {
                proof {
                    let p = processes@[k as int];
                    if candidate_exists(p) {
                        let pq = ids_from_str_spec(p.id@)->Ok_0;
                        let x = choose|x: int|
                            0 <= x < p.intermediates@.len() && p.intermediates@[x].process_id is None
                                && #[trigger] p.intermediates@[x].product_id@ == hyphenated(pq.1);
                        assert(p.intermediates@[x].product_id@ == hyphenated(pq.1));
                    }
                }
                return Err(e);
            },
        }
        k = k + 1;
    }
    Ok(items)
}

/// A candidate can be made of `p`: its id is well formed and names a
/// reference product of `p`.
pub open spec fn candidate_exists(p: Process) -> bool {
    ids_from_str_spec(p.id@) matches Ok(pq) && exists|x: int|
        0 <= x < p.intermediates@.len() && p.intermediates@[x].process_id is None
            && #[trigger] p.intermediates@[x].product_id@ == hyphenated(pq.1)
}

/// Each process that has an exchange of its own reference product (one with no
/// linked activity) has an entry of A on its own row and column.
pub proof fn lemma_reference_product_on_diagonal(ps: Seq<Process>, t: Topology, k: int, x: int)
    requires
        topology_of(ps, t),
        0 <= k < ps.len(),
        0 <= x < ps[k].intermediates@.len(),
        ps[k].intermediates@[x].process_id is None,
    ensures
        t.technology.entries().contains((ps[k].id@, ps[k].id@)),
{
    let ca = t.technology_values@;
    assert(has_source(ca, k, x));
    let q = choose|q: int| 0 <= q < ca.len() && #[trigger] ca[q].process == k && ca[q].exchange == x;
    assert(technology_contribution(ps, t.technology.entries(), ca[q]));
    assert(t.technology.entries()[ca[q].slot as int] == (ps[k].id@, ps[k].id@));
}

/// Each elementary exchange with a non-zero amount has an entry of B at its
/// flow's row and its process's column.
pub proof fn lemma_elementary_in_intervention(ps: Seq<Process>, t: Topology, k: int, x: int)
    requires
        topology_of(ps, t),
        0 <= k < ps.len(),
        0 <= x < ps[k].elementaries@.len(),
        !ps[k].elementaries@[x].zero_amount,
    ensures
        t.intervention.entries().contains((ps[k].elementaries@[x].product_id@, ps[k].id@)),
{
    let cb = t.intervention_values@;
    assert(has_source(cb, k, x));
    let q = choose|q: int| 0 <= q < cb.len() && #[trigger] cb[q].process == k && cb[q].exchange == x;
    assert(intervention_contribution(ps, t.intervention.entries(), cb[q]));
    assert(t.intervention.entries()[cb[q].slot as int] == (ps[k].elementaries@[x].product_id@, ps[k].id@));
}

/// A is square when every link names a process of the set: its rows are
/// then exactly the processes, as its columns are.
pub proof fn lemma_technology_square(ps: Seq<Process>, t: Topology)
    requires
        topology_of(ps, t),
        process_ids(ps).no_duplicates(),
        forall|k: int, x: int|
            0 <= k < ps.len() && 0 <= x < ps[k].intermediates@.len() ==> process_ids(ps).contains(
                #[trigger] row_key(ps[k], x),
            ),
    ensures
        t.technology.row_labels().len() == ps.len(),
        t.technology.col_labels().len() == ps.len(),
{
    let rows = t.technology.row_labels();
    let ids = process_ids(ps);
    t.technology.lemma_labels_distinct();
    assert(rows.to_set() =~= ids.to_set()) by {
        assert forall|l: Seq<char>| rows.to_set().contains(l) implies ids.to_set().contains(l) by {
            let r = choose|r: int| 0 <= r < rows.len() && rows[r] == l;
            assert(row_origin(ps, rows[r]));
        }
        assert forall|l: Seq<char>| ids.to_set().contains(l) implies rows.to_set().contains(l) by {
            let k = choose|k: int| 0 <= k < ids.len() && ids[k] == l;
            assert(rows.contains(ps[k].id@));
        }
    }
    rows.unique_seq_to_set();
    ids.unique_seq_to_set();
}

} // verus!
