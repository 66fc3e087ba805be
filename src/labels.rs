use vstd::prelude::*;
use bimap::BiHashMap;
use std::sync::Arc;

verus! {

/// bimap's `BiHashMap`, held opaque; its pairs are named by `label_pairs`.
#[verifier::external_type_specification]
#[verifier::external_body]
#[verifier::reject_recursive_types(L)]
#[verifier::reject_recursive_types(R)]
#[verifier::reject_recursive_types(LS)]
#[verifier::reject_recursive_types(RS)]
pub struct ExBiHashMap<L, R, LS, RS>(BiHashMap<L, R, LS, RS>);

/// The pairs held by a bidirectional map from labels to dense indices.
pub uninterp spec fn label_pairs(m: BiHashMap<String, usize>) -> Map<Seq<char>, usize>;

/// Relies on `BiHashMap::new`: a new map holds no pair.
#[verifier::external_body]
fn bimap_new() -> (r: BiHashMap<String, usize>)
    ensures
        label_pairs(r).dom() == Set::<Seq<char>>::empty(),
{
    BiHashMap::new()
}

/// Relies on `BiHashMap::get_by_left`: the index paired with a label.
#[verifier::external_body]
fn bimap_get_by_left(m: &BiHashMap<String, usize>, label: &str) -> (r: Option<usize>)
    ensures
        r == (if label_pairs(*m).contains_key(label@) {
            Some(label_pairs(*m)[label@])
        } else {
            None::<usize>
        }),
{
    m.get_by_left(label).copied()
}

/// Relies on `BiHashMap::get_by_right`: the label paired with an index.
#[verifier::external_body]
fn bimap_get_by_right(m: &BiHashMap<String, usize>, index: usize) -> (r: Option<String>)
    ensures
        r matches Some(s) ==> label_pairs(*m).contains_key(s@) && label_pairs(*m)[s@] == index,
        r is None ==> forall|k: Seq<char>|
            label_pairs(*m).contains_key(k) ==> label_pairs(*m)[k] != index,
{
    m.get_by_right(&index).cloned()
}

/// Relies on `BiHashMap::insert`: the new pair replaces every pair that shares
/// its label or its index.
#[verifier::external_body]
fn bimap_insert(m: &mut BiHashMap<String, usize>, label: String, index: usize)
    ensures
        label_pairs(*final(m)).contains_key(label@),
        label_pairs(*final(m))[label@] == index,
        forall|k: Seq<char>|
            #![trigger label_pairs(*final(m)).contains_key(k)]
            #![trigger label_pairs(*old(m)).contains_key(k)]
            k != label@ ==> (label_pairs(*final(m)).contains_key(k) <==> (label_pairs(
                *old(m),
            ).contains_key(k) && label_pairs(*old(m))[k] != index)),
        forall|k: Seq<char>|
            k != label@ && label_pairs(*final(m)).contains_key(k) ==> label_pairs(*final(m))[k]
                == label_pairs(*old(m))[k],
{
    m.insert(label, index);
}

/// A bijection between labels and the dense indices `0 .. len`.
///
/// The order of the labels is the order in which they were first added.
pub struct LabelMap {
    map: BiHashMap<String, usize>,
    order: Ghost<Seq<Seq<char>>>,
    size: usize,
}

impl View for LabelMap {
    type V = Seq<Seq<char>>;

    closed spec fn view(&self) -> Seq<Seq<char>> {
        self.order@
    }
}

impl LabelMap {
    pub closed spec fn wf(&self) -> bool {
        &&& self.size == self.order@.len()
        &&& forall|i: int|
            0 <= i < self.order@.len() ==> #[trigger] label_pairs(self.map).contains_key(
                self.order@[i],
            ) && label_pairs(self.map)[self.order@[i]] == i
        &&& forall|k: Seq<char>|
            #[trigger] label_pairs(self.map).contains_key(k) ==> label_pairs(self.map)[k]
                < self.order@.len() && self.order@[label_pairs(self.map)[k] as int] == k
    }

    pub proof fn lemma_distinct(&self)
        requires
            self.wf(),
        ensures
            self@.no_duplicates(),
    {
        assert forall|i: int, j: int|
            0 <= i < self@.len() && 0 <= j < self@.len() && i != j implies self@[i] != self@[j] by {
            assert(label_pairs(self.map).contains_key(self.order@[i]));
            assert(label_pairs(self.map).contains_key(self.order@[j]));
        }
    }

    /// An empty map.
    pub fn new() -> (r: LabelMap)
        ensures
            r.wf(),
            r@ == Seq::<Seq<char>>::empty(),
    {
        LabelMap { map: bimap_new(), order: Ghost(Seq::empty()), size: 0 }
    }

    /// Number of labels.
    pub fn len(&self) -> (r: usize)
        requires
            self.wf(),
        ensures
            r == self@.len(),
    {
        self.size
    }

    /// The index of `label`, if it has one.
    pub fn index_of(&self, label: &str) -> (r: Option<usize>)
        requires
            self.wf(),
        ensures
            r matches Some(i) ==> i < self@.len() && self@[i as int] == label@,
            r is None ==> !self@.contains(label@),
    {
        let r = bimap_get_by_left(&self.map, label);
        proof {
            if r is None {
                if self@.contains(label@) {
                    let i = choose|i: int| 0 <= i < self@.len() && self@[i] == label@;
                    assert(label_pairs(self.map).contains_key(self.order@[i]));
                }
            } else {
                assert(label_pairs(self.map).contains_key(label@));
            }
        }
        r
    }

    /// Whether `label` has an index.
    pub fn contains(&self, label: &str) -> (r: bool)
        requires
            self.wf(),
        ensures
            r == self@.contains(label@),
    {
        self.index_of(label).is_some()
    }

    /// The label at `index`, if `index` is in range.
    pub fn label_of(&self, index: usize) -> (r: Option<String>)
        requires
            self.wf(),
        ensures
            r matches Some(s) ==> index < self@.len() && s@ == self@[index as int],
            r is None ==> index >= self@.len(),
    {
        let r = bimap_get_by_right(&self.map, index);
        proof {
            if r is None && index < self@.len() {
                assert(label_pairs(self.map).contains_key(self.order@[index as int]));
            }
        }
        r
    }

    /// A map with the same labels at the same indices.
    pub fn copy_of(src: &LabelMap) -> (r: LabelMap)
        requires
            src.wf(),
        ensures
            r.wf(),
            r@ == src@,
    {
        let n = src.len();
        let mut r = LabelMap::new();
        let mut k: usize = 0;
        proof {
            src.lemma_distinct();
        }
        while k < n
            invariant
                src.wf(),
                n == src@.len(),
                src@.no_duplicates(),
                k <= n,
                r.wf(),
                r@ == src@.take(k as int),
            decreases n - k,
        {
            let l = src.label_of(k).unwrap();
            proof {
                if src@.take(k as int).contains(l@) {
                    let q = choose|q: int| 0 <= q < k && src@.take(k as int)[q] == l@;
                    assert(src@[q] == src@[k as int]);
                }
            }
            r.insert(l);
            k = k + 1;
            assert(r@ =~= src@.take(k as int));
        }
        assert(r@ =~= src@);
        r
    }

    /// The map giving each of `labels` its position, or `None` when two coincide.
    pub fn from_labels(labels: &Vec<String>) -> (r: Option<LabelMap>)
        ensures
            r is Some <==> labels@.map_values(|l: String| l@).no_duplicates(),
            r matches Some(m) ==> m.wf() && m@ == labels@.map_values(|l: String| l@),
    {
        let ghost want = labels@.map_values(|l: String| l@);
        if labels.len() == usize::MAX {
            proof {
                assert(want.len() == usize::MAX);
            }
        }
        let mut m = LabelMap::new();
        let mut k: usize = 0;
        while k < labels.len()
            invariant
                k <= labels@.len(),
                want == labels@.map_values(|l: String| l@),
                m.wf(),
                m@ == want.take(k as int),
                m@.no_duplicates(),
            decreases labels@.len() - k,
        {
            proof {
                m.lemma_distinct();
            }
            if m.contains(labels[k].as_str()) {
                proof {
                    let q = choose|q: int| 0 <= q < k && m@[q] == labels@[k as int]@;
                    assert(want[q] == want[k as int]);
                }
                return None;
            }
            m.insert(labels[k].clone());
            k = k + 1;
            assert(m@ =~= want.take(k as int));
        }
        assert(m@ =~= want);
        Some(m)
    }

    /// The labels, in index order.
    pub fn labels(&self) -> (r: Vec<String>)
        requires
            self.wf(),
        ensures
            r@.len() == self@.len(),
            forall|q: int| 0 <= q < r@.len() ==> #[trigger] r@[q]@ == self@[q],
    {
        let n = self.len();
        let mut out: Vec<String> = Vec::new();
        let mut k: usize = 0;
        while k < n
            invariant
                k <= n,
                n == self@.len(),
                self.wf(),
                out@.len() == k,
                forall|q: int| 0 <= q < k ==> #[trigger] out@[q]@ == self@[q],
            decreases n - k,
        {
            let l = self.label_of(k).unwrap();
            out.push(l);
            k = k + 1;
        }
        out
    }

    /// Whether both maps hold the same labels at the same indices.
    pub fn same_labels(&self, other: &LabelMap) -> (r: bool)
        requires
            self.wf(),
            other.wf(),
        ensures
            r == (self@ == other@),
    {
        let n = self.len();
        if n != other.len() {
            return false;
        }
        let mut k: usize = 0;
        while k < n
            invariant
                k <= n,
                n == self@.len(),
                n == other@.len(),
                self.wf(),
                other.wf(),
                forall|q: int| 0 <= q < k ==> #[trigger] self@[q] == other@[q],
            decreases n - k,
        {
            let a = self.label_of(k).unwrap();
            let b = other.label_of(k).unwrap();
            if a != b {
                return false;
            }
            k = k + 1;
        }
        assert(self@ =~= other@);
        true
    }

    /// For each label of `target`, in order, its index in this map; `None`
    /// when one of them is missing here.
    pub fn positions_of(&self, target: &LabelMap) -> (r: Option<Vec<usize>>)
        requires
            self.wf(),
            target.wf(),
        ensures
            r is Some <==> forall|k: int| 0 <= k < target@.len() ==> self@.contains(#[trigger] target@[k]),
            r matches Some(perm) ==> perm@.len() == target@.len() && forall|k: int|
                0 <= k < target@.len() ==> #[trigger] perm@[k] < self@.len() && self@[perm@[k] as int]
                    == target@[k],
    {
        let n = target.len();
        let mut perm: Vec<usize> = Vec::new();
        let mut k: usize = 0;
        while k < n
            invariant
                k <= n,
                n == target@.len(),
                self.wf(),
                target.wf(),
                perm@.len() == k,
                forall|q: int| 0 <= q < k ==> #[trigger] perm@[q] < self@.len() && self@[perm@[q] as int] == target@[q],
            decreases n - k,
        {
            let l = target.label_of(k).unwrap();
            match self.index_of(l.as_str()) {
                Some(i) => perm.push(i),
                None => {
                    return None;
                },
            }
            k = k + 1;
        }
        proof {
            assert forall|q: int| 0 <= q < target@.len() implies self@.contains(#[trigger] target@[q]) by {
                assert(self@[perm@[q] as int] == target@[q]);
            }
        }
        Some(perm)
    }

    /// Gives `label` the next index if it has none; returns its index.
    pub fn insert(&mut self, label: String) -> (r: usize)
        requires
            old(self).wf(),
            old(self)@.len() < usize::MAX,
        ensures
            final(self).wf(),
            r < final(self)@.len(),
            final(self)@[r as int] == label@,
            old(self)@.contains(label@) ==> final(self)@ == old(self)@,
            !old(self)@.contains(label@) ==> final(self)@ == old(self)@.push(label@),
    {
        match self.index_of(label.as_str()) {
            Some(i) => i,
            None => {
                let n = self.size;
                let ghost old_order = self.order@;
                let ghost old_pairs = label_pairs(self.map);
                let ghost l = label@;
                bimap_insert(&mut self.map, label, n);
                self.order = Ghost(old_order.push(l));
                self.size = n + 1;
                proof {
                    assert forall|k: Seq<char>| old_pairs.contains_key(k) implies old_pairs[k] != n by {}
                    assert forall|i: int| 0 <= i < self.order@.len() implies #[trigger] label_pairs(
                        self.map,
                    ).contains_key(self.order@[i]) && label_pairs(self.map)[self.order@[i]] == i by {
                        if i < old_order.len() {
                            assert(old_pairs.contains_key(old_order[i]));
                            assert(old_order[i] != l);
                        }
                    }
                    assert forall|k: Seq<char>| #[trigger] label_pairs(self.map).contains_key(k)
                        implies label_pairs(self.map)[k] < self.order@.len() && self.order@[label_pairs(
                        self.map,
                    )[k] as int] == k by {
                        if k != l {
                            assert(old_pairs.contains_key(k));
                        }
                    }
                }
                n
            },
        }
    }
}

} // verus!
