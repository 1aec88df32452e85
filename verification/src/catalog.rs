//! The catalogue's two indexes: from a pie's identity to its position, and
//! from a label to the positions of the pies that carry it.
//!
//! A pie's position is its place in the catalogue, which the shop keeps in
//! ascending order of price.  Every bit of every bitset stands for a
//! position.

use crate::bitset::Bitset;
use crate::pies::Pie;
use std::collections::HashMap;
use vstd::hash_map::StringHashMap;
use vstd::prelude::*;

verus! {

broadcast use vstd::std_specs::hash::group_hash_axioms;

/// Whether one of the first `k` labels of a pie is `label`.
pub open spec fn carries_among(pie: Pie, label: Seq<char>, k: int) -> bool {
    exists|j: int| 0 <= j < k && j < pie.labels@.len() && (#[trigger] pie.labels@[j])@ == label
}

/// Whether a pie carries a label.
pub open spec fn carries(pie: Pie, label: Seq<char>) -> bool {
    carries_among(pie, label, pie.labels@.len() as int)
}

/// The bitset of each label that some pie carries: as long as the
/// catalogue, with bit `i` set where pie `i` carries the label.
pub open spec fn label_rows(pies: Seq<Pie>) -> Map<Seq<char>, Seq<bool>> {
    Map::new(
        |label: Seq<char>| exists|i: int| 0 <= i < pies.len() && carries(#[trigger] pies[i], label),
        |label: Seq<char>| Seq::new(pies.len(), |i: int| carries(pies[i], label)),
    )
}

/// The bitset of `label` in `rows`; all `false` and `width` long where the
/// label has none.
spec fn row_of(rows: Map<Seq<char>, Seq<bool>>, label: Seq<char>, width: nat) -> Seq<bool> {
    if rows.contains_key(label) {
        rows[label]
    } else {
        Seq::new(width, |i: int| false)
    }
}

/// Whether position `p` is marked for `label` once the pies before pie `i`
/// and the first `k` labels of pie `i` have been read.
spec fn marked(pies: Seq<Pie>, i: int, k: int, label: Seq<char>, p: int) -> bool {
    0 <= p < pies.len() && ((p < i && carries(pies[p], label)) || (p == i && carries_among(
        pies[p],
        label,
        k,
    )))
}

/// The label bitsets of a catalogue, which are built once and never change.
/// The view maps each label to its bits.
pub struct LabelBitsets {
    width: usize,
    index: StringHashMap<Bitset>,
}

impl View for LabelBitsets {
    type V = Map<Seq<char>, Seq<bool>>;

    closed spec fn view(&self) -> Map<Seq<char>, Seq<bool>> {
        Map::new(
            |label: Seq<char>| self.index@.contains_key(label),
            |label: Seq<char>| self.index@[label]@,
        )
    }
}

impl LabelBitsets {
    /// The length that every bitset has: the number of positions.
    pub closed spec fn spec_width(&self) -> usize {
        self.width
    }

    /// The invariant: every label's bitset is `width` bits long.
    pub closed spec fn wf(&self) -> bool {
        forall|label: Seq<char>|
            #![trigger self.index@.contains_key(label)]
            self.index@.contains_key(label) ==> self.index@[label]@.len() == self.width
    }

    /// In well-formed label bitsets every bitset is `width` bits long.
    pub proof fn lemma_rows_have_width(&self)
        requires
            self.wf(),
        ensures
            forall|label: Seq<char>|
                #![trigger self@.contains_key(label)]
                self@.contains_key(label) ==> self@[label].len() == self.width(),
    {
    }

    /// Label bitsets over `width` positions, with no label yet.
    fn new(width: usize) -> (rows: LabelBitsets)
        ensures
            rows.wf(),
            rows.width() == width,
            rows@ == Map::<Seq<char>, Seq<bool>>::empty(),
    {
        let rows = LabelBitsets { width, index: StringHashMap::new() };
        rows
    }

    /// The number of positions.
    #[verifier::when_used_as_spec(spec_width)]
    pub fn width(&self) -> (width: usize)
        ensures
            width == self.spec_width(),
    {
        self.width
    }

    /// The bitset of a label, or `None` where no pie carries it.
    pub fn get(&self, label: &String) -> (row: Option<&Bitset>)
        ensures
            match row {
                Some(bits) => self@.contains_key(label@) && bits@ == self@[label@],
                None => !self@.contains_key(label@),
            },
    {
        self.index.get(label.as_str())
    }

    /// Marks position `pos` as carrying `label`.
    fn mark(&mut self, label: &String, pos: usize)
        requires
            old(self).wf(),
            pos < old(self).width(),
        ensures
            final(self).wf(),
            final(self).width() == old(self).width(),
            final(self)@ == old(self)@.insert(
                label@,
                row_of(old(self)@, label@, old(self).width() as nat).update(pos as int, true),
            ),
    {
        let mut row = match self.index.get(label.as_str()) {
            Some(bits) => bits.clone(),
            None => Bitset::from_elem(self.width, false),
        };
        row.set(pos, true);
        self.index.insert(label.clone(), row);
        assert(self@ =~= old(self)@.insert(
            label@,
            row_of(old(self)@, label@, old(self).width() as nat).update(pos as int, true),
        ));
    }

    /// Builds the label bitsets of a catalogue: one bitset for each label
    /// that some pie carries, with bit `i` set where pie `i` carries it.
    pub fn build(pies: &Vec<Pie>) -> (rows: LabelBitsets)
        ensures
            rows.wf(),
            rows.width() == pies@.len(),
            rows@ == label_rows(pies@),
    {
        let n = pies.len();
        let mut rows = LabelBitsets::new(n);
        let mut i: usize = 0;
        while i < n
            invariant
                n == pies@.len(),
                i <= n,
                rows.wf(),
                rows.width() == n,
                forall|label: Seq<char>| #[trigger]
                    rows@.contains_key(label) <==> exists|p: int|
                        marked(pies@, i as int, 0, label, p),
                forall|label: Seq<char>, p: int|
                    rows@.contains_key(label) && 0 <= p < n ==> #[trigger] rows@[label][p]
                        == marked(pies@, i as int, 0, label, p),
            decreases n - i,
        {
            let pie = &pies[i];
            let mut k: usize = 0;
            while k < pie.labels.len()
                invariant
                    n == pies@.len(),
                    i < n,
                    *pie == pies@[i as int],
                    k <= pie.labels@.len(),
                    rows.wf(),
                    rows.width() == n,
                    forall|label: Seq<char>| #[trigger]
                        rows@.contains_key(label) <==> exists|p: int|
                            marked(pies@, i as int, k as int, label, p),
                    forall|label: Seq<char>, p: int|
                        rows@.contains_key(label) && 0 <= p < n ==> #[trigger] rows@[label][p]
                            == marked(pies@, i as int, k as int, label, p),
                decreases pie.labels@.len() - k,
            {
                let label = &pie.labels[k];
                proof {
                    rows.lemma_rows_have_width();
                }
                rows.mark(label, i);
                proof {
                    let k1 = k as int + 1;
                    assert forall|other: Seq<char>, p: int|
                        marked(pies@, i as int, k1, other, p) == (marked(
                            pies@,
                            i as int,
                            k as int,
                            other,
                            p,
                        ) || (other == label@ && p == i)) by {}
                    assert forall|other: Seq<char>| #[trigger]
                        rows@.contains_key(other) <==> exists|p: int|
                            marked(pies@, i as int, k1, other, p) by {
                        if other == label@ {
                            assert(marked(pies@, i as int, k1, other, i as int));
                        }
                    }
                }
                k += 1;
            }
            proof {
                let i1 = i as int + 1;
                assert forall|label: Seq<char>, p: int|
                    marked(pies@, i as int, k as int, label, p) == marked(
                        pies@,
                        i1,
                        0,
                        label,
                        p,
                    ) by {}
            }
            i += 1;
        }
        proof {
            let want = label_rows(pies@);
            rows.lemma_rows_have_width();
            assert forall|label: Seq<char>| #[trigger]
                rows@.contains_key(label) == want.contains_key(label) by {
                if want.contains_key(label) {
                    let p = choose|p: int| 0 <= p < pies@.len() && carries(#[trigger] pies@[p], label);
                    assert(marked(pies@, n as int, 0, label, p));
                }
            }
            assert forall|label: Seq<char>| #[trigger] rows@.contains_key(label) implies rows@[label]
                =~= want[label] by {}
        }
        rows
    }
}

/// Whether `i` is the position of the pie with identity `id`: the first
/// place in the catalogue where that identity stands.
pub open spec fn is_position_of(pies: Seq<Pie>, id: u64, i: int) -> bool {
    &&& 0 <= i < pies.len()
    &&& pies[i].id == id
    &&& forall|j: int| 0 <= j < i ==> (#[trigger] pies[j]).id != id
}

/// The position of the identity that stands at `j`: at `j` or before it.
proof fn first_with_id(pies: Seq<Pie>, id: u64, j: int) -> (first: int)
    requires
        0 <= j < pies.len(),
        pies[j].id == id,
    ensures
        0 <= first <= j,
        is_position_of(pies, id, first),
    decreases j,
{
    if exists|e: int| 0 <= e < j && (#[trigger] pies[e]).id == id {
        let e = choose|e: int| 0 <= e < j && (#[trigger] pies[e]).id == id;
        first_with_id(pies, id, e)
    } else {
        j
    }
}

/// The positions of a catalogue's pies, by identity.
pub struct IdIndex {
    positions: HashMap<u64, usize>,
}

impl View for IdIndex {
    type V = Map<u64, usize>;

    closed spec fn view(&self) -> Map<u64, usize> {
        self.positions@
    }
}

impl IdIndex {
    /// Builds the index of a catalogue: each identity that occurs is mapped
    /// to its position, and no other.
    pub fn build(pies: &Vec<Pie>) -> (index: IdIndex)
        ensures
            forall|id: u64|
                #![trigger index@.contains_key(id)]
                index@.contains_key(id) ==> is_position_of(pies@, id, index@[id] as int),
            forall|id: u64, i: int|
                #![trigger is_position_of(pies@, id, i)]
                is_position_of(pies@, id, i) ==> index@.contains_key(id) && index@[id] == i,
    {
        let mut positions: HashMap<u64, usize> = HashMap::new();
        let mut i: usize = 0;
        while i < pies.len()
            invariant
                i <= pies@.len(),
                forall|id: u64| #[trigger]
                    positions@.contains_key(id) ==> positions@[id] < i && is_position_of(
                        pies@,
                        id,
                        positions@[id] as int,
                    ),
                forall|id: u64, j: int|
                    j < i && #[trigger] is_position_of(pies@, id, j) ==> positions@.contains_key(id)
                        && positions@[id] == j,
            decreases pies@.len() - i,
        {
            let id = pies[i].id;
            if !positions.contains_key(&id) {
                assert forall|j: int| 0 <= j < i implies (#[trigger] pies@[j]).id != id by {
                    if pies@[j].id == id {
                        let first = first_with_id(pies@, id, j);
                    }
                }
                positions.insert(id, i);
            }
            i += 1;
        }
        IdIndex { positions }
    }

    /// The position of the pie with identity `id`, if the catalogue has one.
    pub fn position(&self, id: u64) -> (pos: Option<usize>)
        ensures
            pos == if self@.contains_key(id) {
                Some(self@[id])
            } else {
                None::<usize>
            },
    {
        match self.positions.get(&id) {
            Some(pos) => Some(*pos),
            None => None,
        }
    }
}

/// In a catalogue whose identities are all different, every pie stands at
/// the position of its own identity: looking a pie up by its identity leads
/// back to its place.
pub proof fn lemma_positions_are_unique(pies: Seq<Pie>, i: int)
    requires
        0 <= i < pies.len(),
        forall|a: int, b: int|
            0 <= a < b < pies.len() ==> (#[trigger] pies[a]).id != (#[trigger] pies[b]).id,
    ensures
        is_position_of(pies, pies[i].id, i),
{
}

} // verus!
