//! The recommendation rule: the pies that carry every label asked for, less
//! those that the customer is barred from and those that are sold out, and
//! the choice among them by budget.

use crate::bitset::{bit_at, has_set_bit, longer, pad_to_match, Bitset};
use crate::catalog::LabelBitsets;
use crate::pies::Pie;
use vstd::prelude::*;

verus! {

/// The labels of a request, each by its characters.
pub open spec fn label_views(labels: Seq<String>) -> Seq<Seq<char>> {
    Seq::new(labels.len(), |k: int| labels[k]@)
}

/// Whether every label of a request has a bitset.
pub open spec fn all_known(labels: Seq<Seq<char>>, rows: Map<Seq<char>, Seq<bool>>) -> bool {
    forall|k: int| 0 <= k < labels.len() ==> rows.contains_key(#[trigger] labels[k])
}

/// The candidate positions of a request: those that carry every label
/// asked for.  A request without labels, or with a label that has no
/// bitset, has the one-bit candidate set that matches nothing.
pub open spec fn candidates(labels: Seq<Seq<char>>, rows: Map<Seq<char>, Seq<bool>>) -> Seq<bool> {
    if labels.len() == 0 || !all_known(labels, rows) {
        seq![false]
    } else {
        Seq::new(
            rows[labels[0]].len(),
            |p: int| forall|k: int| 0 <= k < labels.len() ==> (#[trigger] rows[labels[k]])[p],
        )
    }
}

/// The eligible positions: candidates that the customer is not barred from
/// and that are not sold out.  The three bitsets need not be equally long;
/// each reads as `false` past its end.
pub open spec fn eligible(candidate: Seq<bool>, blacklist: Seq<bool>, sold_out: Seq<bool>) -> Seq<
    bool,
> {
    Seq::new(
        longer(longer(candidate.len(), blacklist.len()), sold_out.len()),
        |p: int| bit_at(candidate, p) && !bit_at(blacklist, p) && !bit_at(sold_out, p),
    )
}

/// Whether `p` is the highest set position of `s`.
pub open spec fn is_highest_set(s: Seq<bool>, p: int) -> bool {
    &&& 0 <= p < s.len()
    &&& s[p]
    &&& forall|q: int| p < q < s.len() ==> !s[q]
}

/// Whether `p` is the lowest set position of `s`.
pub open spec fn is_lowest_set(s: Seq<bool>, p: int) -> bool {
    &&& 0 <= p < s.len()
    &&& s[p]
    &&& forall|q: int| 0 <= q < p ==> !s[q]
}

/// The highest set position of `s`, if any bit is set.
pub open spec fn highest_set(s: Seq<bool>) -> Option<int> {
    if has_set_bit(s) {
        Some(choose|p: int| is_highest_set(s, p))
    } else {
        None
    }
}

/// The lowest set position of `s`, if any bit is set.
pub open spec fn lowest_set(s: Seq<bool>) -> Option<int> {
    if has_set_bit(s) {
        Some(choose|p: int| is_lowest_set(s, p))
    } else {
        None
    }
}

/// The highest set position is the only position that is one.
pub proof fn lemma_highest_set(s: Seq<bool>, p: int)
    requires
        is_highest_set(s, p),
    ensures
        highest_set(s) == Some(p),
{
}

/// The lowest set position is the only position that is one.
pub proof fn lemma_lowest_set(s: Seq<bool>, p: int)
    requires
        is_lowest_set(s, p),
    ensures
        lowest_set(s) == Some(p),
{
}

/// The position recommended for a request: none without a candidate; for
/// the budget `cheap` the highest eligible position, for `premium` the
/// lowest, and none for any other budget.
pub open spec fn recommended(
    labels: Seq<Seq<char>>,
    rows: Map<Seq<char>, Seq<bool>>,
    blacklist: Seq<bool>,
    sold_out: Seq<bool>,
    budget: Seq<char>,
) -> Option<int> {
    let candidate = candidates(labels, rows);
    if !has_set_bit(candidate) {
        None
    } else if budget == "cheap"@ {
        highest_set(eligible(candidate, blacklist, sold_out))
    } else if budget == "premium"@ {
        lowest_set(eligible(candidate, blacklist, sold_out))
    } else {
        None
    }
}

/// A request without labels is recommended nothing, whatever the budget.
pub proof fn lemma_no_labels_no_pick(
    rows: Map<Seq<char>, Seq<bool>>,
    blacklist: Seq<bool>,
    sold_out: Seq<bool>,
    budget: Seq<char>,
)
    ensures
        recommended(Seq::empty(), rows, blacklist, sold_out, budget) is None,
{
}

/// A request with a label that has no bitset is recommended nothing, even
/// where its other labels match pies.
pub proof fn lemma_unknown_label_no_pick(
    labels: Seq<Seq<char>>,
    rows: Map<Seq<char>, Seq<bool>>,
    blacklist: Seq<bool>,
    sold_out: Seq<bool>,
    budget: Seq<char>,
    k: int,
)
    requires
        0 <= k < labels.len(),
        !rows.contains_key(labels[k]),
    ensures
        recommended(labels, rows, blacklist, sold_out, budget) is None,
{
}

/// The highest set position below `n`, where a bit is set below `n` and
/// none at `n` or above.
proof fn highest_below(s: Seq<bool>, n: int) -> (p: int)
    requires
        0 <= n <= s.len(),
        exists|q: int| 0 <= q < n && s[q],
        forall|q: int| n <= q < s.len() ==> !s[q],
    ensures
        is_highest_set(s, p),
    decreases n,
{
    if s[n - 1] {
        n - 1
    } else {
        highest_below(s, n - 1)
    }
}

/// The lowest set position at `n` or above, where a bit is set there and
/// none below `n`.
proof fn lowest_from(s: Seq<bool>, n: int) -> (p: int)
    requires
        0 <= n <= s.len(),
        exists|q: int| n <= q < s.len() && s[q],
        forall|q: int| 0 <= q < n ==> !s[q],
    ensures
        is_lowest_set(s, p),
    decreases s.len() - n,
{
    if s[n] {
        n
    } else {
        lowest_from(s, n + 1)
    }
}

/// Whatever is recommended is eligible: where all bitsets are equally long,
/// the position carries every label asked for, the customer is not barred
/// from it, and it is not sold out.
pub proof fn lemma_recommended_is_eligible(
    labels: Seq<Seq<char>>,
    rows: Map<Seq<char>, Seq<bool>>,
    blacklist: Seq<bool>,
    sold_out: Seq<bool>,
    budget: Seq<char>,
)
    requires
        forall|a: Seq<char>, b: Seq<char>|
            rows.contains_key(a) && rows.contains_key(b) ==> (#[trigger] rows[a]).len() == (
            #[trigger] rows[b]).len(),
        recommended(labels, rows, blacklist, sold_out, budget) is Some,
    ensures
        ({
            let p = recommended(labels, rows, blacklist, sold_out, budget)->0;
            &&& bit_at(candidates(labels, rows), p)
            &&& !bit_at(blacklist, p)
            &&& !bit_at(sold_out, p)
            &&& forall|k: int| 0 <= k < labels.len() ==> bit_at(rows[#[trigger] labels[k]], p)
        }),
{
    let candidate = candidates(labels, rows);
    let bits = eligible(candidate, blacklist, sold_out);
    if budget == "cheap"@ {
        let q = highest_below(bits, bits.len() as int);
        lemma_highest_set(bits, q);
    } else {
        let q = lowest_from(bits, 0);
        lemma_lowest_set(bits, q);
    }
}

/// Whether `pick` is the pie that stands at `pos` in the catalogue: no pie
/// for no position and for a position past the catalogue's end.
pub open spec fn is_pie_at(pies: Seq<Pie>, pos: Option<int>, pick: Option<&Pie>) -> bool {
    match pos {
        Some(p) => if 0 <= p < pies.len() {
            pick == Some(&pies[p])
        } else {
            pick is None
        },
        None => pick is None,
    }
}

/// The candidate positions of a request: the intersection of the bitsets of
/// all labels asked for.
pub fn flatten_bv(labels: &Vec<String>, label_bitvecs: &LabelBitsets) -> (candidate: Bitset)
    requires
        label_bitvecs.wf(),
    ensures
        candidate@ == candidates(label_views(labels@), label_bitvecs@),
{
    let ghost names = label_views(labels@);
    let ghost rows = label_bitvecs@;
    let mut found: Vec<&Bitset> = Vec::new();
    let mut k: usize = 0;
    while k < labels.len()
        invariant
            names == label_views(labels@),
            rows == label_bitvecs@,
            k <= labels@.len(),
            found@.len() == k,
            forall|j: int|
                0 <= j < k ==> rows.contains_key(#[trigger] names[j]) && found@[j]@
                    == rows[names[j]],
        decreases labels@.len() - k,
    {
        match label_bitvecs.get(&labels[k]) {
            Some(bits) => {
                found.push(bits);
            },
            None => {
                assert(!rows.contains_key(names[k as int]));
                let none = Bitset::from_elem(1, false);
                return none;
            },
        }
        k += 1;
    }
    if found.len() == 0 {
        let none = Bitset::from_elem(1, false);
        return none;
    }
    let ghost width = label_bitvecs.width() as nat;
    proof {
        label_bitvecs.lemma_rows_have_width();
        assert forall|k: int|
            #![trigger found@[k]]
            #![trigger names[k]]
            0 <= k < found@.len() implies found@[k]@ == rows[names[k]] && found@[k]@.len()
            == width by {}
    }
    let mut scratch = found[0].clone();
    let mut j: usize = 0;
    while j < found.len()
        invariant
            j <= found@.len(),
            found@.len() == names.len(),
            found@.len() > 0,
            forall|k: int|
                #![trigger found@[k]]
                #![trigger names[k]]
                0 <= k < found@.len() ==> found@[k]@ == rows[names[k]] && found@[k]@.len() == width,
            scratch@.len() == width,
            forall|p: int|
                0 <= p < width ==> scratch@[p] == (rows[names[0]][p] && forall|k: int|
                    0 <= k < j ==> (#[trigger] rows[names[k]])[p]),
        decreases found@.len() - j,
    {
        scratch.intersect(found[j]);
        j += 1;
    }
    scratch
}

/// The eligible positions among the candidates: the three bitsets are
/// padded to one length, the blacklist and the sold-out marks flipped, and
/// all three intersected.
pub fn eligible_bits(candidate: Bitset, blacklist: Bitset, sold_out: Bitset) -> (possible: Bitset)
    ensures
        possible@ == eligible(candidate@, blacklist@, sold_out@),
{
    let mut possible = candidate;
    let mut allowed = blacklist;
    let mut in_stock = sold_out;
    pad_to_match(&mut possible, &mut allowed);
    pad_to_match(&mut possible, &mut in_stock);
    pad_to_match(&mut allowed, &mut in_stock);
    allowed.negate();
    in_stock.negate();
    possible.intersect(&allowed);
    possible.intersect(&in_stock);
    possible
}

/// The highest set position of a bitset.
pub fn last_set_bit(bits: &Bitset) -> (found: Option<usize>)
    ensures
        match found {
            Some(p) => highest_set(bits@) == Some(p as int),
            None => highest_set(bits@) is None,
        },
{
    let mut i = bits.len();
    while i > 0
        invariant
            i <= bits@.len(),
            forall|q: int| i <= q < bits@.len() ==> !bits@[q],
        decreases i,
    {
        i -= 1;
        if bits.is_set(i) {
            proof {
                lemma_highest_set(bits@, i as int);
            }
            return Some(i);
        }
    }
    None
}

/// The lowest set position of a bitset.
pub fn first_set_bit(bits: &Bitset) -> (found: Option<usize>)
    ensures
        match found {
            Some(p) => lowest_set(bits@) == Some(p as int),
            None => lowest_set(bits@) is None,
        },
{
    let len = bits.len();
    let mut i: usize = 0;
    while i < len
        invariant
            len == bits@.len(),
            i <= len,
            forall|q: int| 0 <= q < i ==> !bits@[q],
        decreases len - i,
    {
        if bits.is_set(i) {
            proof {
                lemma_lowest_set(bits@, i as int);
            }
            return Some(i);
        }
        i += 1;
    }
    None
}

/// The pie at a position, if the catalogue reaches that far.
fn pie_at<'pie>(pies: &'pie Vec<Pie>, found: Option<usize>) -> (pick: Option<&'pie Pie>)
    ensures
        match found {
            Some(p) => is_pie_at(pies@, Some(p as int), pick),
            None => pick is None,
        },
{
    match found {
        Some(p) => if p < pies.len() {
            Some(&pies[p])
        } else {
            None
        },
        None => None,
    }
}

/// Recommends a pie for a request, given the customer's blacklist and the
/// shop's sold-out marks.
///
/// The candidates are the pies that carry every label asked for.  Without
/// a candidate there is none to recommend.  Otherwise the budget `cheap`
/// picks the eligible pie at the highest position, `premium` the one at the
/// lowest, and any other budget none.
pub fn recommend_among<'pie>(
    labels: &Vec<String>,
    pies: &'pie Vec<Pie>,
    label_bitvecs: &LabelBitsets,
    blacklist: Bitset,
    sold_out: Bitset,
    budget: &String,
) -> (pick: Option<&'pie Pie>)
    requires
        label_bitvecs.wf(),
    ensures
        is_pie_at(
            pies@,
            recommended(label_views(labels@), label_bitvecs@, blacklist@, sold_out@, budget@),
            pick,
        ),
        labels@.len() == 0 ==> pick is None,
        !all_known(label_views(labels@), label_bitvecs@) ==> pick is None,
{
    let possible_pies = flatten_bv(labels, label_bitvecs);
    if !possible_pies.any_set() {
        return None;
    }
    let cheap = String::from_str("cheap");
    let premium = String::from_str("premium");
    if *budget == cheap {
        let possible_pies = eligible_bits(possible_pies, blacklist, sold_out);
        pie_at(pies, last_set_bit(&possible_pies))
    } else if *budget == premium {
        let possible_pies = eligible_bits(possible_pies, blacklist, sold_out);
        pie_at(pies, first_set_bit(&possible_pies))
    } else {
        None
    }
}

} // verus!
