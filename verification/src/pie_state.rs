//! The shop's state: remaining stock, purchase ledger, blacklists and
//! sold-out marks, and the purchases and recommendations made against it.

use crate::bitset::{
    bit_in_bytes, bits_of_bytes, bytes_with_bit, decodable, lemma_bytes_with_bit, position_fits,
    set_bit, test_bit, Bitset,
};
use crate::catalog::LabelBitsets;
use crate::pies::{Pie, Purchase};
use crate::purchase::{
    plan_purchase, planned, prior_amount, PurchasePlan, PurchaseSnapshot, PurchaseStatus,
    ALLOWED_PIES,
};
use crate::recommend::{all_known, is_pie_at, label_views, recommend_among, recommended};
use std::collections::HashMap;
use vstd::hash_map::StringHashMap;
use vstd::prelude::*;

verus! {

broadcast use vstd::std_specs::hash::group_hash_axioms;

/// One entry of the purchase ledger: what a customer bought of one pie.
struct LedgerEntry {
    pie_id: u64,
    username: String,
    slices: i64,
}

impl LedgerEntry {
    spec fn key(self) -> (u64, Seq<char>) {
        (self.pie_id, self.username@)
    }
}

spec fn has_key(entries: Seq<LedgerEntry>, key: (u64, Seq<char>), i: int) -> bool {
    0 <= i < entries.len() && entries[i].key() == key
}

spec fn distinct_keys(entries: Seq<LedgerEntry>) -> bool {
    forall|i: int, j: int|
        0 <= i < j < entries.len() ==> #[trigger] entries[i].key() != #[trigger] entries[j].key()
}

/// The ledger as a map from pie and customer to slices bought.
spec fn ledger_map(entries: Seq<LedgerEntry>) -> Map<(u64, Seq<char>), i64> {
    Map::new(
        |key: (u64, Seq<char>)| exists|i: int| has_key(entries, key, i),
        |key: (u64, Seq<char>)| entries[choose|i: int| has_key(entries, key, i)].slices,
    )
}

proof fn lemma_ledger_entry(entries: Seq<LedgerEntry>, i: int)
    requires
        distinct_keys(entries),
        0 <= i < entries.len(),
    ensures
        ledger_map(entries).contains_key(entries[i].key()),
        ledger_map(entries)[entries[i].key()] == entries[i].slices,
{
    let key = entries[i].key();
    assert(has_key(entries, key, i));
}

proof fn lemma_ledger_update(entries: Seq<LedgerEntry>, i: int, entry: LedgerEntry)
    requires
        distinct_keys(entries),
        0 <= i < entries.len(),
        entry.key() == entries[i].key(),
    ensures
        distinct_keys(entries.update(i, entry)),
        ledger_map(entries.update(i, entry)) == ledger_map(entries).insert(
            entry.key(),
            entry.slices,
        ),
{
    let after = entries.update(i, entry);
    let want = ledger_map(entries).insert(entry.key(), entry.slices);
    assert forall|key: (u64, Seq<char>)| #[trigger]
        ledger_map(after).contains_key(key) == want.contains_key(key) by {
        if ledger_map(after).contains_key(key) {
            let c = choose|c: int| has_key(after, key, c);
            assert(has_key(entries, key, c));
        }
        if ledger_map(entries).contains_key(key) {
            let c = choose|c: int| has_key(entries, key, c);
            assert(has_key(after, key, c));
        }
        assert(has_key(after, entry.key(), i));
    }
    assert forall|key: (u64, Seq<char>)| #[trigger]
        ledger_map(after).contains_key(key) implies ledger_map(after)[key] == want[key] by {
        let c = choose|c: int| has_key(after, key, c);
        lemma_ledger_entry(after, c);
        if c != i {
            lemma_ledger_entry(entries, c);
        }
    }
}

proof fn lemma_ledger_push(entries: Seq<LedgerEntry>, entry: LedgerEntry)
    requires
        distinct_keys(entries),
        !ledger_map(entries).contains_key(entry.key()),
    ensures
        distinct_keys(entries.push(entry)),
        ledger_map(entries.push(entry)) == ledger_map(entries).insert(entry.key(), entry.slices),
{
    let after = entries.push(entry);
    let last = entries.len() as int;
    assert forall|a: int, b: int| 0 <= a < b < after.len() implies #[trigger] after[a].key()
        != #[trigger] after[b].key() by {
        if b == last {
            assert(has_key(entries, entries[a].key(), a));
        }
    }
    let want = ledger_map(entries).insert(entry.key(), entry.slices);
    assert forall|key: (u64, Seq<char>)| #[trigger]
        ledger_map(after).contains_key(key) == want.contains_key(key) by {
        if ledger_map(after).contains_key(key) {
            let c = choose|c: int| has_key(after, key, c);
            if c != last {
                assert(has_key(entries, key, c));
            }
        }
        if ledger_map(entries).contains_key(key) {
            let c = choose|c: int| has_key(entries, key, c);
            assert(has_key(after, key, c));
        }
        assert(has_key(after, entry.key(), last));
    }
    assert forall|key: (u64, Seq<char>)| #[trigger]
        ledger_map(after).contains_key(key) implies ledger_map(after)[key] == want[key] by {
        let c = choose|c: int| has_key(after, key, c);
        lemma_ledger_entry(after, c);
        if c != last {
            lemma_ledger_entry(entries, c);
        }
    }
}

/// What a store holds, as mathematics.
pub struct StoreState {
    /// The remaining slices of each pie that has a count.
    pub remaining: Map<u64, i64>,
    /// The slices bought, by pie and customer.
    pub purchases: Map<(u64, Seq<char>), i64>,
    /// Each customer's blacklist, as bitset bytes.
    pub blacklists: Map<Seq<char>, Seq<u8>>,
    /// The shop's sold-out marks, as bitset bytes.
    pub sold_out: Seq<u8>,
}

impl StoreState {
    /// The remaining slices of a pie; a pie without a count has none.
    pub open spec fn stock(self, pie_id: u64) -> int {
        if self.remaining.contains_key(pie_id) {
            self.remaining[pie_id] as int
        } else {
            0
        }
    }

    /// What the ledger holds for a pie and a customer, if anything.
    pub open spec fn purchased(self, pie_id: u64, user: Seq<char>) -> Option<i64> {
        if self.purchases.contains_key((pie_id, user)) {
            Some(self.purchases[(pie_id, user)])
        } else {
            None
        }
    }

    /// A customer's blacklist bytes; empty for a customer without one.
    pub open spec fn blacklist(self, user: Seq<char>) -> Seq<u8> {
        if self.blacklists.contains_key(user) {
            self.blacklists[user]
        } else {
            Seq::empty()
        }
    }

    /// Whether a customer is barred from the pie at `pos`.
    pub open spec fn blacklisted(self, user: Seq<char>, pos: int) -> bool {
        bit_in_bytes(self.blacklist(user), pos)
    }

    /// Whether the pie at `pos` is marked sold out.
    pub open spec fn is_sold_out(self, pos: int) -> bool {
        bit_in_bytes(self.sold_out, pos)
    }

    /// No pie has a negative count, and every bitset can be decoded.
    pub open spec fn valid(self) -> bool {
        &&& forall|pie_id: u64|
            #![trigger self.remaining.contains_key(pie_id)]
            self.remaining.contains_key(pie_id) ==> self.remaining[pie_id] >= 0
        &&& forall|user: Seq<char>|
            #![trigger self.blacklists.contains_key(user)]
            self.blacklists.contains_key(user) ==> decodable(self.blacklists[user])
        &&& decodable(self.sold_out)
    }

    /// The store with a pie's count set to `slices`.
    pub open spec fn with_stock(self, pie_id: u64, slices: i64) -> StoreState {
        StoreState { remaining: self.remaining.insert(pie_id, slices), ..self }
    }

    /// The store with a ledger entry set to `slices`.
    pub open spec fn with_purchased(self, pie_id: u64, user: Seq<char>, slices: i64) -> StoreState {
        StoreState { purchases: self.purchases.insert((pie_id, user), slices), ..self }
    }

    /// The store with a customer's blacklist bit at `pos` set.
    pub open spec fn with_blacklist_bit(self, user: Seq<char>, pos: nat) -> StoreState {
        StoreState {
            blacklists: self.blacklists.insert(user, bytes_with_bit(self.blacklist(user), pos)),
            ..self
        }
    }

    /// The store with the sold-out bit at `pos` set.
    pub open spec fn with_sold_out_bit(self, pos: nat) -> StoreState {
        StoreState { sold_out: bytes_with_bit(self.sold_out, pos), ..self }
    }
}

/// The shop's state, held in memory.
pub struct Store {
    remaining: HashMap<u64, i64>,
    ledger: Vec<LedgerEntry>,
    blacklists: StringHashMap<Vec<u8>>,
    sold_out: Vec<u8>,
}

impl View for Store {
    type V = StoreState;

    closed spec fn view(&self) -> StoreState {
        StoreState {
            remaining: self.remaining@,
            purchases: ledger_map(self.ledger@),
            blacklists: Map::new(
                |user: Seq<char>| self.blacklists@.contains_key(user),
                |user: Seq<char>| self.blacklists@[user]@,
            ),
            sold_out: self.sold_out@,
        }
    }
}

impl Store {
    /// The store's invariant: no pie has a negative count, every bitset can
    /// be decoded, and the ledger has one entry at most for a pie and a
    /// customer.
    pub closed spec fn wf(&self) -> bool {
        &&& distinct_keys(self.ledger@)
        &&& forall|pie_id: u64|
            #![trigger self.remaining@.contains_key(pie_id)]
            self.remaining@.contains_key(pie_id) ==> self.remaining@[pie_id] >= 0
        &&& forall|user: Seq<char>|
            #![trigger self.blacklists@.contains_key(user)]
            self.blacklists@.contains_key(user) ==> decodable(self.blacklists@[user]@)
        &&& decodable(self.sold_out@)
    }

    /// In a well-formed store no pie has a negative count, and every bitset
    /// can be decoded.
    pub proof fn lemma_valid(&self)
        requires
            self.wf(),
        ensures
            self@.valid(),
    {
    }

    /// A store that holds nothing.
    pub fn new() -> (store: Store)
        ensures
            store.wf(),
            store@.remaining == Map::<u64, i64>::empty(),
            store@.purchases == Map::<(u64, Seq<char>), i64>::empty(),
            store@.blacklists == Map::<Seq<char>, Seq<u8>>::empty(),
            store@.sold_out == Seq::<u8>::empty(),
    {
        let store = Store {
            remaining: HashMap::new(),
            ledger: Vec::new(),
            blacklists: StringHashMap::new(),
            sold_out: Vec::new(),
        };
        store
    }
}

/// Sets a pie's remaining slices to the count that the pie starts with.
/// The store counts in signed 64-bit integers, which the count must fit.
pub fn set_remaining(store: &mut Store, pie: &Pie)
    requires
        old(store).wf(),
        pie.slices <= i64::MAX,
    ensures
        final(store).wf(),
        final(store)@ == old(store)@.with_stock(pie.id, pie.slices as i64),
{
    store.remaining.insert(pie.id, pie.slices as i64);
}

/// A pie's remaining slices.
pub fn get_remaining(store: &Store, pie: &Pie) -> (slices: u64)
    requires
        store.wf(),
    ensures
        slices == store@.stock(pie.id),
{
    stock_of(store, pie.id) as u64
}

/// The remaining slices of the pies named, in the order of `ids`.
pub fn get_all_remaining(store: &Store, ids: &Vec<&u64>) -> (all: Vec<u64>)
    requires
        store.wf(),
    ensures
        all@.len() == ids@.len(),
        forall|i: int| 0 <= i < ids@.len() ==> all@[i] == store@.stock(*ids@[i]),
{
    let mut all: Vec<u64> = Vec::new();
    let mut i: usize = 0;
    while i < ids.len()
        invariant
            store.wf(),
            i <= ids@.len(),
            all@.len() == i,
            forall|k: int| 0 <= k < i ==> all@[k] == store@.stock(*ids@[k]),
        decreases ids@.len() - i,
    {
        all.push(stock_of(store, *ids[i]) as u64);
        i += 1;
    }
    all
}

/// A pie's count as the store holds it.
fn stock_of(store: &Store, pie_id: u64) -> (slices: i64)
    requires
        store.wf(),
    ensures
        slices == store@.stock(pie_id),
        slices >= 0,
{
    match store.remaining.get(&pie_id) {
        Some(slices) => *slices,
        None => 0,
    }
}

/// A customer's blacklist, decoded from its bytes.
pub fn get_user_blacklist(store: &Store, user: &String) -> (blacklist: Bitset)
    requires
        store.wf(),
    ensures
        blacklist@ == bits_of_bytes(store@.blacklist(user@)),
{
    match store.blacklists.get(user.as_str()) {
        Some(bytes) => Bitset::from_bytes(bytes.as_slice()),
        None => {
            let none: Vec<u8> = Vec::new();
            Bitset::from_bytes(none.as_slice())
        },
    }
}

/// The shop's sold-out marks, decoded from their bytes.
pub fn get_pie_soldout(store: &Store) -> (sold_out: Bitset)
    requires
        store.wf(),
    ensures
        sold_out@ == bits_of_bytes(store@.sold_out),
{
    Bitset::from_bytes(store.sold_out.as_slice())
}

/// Bars a customer from the pie at `bitvec_pos`.  The bit is set and stays
/// set: nothing clears it.
pub fn set_user_blacklist(store: &mut Store, user: &String, bitvec_pos: usize)
    requires
        old(store).wf(),
        position_fits(bitvec_pos),
    ensures
        final(store).wf(),
        final(store)@ == old(store)@.with_blacklist_bit(user@, bitvec_pos as nat),
{
    let bytes = match store.blacklists.get(user.as_str()) {
        Some(bytes) => set_bit(bytes.as_slice(), bitvec_pos),
        None => {
            let none: Vec<u8> = Vec::new();
            set_bit(none.as_slice(), bitvec_pos)
        },
    };
    store.blacklists.insert(user.clone(), bytes);
    assert(store@.blacklists =~= old(store)@.with_blacklist_bit(
        user@,
        bitvec_pos as nat,
    ).blacklists);
}

/// Marks the pie at `bitvec_pos` as sold out.  The bit is set and stays set:
/// nothing clears it.
pub fn set_pie_soldout(store: &mut Store, bitvec_pos: usize)
    requires
        old(store).wf(),
        position_fits(bitvec_pos),
    ensures
        final(store).wf(),
        final(store)@ == old(store)@.with_sold_out_bit(bitvec_pos as nat),
{
    store.sold_out = set_bit(store.sold_out.as_slice(), bitvec_pos);
}

/// Whether a customer is barred from the pie at `bitvec_pos`.
pub fn check_user_blacklist(store: &Store, user: &String, bitvec_pos: usize) -> (barred: bool)
    requires
        store.wf(),
    ensures
        barred == store@.blacklisted(user@, bitvec_pos as int),
{
    match store.blacklists.get(user.as_str()) {
        Some(bytes) => test_bit(bytes.as_slice(), bitvec_pos),
        None => false,
    }
}

/// Where the ledger holds the entry of a pie and a customer.
fn find_entry(store: &Store, pie_id: u64, user: &String) -> (found: Option<usize>)
    ensures
        match found {
            Some(i) => has_key(store.ledger@, (pie_id, user@), i as int),
            None => forall|i: int| !has_key(store.ledger@, (pie_id, user@), i),
        },
{
    let mut i: usize = 0;
    while i < store.ledger.len()
        invariant
            i <= store.ledger@.len(),
            forall|k: int| 0 <= k < i ==> !has_key(store.ledger@, (pie_id, user@), k),
        decreases store.ledger@.len() - i,
    {
        if store.ledger[i].pie_id == pie_id && store.ledger[i].username == *user {
            return Some(i);
        }
        i += 1;
    }
    None
}

/// The slices that a customer bought of a pie so far, if any.
pub fn previous_purchase(store: &Store, pie: &Pie, user: &String) -> (before: Option<i64>)
    requires
        store.wf(),
    ensures
        before == store@.purchased(pie.id, user@),
{
    match find_entry(store, pie.id, user) {
        Some(i) => {
            proof {
                lemma_ledger_entry(store.ledger@, i as int);
            }
            Some(store.ledger[i].slices)
        },
        None => None,
    }
}

/// A pie's purchase ledger: one line for each customer who bought of it.
pub fn pie_purchases(store: &Store, pie: &Pie) -> (lines: Vec<Purchase>)
    requires
        store.wf(),
    ensures
        forall|k: int|
            0 <= k < lines@.len() ==> store@.purchased(pie.id, (#[trigger] lines@[k]).username@)
                == Some(lines@[k].slices),
        forall|user: Seq<char>|
            store@.purchases.contains_key((pie.id, user)) ==> exists|k: int|
                0 <= k < lines@.len() && (#[trigger] lines@[k]).username@ == user,
        forall|k: int, l: int|
            0 <= k < l < lines@.len() ==> (#[trigger] lines@[k]).username@ != (
            #[trigger] lines@[l]).username@,
{
    let mut lines: Vec<Purchase> = Vec::new();
    let ghost mut from: Seq<int> = Seq::empty();
    let mut i: usize = 0;
    while i < store.ledger.len()
        invariant
            distinct_keys(store.ledger@),
            i <= store.ledger@.len(),
            from.len() == lines@.len(),
            forall|k: int|
                0 <= k < from.len() ==> 0 <= #[trigger] from[k] < i && store.ledger@[from[k]].key()
                    == (pie.id, lines@[k].username@) && store.ledger@[from[k]].slices
                    == lines@[k].slices,
            forall|k: int, l: int| 0 <= k < l < from.len() ==> #[trigger] from[k] < #[trigger] from[l],
            forall|j: int|
                0 <= j < i && (#[trigger] store.ledger@[j]).pie_id == pie.id ==> exists|k: int|
                    0 <= k < from.len() && #[trigger] from[k] == j,
        decreases store.ledger@.len() - i,
    {
        if store.ledger[i].pie_id == pie.id {
            let line = Purchase {
                username: store.ledger[i].username.clone(),
                slices: store.ledger[i].slices,
            };
            lines.push(line);
            proof {
                let ghost before = from;
                from = from.push(i as int);
                assert forall|j: int|
                    0 <= j < i + 1 && (#[trigger] store.ledger@[j]).pie_id == pie.id implies exists|
                    k: int,
                | 0 <= k < from.len() && #[trigger] from[k] == j by {
                    if j < i {
                        let k = choose|k: int| 0 <= k < before.len() && #[trigger] before[k] == j;
                        assert(from[k] == j);
                    } else {
                        assert(from[before.len() as int] == j);
                    }
                }
            }
        }
        i += 1;
    }
    proof {
        assert forall|k: int| 0 <= k < lines@.len() implies store@.purchased(
            pie.id,
            (#[trigger] lines@[k]).username@,
        ) == Some(lines@[k].slices) by {
            lemma_ledger_entry(store.ledger@, from[k]);
        }
        assert forall|k: int, l: int| 0 <= k < l < lines@.len() implies (
        #[trigger] lines@[k]).username@ != (#[trigger] lines@[l]).username@ by {
            assert(store.ledger@[from[k]].key() != store.ledger@[from[l]].key());
        }
    }
    lines
}

impl StoreState {
    /// What a purchase at `pos` of a pie by a customer reads before it decides.
    pub open spec fn snapshot(self, pie_id: u64, pos: int, user: Seq<char>) -> PurchaseSnapshot {
        PurchaseSnapshot {
            blacklisted: self.blacklisted(user, pos),
            remaining: self.stock(pie_id) as i64,
            purchased: self.purchased(pie_id, user),
        }
    }

    /// Whether the counts that a purchase of `amount` slices would write
    /// are 64-bit integers.  They are whenever `amount` is not negative.
    pub open spec fn can_hold(self, pie_id: u64, user: Seq<char>, amount: i64) -> bool {
        amount < 0 ==> self.stock(pie_id) - amount <= i64::MAX && prior_amount(
            self.purchased(pie_id, user),
        ) + amount >= i64::MIN
    }

    /// The store after the writes of `plan` for a pie at `pos` and a
    /// customer: unchanged unless the plan is a successful purchase.
    pub open spec fn applied(
        self,
        pie_id: u64,
        pos: nat,
        user: Seq<char>,
        plan: PurchasePlan,
    ) -> StoreState {
        if plan.status != PurchaseStatus::Success {
            self
        } else {
            let bought = self.with_purchased(
                pie_id,
                user,
                (prior_amount(self.purchased(pie_id, user)) + plan.slices) as i64,
            ).with_stock(pie_id, (self.stock(pie_id) - plan.slices) as i64);
            let barred = if plan.blacklist {
                bought.with_blacklist_bit(user, pos)
            } else {
                bought
            };
            if plan.sold_out {
                barred.with_sold_out_bit(pos)
            } else {
                barred
            }
        }
    }

    /// The answer to a purchase of `amount` slices.
    pub open spec fn answer(self, pie_id: u64, pos: nat, user: Seq<char>, amount: i64) -> PurchaseStatus {
        planned(amount, self.snapshot(pie_id, pos as int, user)).status
    }

    /// The store after a purchase of `amount` slices was asked for.
    pub open spec fn purchase(self, pie_id: u64, pos: nat, user: Seq<char>, amount: i64) -> StoreState {
        self.applied(pie_id, pos, user, planned(amount, self.snapshot(pie_id, pos as int, user)))
    }
}

/// Adds `slices` to the ledger entry of a pie and a customer, which is made
/// where there was none.
fn record_purchase(store: &mut Store, pie_id: u64, user: &String, slices: i64)
    requires
        old(store).wf(),
        i64::MIN <= prior_amount(old(store)@.purchased(pie_id, user@)) + slices <= i64::MAX,
    ensures
        final(store).wf(),
        final(store)@ == old(store)@.with_purchased(
            pie_id,
            user@,
            (prior_amount(old(store)@.purchased(pie_id, user@)) + slices) as i64,
        ),
{
    match find_entry(store, pie_id, user) {
        Some(i) => {
            proof {
                lemma_ledger_entry(store.ledger@, i as int);
            }
            let entry = LedgerEntry {
                pie_id,
                username: user.clone(),
                slices: store.ledger[i].slices + slices,
            };
            proof {
                lemma_ledger_update(store.ledger@, i as int, entry);
            }
            store.ledger.set(i, entry);
        },
        None => {
            let entry = LedgerEntry { pie_id, username: user.clone(), slices };
            proof {
                lemma_ledger_push(store.ledger@, entry);
            }
            store.ledger.push(entry);
        },
    }
}

/// Buys `amount` slices of `pie`, which stands at `bitvec_pos`, for `user`.
///
/// The guards are tried in order and the first that matches answers: more
/// than the cap asked for, the customer barred from this pie, no stock, less
/// stock than asked for, the cap passed by this purchase.  Only a purchase
/// that passes them all writes: it adds `amount` to the customer's ledger
/// entry, takes it from the pie's count, bars the customer where the total
/// is now the cap, and marks the pie sold out where none is left.
///
/// The store counts in signed 64-bit integers and holds its bitsets as
/// bytes: the position must be one that a decodable byte string can hold,
/// and a negative amount one whose counts still fit.
pub fn purchase_pie(
    store: &mut Store,
    pie: &Pie,
    bitvec_pos: usize,
    user: &String,
    amount: isize,
) -> (status: PurchaseStatus)
    requires
        old(store).wf(),
        position_fits(bitvec_pos),
        old(store)@.can_hold(pie.id, user@, amount as i64),
    ensures
        final(store).wf(),
        status == old(store)@.answer(pie.id, bitvec_pos as nat, user@, amount as i64),
        final(store)@ == old(store)@.purchase(pie.id, bitvec_pos as nat, user@, amount as i64),
        amount > ALLOWED_PIES ==> status == PurchaseStatus::OverLimit,
        old(store)@.blacklisted(user@, bitvec_pos as int) ==> status == PurchaseStatus::OverLimit,
        status != PurchaseStatus::Success ==> final(store)@ == old(store)@,
{
    let seen = PurchaseSnapshot {
        blacklisted: check_user_blacklist(store, user, bitvec_pos),
        remaining: stock_of(store, pie.id),
        purchased: previous_purchase(store, pie, user),
    };
    let plan = plan_purchase(amount as i64, &seen);
    if plan.status == PurchaseStatus::Success {
        record_purchase(store, pie.id, user, plan.slices);
        store.remaining.insert(pie.id, seen.remaining - plan.slices);
        if plan.blacklist {
            set_user_blacklist(store, user, bitvec_pos);
        }
        if plan.sold_out {
            set_pie_soldout(store, bitvec_pos);
        }
    }
    plan.status
}

/// Recommends a pie to `user` for the labels and the budget asked for.
///
/// The candidates are the pies that carry every label; a request without
/// labels, or with a label that no pie carries, has none.  Of the
/// candidates, those that the customer is barred from and those that are
/// sold out are left out.  The budget `cheap` then picks the pie at the
/// highest position, `premium` the one at the lowest, and any other budget
/// none.  The store is read and not written.
pub fn recommend<'pie>(
    store: &Store,
    labels: &Vec<String>,
    pies: &'pie Vec<Pie>,
    label_bitvecs: &LabelBitsets,
    user: &String,
    budget: &String,
) -> (pick: Option<&'pie Pie>)
    requires
        store.wf(),
        label_bitvecs.wf(),
    ensures
        is_pie_at(
            pies@,
            recommended(
                label_views(labels@),
                label_bitvecs@,
                bits_of_bytes(store@.blacklist(user@)),
                bits_of_bytes(store@.sold_out),
                budget@,
            ),
            pick,
        ),
        labels@.len() == 0 ==> pick is None,
        !all_known(label_views(labels@), label_bitvecs@) ==> pick is None,
{
    let user_blacklist = get_user_blacklist(store, user);
    let sold_out_pies = get_pie_soldout(store);
    recommend_among(labels, pies, label_bitvecs, user_blacklist, sold_out_pies, budget)
}

/// One purchase request, as mathematics.
pub struct PurchaseCall {
    /// The pie asked for.
    pub pie_id: u64,
    /// The pie's position.
    pub pos: nat,
    /// The customer.
    pub user: Seq<char>,
    /// The slices asked for.
    pub amount: i64,
}

impl StoreState {
    /// The store after `calls` were made one after the other.
    pub open spec fn after(self, calls: Seq<PurchaseCall>) -> StoreState
        decreases calls.len(),
    {
        if calls.len() == 0 {
            self
        } else {
            let last = calls.last();
            self.after(calls.drop_last()).purchase(last.pie_id, last.pos, last.user, last.amount)
        }
    }
}

/// A request for more than the cap is answered `OverLimit` whatever the store
/// holds, and the store stays as it was.
pub proof fn lemma_over_cap_is_refused(
    store: StoreState,
    pie_id: u64,
    pos: nat,
    user: Seq<char>,
    amount: i64,
)
    requires
        amount > ALLOWED_PIES,
    ensures
        store.answer(pie_id, pos, user, amount) == PurchaseStatus::OverLimit,
        store.purchase(pie_id, pos, user, amount) == store,
{
}

/// A customer who is barred from a pie is answered `OverLimit` whatever the
/// stock, the ledger and the amount are, and the store stays as it was.
pub proof fn lemma_blacklisted_is_refused(
    store: StoreState,
    pie_id: u64,
    pos: nat,
    user: Seq<char>,
    amount: i64,
)
    requires
        store.blacklisted(user, pos as int),
    ensures
        store.answer(pie_id, pos, user, amount) == PurchaseStatus::OverLimit,
        store.purchase(pie_id, pos, user, amount) == store,
{
}

/// A purchase that is not answered `Success` leaves the store as it was.
pub proof fn lemma_refusal_writes_nothing(
    store: StoreState,
    pie_id: u64,
    pos: nat,
    user: Seq<char>,
    amount: i64,
)
    requires
        store.answer(pie_id, pos, user, amount) != PurchaseStatus::Success,
    ensures
        store.purchase(pie_id, pos, user, amount) == store,
{
}

/// A successful purchase adds exactly `amount` to the customer's ledger
/// entry and takes exactly `amount` from the pie's count.  Where the
/// customer's total is then the cap, the customer's blacklist bit at the
/// pie's position is set; where no slice is left, so is the sold-out bit.
pub proof fn lemma_success_writes(
    store: StoreState,
    pie_id: u64,
    pos: nat,
    user: Seq<char>,
    amount: i64,
)
    requires
        store.can_hold(pie_id, user, amount),
        store.answer(pie_id, pos, user, amount) == PurchaseStatus::Success,
    ensures
        ({
            let next = store.purchase(pie_id, pos, user, amount);
            &&& prior_amount(next.purchased(pie_id, user)) == prior_amount(
                store.purchased(pie_id, user),
            ) + amount
            &&& next.stock(pie_id) == store.stock(pie_id) - amount
            &&& prior_amount(next.purchased(pie_id, user)) == ALLOWED_PIES ==> next.blacklisted(
                user,
                pos as int,
            )
            &&& next.stock(pie_id) <= 0 ==> next.is_sold_out(pos as int)
        }),
{
    lemma_bytes_with_bit(store.blacklist(user), pos);
    lemma_bytes_with_bit(store.sold_out, pos);
}

/// A purchase touches one pie's count and one ledger entry, and clears no
/// bit: every other count and entry stays, and whoever was barred, and
/// whatever was sold out, still is.
pub proof fn lemma_purchase_frame(
    store: StoreState,
    pie_id: u64,
    pos: nat,
    user: Seq<char>,
    amount: i64,
)
    ensures
        ({
            let next = store.purchase(pie_id, pos, user, amount);
            &&& forall|other: u64| other != pie_id ==> next.stock(other) == store.stock(other)
            &&& forall|other: u64, who: Seq<char>|
                other != pie_id || who != user ==> next.purchased(other, who) == store.purchased(
                    other,
                    who,
                )
            &&& forall|who: Seq<char>, p: int|
                store.blacklisted(who, p) ==> #[trigger] next.blacklisted(who, p)
            &&& forall|p: int| store.is_sold_out(p) ==> #[trigger] next.is_sold_out(p)
        }),
{
    let next = store.purchase(pie_id, pos, user, amount);
    lemma_bytes_with_bit(store.blacklist(user), pos);
    lemma_bytes_with_bit(store.sold_out, pos);
    assert forall|who: Seq<char>, p: int| store.blacklisted(who, p) implies #[trigger]
        next.blacklisted(who, p) by {
        if who == user {
            assert(bit_in_bytes(bytes_with_bit(store.blacklist(user), pos), p) == (p == pos
                || bit_in_bytes(store.blacklist(user), p)));
        }
    }
    assert forall|p: int| store.is_sold_out(p) implies #[trigger] next.is_sold_out(p) by {
        assert(bit_in_bytes(bytes_with_bit(store.sold_out, pos), p) == (p == pos || bit_in_bytes(
            store.sold_out,
            p,
        )));
    }
}

/// No purchase takes a customer's total of a pie over the cap: a ledger
/// entry that is within the cap stays within it.
pub proof fn lemma_cap_is_kept(
    store: StoreState,
    pie_id: u64,
    pos: nat,
    user: Seq<char>,
    amount: i64,
    watched: u64,
    who: Seq<char>,
)
    requires
        store.can_hold(pie_id, user, amount),
        prior_amount(store.purchased(watched, who)) <= ALLOWED_PIES,
    ensures
        prior_amount(store.purchase(pie_id, pos, user, amount).purchased(watched, who))
            <= ALLOWED_PIES,
{
}

/// A purchase of a non-negative amount lowers no ledger entry.
pub proof fn lemma_ledger_step(
    store: StoreState,
    pie_id: u64,
    pos: nat,
    user: Seq<char>,
    amount: i64,
    watched: u64,
    who: Seq<char>,
)
    requires
        amount >= 0,
    ensures
        prior_amount(store.purchase(pie_id, pos, user, amount).purchased(watched, who))
            >= prior_amount(store.purchased(watched, who)),
{
}

/// One purchase of a non-negative amount never raises a pie's count, and
/// never takes it below zero.
pub proof fn lemma_stock_step(
    store: StoreState,
    pie_id: u64,
    pos: nat,
    user: Seq<char>,
    amount: i64,
    watched: u64,
)
    requires
        amount >= 0,
        store.stock(watched) >= 0,
    ensures
        0 <= store.purchase(pie_id, pos, user, amount).stock(watched) <= store.stock(watched),
{
}

/// Over any sequence of purchases of non-negative amounts, made one after
/// the other, a pie's count never grows and never goes below zero.
pub proof fn lemma_stock_never_grows(store: StoreState, calls: Seq<PurchaseCall>, watched: u64)
    requires
        store.stock(watched) >= 0,
        forall|i: int| 0 <= i < calls.len() ==> (#[trigger] calls[i]).amount >= 0,
    ensures
        0 <= store.after(calls).stock(watched) <= store.stock(watched),
        forall|k: int|
            0 <= k <= calls.len() ==> store.after(calls).stock(watched) <= (#[trigger] store.after(
                calls.take(k),
            )).stock(watched),
    decreases calls.len(),
{
    if calls.len() == 0 {
    } else {
        let last = calls.last();
        let before = calls.drop_last();
        lemma_stock_never_grows(store, before, watched);
        lemma_stock_step(
            store.after(before),
            last.pie_id,
            last.pos,
            last.user,
            last.amount,
            watched,
        );
        assert forall|k: int| 0 <= k <= calls.len() implies store.after(calls).stock(watched) <= (
        #[trigger] store.after(calls.take(k))).stock(watched) by {
            if k == calls.len() {
                assert(calls.take(k) =~= calls);
            } else {
                assert(calls.take(k) =~= before.take(k));
            }
        }
    }
}

/// Over any sequence of purchases of non-negative amounts, made one after
/// the other, a customer's total of a pie never shrinks, and it never passes
/// the cap where it was within the cap before.
pub proof fn lemma_cap_is_never_passed(
    store: StoreState,
    calls: Seq<PurchaseCall>,
    watched: u64,
    who: Seq<char>,
)
    requires
        prior_amount(store.purchased(watched, who)) <= ALLOWED_PIES,
        forall|i: int| 0 <= i < calls.len() ==> (#[trigger] calls[i]).amount >= 0,
    ensures
        prior_amount(store.purchased(watched, who)) <= prior_amount(
            store.after(calls).purchased(watched, who),
        ) <= ALLOWED_PIES,
    decreases calls.len(),
{
    if calls.len() > 0 {
        let last = calls.last();
        let before = calls.drop_last();
        lemma_cap_is_never_passed(store, before, watched, who);
        lemma_cap_is_kept(
            store.after(before),
            last.pie_id,
            last.pos,
            last.user,
            last.amount,
            watched,
            who,
        );
        lemma_ledger_step(
            store.after(before),
            last.pie_id,
            last.pos,
            last.user,
            last.amount,
            watched,
            who,
        );
    }
}

} // verus!
