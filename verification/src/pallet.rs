//! The executable ledger. Every public operation steps exactly as the
//! transition functions of `model` say, and keeps the state well-formed.

use crate::dna::{dna_of, mix, random_value};
use crate::model::{
    account_in, bank_ok, bank_reserve, bank_transfer, bank_unreserve, babies_view,
    can_transfer_keep_alive, dna_view, free_of, index_of, list_in, market_scan, next_of, owner_of,
    price_of, record_matches, remove_id, reserved_of, scan_record, spec_breed, spec_buy,
    spec_create, spec_sell, spec_transfer, wf, LedgerView,
};
use crate::invariants::{
    lemma_bank_reserve_ok, lemma_bank_transfer_ok, lemma_breed_wf, lemma_buy_wf, lemma_create_wf,
    lemma_sell_wf, lemma_transfer_wf, lemma_wf_same_ledger,
};
use crate::types::{AccountData, Config, Error, Event, GetKittyMarketResult, Kitty, KittyInfo,
    KittyInfoById};
use std::collections::HashMap;
use vstd::prelude::*;

verus! {

/// The ledger: id counter, asset data, ownership, listings, the owner
/// index, the currency accounts, the event log, and the configuration.
pub struct Pallet {
    count: Option<u64>,
    kitties: HashMap<u64, Kitty>,
    owner: HashMap<u64, u64>,
    market: HashMap<u64, u128>,
    babies: HashMap<u64, Vec<u64>>,
    accounts: HashMap<u64, AccountData>,
    events: Vec<Event>,
    fee: u128,
    ed: u128,
}

impl View for Pallet {
    type V = LedgerView;

    closed spec fn view(&self) -> LedgerView {
        LedgerView {
            next_id: self.count,
            dna: dna_view(self.kitties@),
            owner: self.owner@,
            market: self.market@,
            index: babies_view(self.babies@),
            accounts: self.accounts@,
            events: self.events@,
            fee: self.fee,
            ed: self.ed,
        }
    }
}

/// The state a fresh ledger starts in: nothing minted, nothing listed,
/// no accounts, no events.
pub open spec fn initial_ledger(config: Config) -> LedgerView {
    LedgerView {
        next_id: None,
        dna: Map::empty(),
        owner: Map::empty(),
        market: Map::empty(),
        index: Map::empty(),
        accounts: Map::empty(),
        events: Seq::empty(),
        fee: config.reservation_fee,
        ed: config.existential_deposit,
    }
}

impl Pallet {
    /// A fresh, well-formed ledger under the given configuration.
    pub fn new(config: Config) -> (r: Pallet)
        ensures
            r@ == initial_ledger(config),
            wf(r@),
    {
        let r = Pallet {
            count: None,
            kitties: HashMap::new(),
            owner: HashMap::new(),
            market: HashMap::new(),
            babies: HashMap::new(),
            accounts: HashMap::new(),
            events: Vec::new(),
            fee: config.reservation_fee,
            ed: config.existential_deposit,
        };
        proof {
            assert(r@ =~~= initial_ledger(config));
            assert(forall|a: u64| index_of(r@, a) == Seq::<u64>::empty());
        }
        r
    }

    /// Endows `who` with a free balance and no holds, as a genesis would.
    pub fn set_balance(&mut self, who: u64, free: u128)
        ensures
            final(self)@ == (LedgerView {
                accounts: old(self)@.accounts.insert(who, AccountData { free, reserved: 0 }),
                ..old(self)@
            }),
            wf(old(self)@) ==> wf(final(self)@),
    {
        self.accounts.insert(who, AccountData { free, reserved: 0 });
        proof {
            let t = LedgerView {
                accounts: old(self)@.accounts.insert(who, AccountData { free, reserved: 0 }),
                ..old(self)@
            };
            assert(self@ =~~= t);
            if wf(old(self)@) {
                lemma_wf_same_ledger(old(self)@, t);
            }
        }
    }

    /// The next id to allocate, `None` before the first mint.
    pub fn kitties_count(&self) -> (r: Option<u64>)
        ensures
            r == self@.next_id,
    {
        self.count
    }

    /// The asset stored under `kitty_id`, if it was ever minted.
    pub fn kitties(&self, kitty_id: u64) -> (r: Option<Kitty>)
        ensures
            match r {
                Some(k) => self@.dna.contains_key(kitty_id) && k@ == self@.dna[kitty_id],
                None => !self@.dna.contains_key(kitty_id),
            },
    {
        match self.kitties.get(&kitty_id) {
            Some(k) => Some(*k),
            None => None,
        }
    }

    /// The owner of `kitty_id`, if it was ever minted.
    pub fn owner(&self, kitty_id: u64) -> (r: Option<u64>)
        ensures
            r == owner_of(self@, kitty_id),
    {
        match self.owner.get(&kitty_id) {
            Some(o) => Some(*o),
            None => None,
        }
    }

    /// The asking price of `kitty_id`; 0 means no active listing.
    pub fn kittymarket(&self, kitty_id: u64) -> (r: u128)
        ensures
            r == price_of(self@, kitty_id),
    {
        match self.market.get(&kitty_id) {
            Some(p) => *p,
            None => 0,
        }
    }

    /// The ids `who` owns, as the owner index records them.
    pub fn kittybabies(&self, who: u64) -> (r: Vec<u64>)
        ensures
            r@ == index_of(self@, who),
    {
        match self.babies.get(&who) {
            Some(v) => {
                let r = clone_ids(v);
                proof {
                    assert(babies_view(self.babies@).contains_key(who));
                }
                r
            },
            None => {
                proof {
                    assert(!babies_view(self.babies@).contains_key(who));
                }
                Vec::new()
            },
        }
    }

    /// `who`'s free balance.
    pub fn free_balance(&self, who: u64) -> (r: u128)
        ensures
            r == free_of(self@, who),
    {
        match self.accounts.get(&who) {
            Some(x) => x.free,
            None => 0,
        }
    }

    /// `who`'s reserved balance.
    pub fn reserved_balance(&self, who: u64) -> (r: u128)
        ensures
            r == reserved_of(self@, who),
    {
        match self.accounts.get(&who) {
            Some(x) => x.reserved,
            None => 0,
        }
    }

    /// Appends `kitty_id` to `who`'s owner-index entry, creating it if need be.
    fn push_kitty_babies_list(&mut self, who: u64, kitty_id: u64)
        ensures
            final(self)@ == (LedgerView {
                index: old(self)@.index.insert(
                    who,
                    list_in(old(self)@.index, who).push(kitty_id),
                ),
                ..old(self)@
            }),
    {
        let mut b = match self.babies.get(&who) {
            Some(v) => clone_ids(v),
            None => Vec::new(),
        };
        b.push(kitty_id);
        self.babies.insert(who, b);
        proof {
            let t = LedgerView {
                index: old(self)@.index.insert(
                    who,
                    list_in(old(self)@.index, who).push(kitty_id),
                ),
                ..old(self)@
            };
            assert(self@.index =~= t.index);
            assert(self@ =~~= t);
        }
    }

    /// Removes the first occurrence of `kitty_id` from `who`'s owner-index
    /// entry by swapping in the final element, writing the entry back either
    /// way.
    fn remove_kittyid_from_kitty_babies_list(&mut self, who: u64, kitty_id: u64)
        ensures
            final(self)@ == (LedgerView {
                index: old(self)@.index.insert(
                    who,
                    remove_id(list_in(old(self)@.index, who), kitty_id),
                ),
                ..old(self)@
            }),
    {
        let mut b = match self.babies.get(&who) {
            Some(v) => clone_ids(v),
            None => Vec::new(),
        };
        let n = b.len();
        let mut i: usize = 0;
        while i < n && b[i] != kitty_id
            invariant
                i <= n,
                n == b@.len(),
                forall|j: int| 0 <= j < i ==> b@[j] != kitty_id,
            decreases n - i,
        {
            i = i + 1;
        }
        proof {
            b@.index_of_first_ensures(kitty_id);
            if i < n {
                assert(b@.index_of_first(kitty_id) == Some(i as int)) by {
                    let f = b@.index_of_first(kitty_id).unwrap();
                    assert(b@[f] == kitty_id && b@[i as int] == kitty_id);
                    if f < i {
                        assert(b@[f] != kitty_id);
                    }
                    if i < f {
                        assert(b@[i as int] != kitty_id);
                    }
                }
            } else {
                assert(!b@.contains(kitty_id)) by {
                    assert(forall|j: int| 0 <= j < b@.len() ==> b@[j] != kitty_id);
                }
            }
        }
        if i < n {
            b.swap_remove(i);
        }
        self.babies.insert(who, b);
        proof {
            let t = LedgerView {
                index: old(self)@.index.insert(
                    who,
                    remove_id(list_in(old(self)@.index, who), kitty_id),
                ),
                ..old(self)@
            };
            assert(self@.index =~= t.index);
            assert(self@ =~~= t);
        }
    }

    /// The events emitted so far, oldest first.
    pub fn events(&self) -> (r: Vec<Event>)
        ensures
            r@ == self@.events,
    {
        let mut r: Vec<Event> = Vec::new();
        let mut i: usize = 0;
        while i < self.events.len()
            invariant
                i <= self.events@.len(),
                r@ == self.events@.subrange(0, i as int),
            decreases self.events@.len() - i,
        {
            r.push(self.events[i]);
            proof {
                assert(r@ =~= self.events@.subrange(0, i as int + 1));
            }
            i = i + 1;
        }
        proof {
            assert(r@ =~= self@.events);
        }
        r
    }
}

/// Places a hold of `v` against `a`: moves it from free to reserved.
fn do_reserve(m: &mut HashMap<u64, AccountData>, a: u64, v: u128)
    requires
        bank_ok(old(m)@),
        v == 0 || account_in(old(m)@, a).free >= v,
    ensures
        final(m)@ == bank_reserve(old(m)@, a, v),
{
    if v > 0 {
        let acct = match m.get(&a) {
            Some(x) => *x,
            None => AccountData { free: 0, reserved: 0 },
        };
        proof {
            assert(old(m)@.contains_key(a));
        }
        m.insert(a, AccountData { free: acct.free - v, reserved: acct.reserved + v });
    }
}

/// Releases up to `v` of `a`'s hold back to its free balance.
fn do_unreserve(m: &mut HashMap<u64, AccountData>, a: u64, v: u128)
    requires
        bank_ok(old(m)@),
    ensures
        final(m)@ == bank_unreserve(old(m)@, a, v),
{
    let acct = match m.get(&a) {
        Some(x) => *x,
        None => AccountData { free: 0, reserved: 0 },
    };
    let moved = if v <= acct.reserved {
        v
    } else {
        acct.reserved
    };
    if moved > 0 {
        proof {
            assert(old(m)@.contains_key(a));
        }
        m.insert(a, AccountData { free: acct.free + moved, reserved: acct.reserved - moved });
    }
}

/// Moves `v` of free balance from `from` to `to`.
fn do_transfer(m: &mut HashMap<u64, AccountData>, from: u64, to: u64, v: u128)
    requires
        bank_ok(old(m)@),
        v == 0 || from == to || (account_in(old(m)@, from).free >= v && account_in(old(m)@, to).free
            + v + account_in(old(m)@, to).reserved <= u128::MAX),
    ensures
        final(m)@ == bank_transfer(old(m)@, from, to, v),
{
    if v > 0 && from != to {
        let fa = match m.get(&from) {
            Some(x) => *x,
            None => AccountData { free: 0, reserved: 0 },
        };
        let ta = match m.get(&to) {
            Some(x) => *x,
            None => AccountData { free: 0, reserved: 0 },
        };
        m.insert(from, AccountData { free: fa.free - v, reserved: fa.reserved });
        m.insert(to, AccountData { free: ta.free + v, reserved: ta.reserved });
    }
}

/// Decides whether a payment of `v` from `from` to `to` can go through with
/// both accounts kept above the floor `ed`.
fn can_transfer_exec(m: &HashMap<u64, AccountData>, ed: u128, from: u64, to: u64, v: u128) -> (r:
    bool)
    requires
        bank_ok(m@),
    ensures
        r == can_transfer_keep_alive(m@, ed, from, to, v),
{
    if v == 0 || from == to {
        return true;
    }
    let fa = match m.get(&from) {
        Some(x) => *x,
        None => AccountData { free: 0, reserved: 0 },
    };
    let ta = match m.get(&to) {
        Some(x) => *x,
        None => AccountData { free: 0, reserved: 0 },
    };
    if fa.free < v {
        return false;
    }
    if (fa.free - v) + fa.reserved < ed {
        return false;
    }
    if ta.free > u128::MAX - v {
        return false;
    }
    let t1 = ta.free + v;
    if ta.reserved > u128::MAX - t1 {
        return false;
    }
    t1 + ta.reserved >= ed
}

impl Pallet {
    /// Mints a new asset for `who`: the caller's reservation is checked, the
    /// next id allocated, the generative data derived from (seed, caller,
    /// call index), and ownership, index and counter updated together.
    pub fn create(&mut self, who: u64, seed: &[u8; 32], extrinsic_index: Option<u32>) -> (r:
        Result<(), Error>)
        requires
            wf(old(self)@),
        ensures
            final(self)@ == spec_create(old(self)@, who, dna_of(seed@, who, extrinsic_index)).0,
            r == spec_create(old(self)@, who, dna_of(seed@, who, extrinsic_index)).1,
            wf(final(self)@),
    {
        let fee = self.fee;
        if fee > 0 && self.free_balance(who) < fee {
            return Err(Error::NoSufficientBalance);
        }
        let kitty_id: u64 = match self.count {
            Some(id) => {
                if id == u64::MAX {
                    return Err(Error::KittiesCountOverflow);
                }
                id
            },
            None => 0,
        };
        let dna = random_value(seed, who, extrinsic_index);
        self.kitties.insert(kitty_id, Kitty(dna));
        self.owner.insert(kitty_id, who);
        self.count = Some(kitty_id + 1);
        do_reserve(&mut self.accounts, who, fee);
        self.push_kitty_babies_list(who, kitty_id);
        self.events.push(Event::KittyCreate(who, kitty_id));
        proof {
            let d = dna_of(seed@, who, extrinsic_index);
            let t = spec_create(old(self)@, who, d).0;
            assert(self@.dna =~= t.dna);
            assert(self@.index =~= t.index);
            assert(self@ =~= t);
            lemma_create_wf(old(self)@, who, d);
        }
        Ok(())
    }

    /// Passes `kitty_id` from its owner `who` to `new_owner`: the new owner
    /// takes the hold before the old one's is released, and the index entry
    /// moves by unordered removal and an append.
    pub fn transfer(&mut self, who: u64, new_owner: u64, kitty_id: u64) -> (r: Result<(), Error>)
        requires
            wf(old(self)@),
        ensures
            final(self)@ == spec_transfer(old(self)@, who, new_owner, kitty_id).0,
            r == spec_transfer(old(self)@, who, new_owner, kitty_id).1,
            wf(final(self)@),
    {
        let owner_ok = match self.owner.get(&kitty_id) {
            Some(o) => *o == who,
            None => false,
        };
        if !owner_ok {
            return Err(Error::NotOwner);
        }
        let fee = self.fee;
        if fee > 0 && self.free_balance(new_owner) < fee {
            return Err(Error::NoSufficientBalance);
        }
        self.owner.insert(kitty_id, new_owner);
        do_reserve(&mut self.accounts, new_owner, fee);
        proof {
            lemma_bank_reserve_ok(old(self)@.accounts, new_owner, fee);
        }
        do_unreserve(&mut self.accounts, who, fee);
        self.remove_kittyid_from_kitty_babies_list(who, kitty_id);
        self.push_kitty_babies_list(new_owner, kitty_id);
        self.events.push(Event::KittyTransfer(who, new_owner, kitty_id));
        proof {
            let t = spec_transfer(old(self)@, who, new_owner, kitty_id).0;
            assert(self@.index =~= t.index);
            assert(self@ =~= t);
            lemma_transfer_wf(old(self)@, who, new_owner, kitty_id);
        }
        Ok(())
    }

    /// Breeds a child from two distinct, minted parents: the child's data is
    /// mixed bit by bit under a selector derived as in `create`; no hold is
    /// placed for breeding.
    pub fn breed(
        &mut self,
        who: u64,
        kitty_id_1: u64,
        kitty_id_2: u64,
        seed: &[u8; 32],
        extrinsic_index: Option<u32>,
    ) -> (r: Result<(), Error>)
        requires
            wf(old(self)@),
        ensures
            final(self)@ == spec_breed(
                old(self)@,
                who,
                kitty_id_1,
                kitty_id_2,
                dna_of(seed@, who, extrinsic_index),
            ).0,
            r == spec_breed(
                old(self)@,
                who,
                kitty_id_1,
                kitty_id_2,
                dna_of(seed@, who, extrinsic_index),
            ).1,
            wf(final(self)@),
    {
        if kitty_id_1 == kitty_id_2 {
            return Err(Error::SameParentIndex);
        }
        let kitty1 = match self.kitties.get(&kitty_id_1) {
            Some(k) => *k,
            None => {
                return Err(Error::InvalidKittyIndex);
            },
        };
        let kitty2 = match self.kitties.get(&kitty_id_2) {
            Some(k) => *k,
            None => {
                return Err(Error::InvalidKittyIndex);
            },
        };
        let child_id: u64 = match self.count {
            Some(id) => {
                if id == u64::MAX {
                    return Err(Error::KittiesCountOverflow);
                }
                id
            },
            None => 0,
        };
        let selector = random_value(seed, who, extrinsic_index);
        let new_dna = mix(&selector, &kitty1.0, &kitty2.0);
        self.kitties.insert(child_id, Kitty(new_dna));
        self.owner.insert(child_id, who);
        self.count = Some(child_id + 1);
        self.push_kitty_babies_list(who, child_id);
        self.events.push(Event::KittyCreate(who, child_id));
        proof {
            let sel = dna_of(seed@, who, extrinsic_index);
            let t = spec_breed(old(self)@, who, kitty_id_1, kitty_id_2, sel).0;
            assert(kitty1@ == old(self)@.dna[kitty_id_1]);
            assert(kitty2@ == old(self)@.dna[kitty_id_2]);
            assert(self@.dna =~= t.dna);
            assert(self@.index =~= t.index);
            assert(self@ =~= t);
            lemma_breed_wf(old(self)@, who, kitty_id_1, kitty_id_2, sel);
        }
        Ok(())
    }

    /// Lists `kitty_id` at `selling_value`; only the owner may, and a price
    /// of 0 is legal input that leaves the asset looking unlisted.
    pub fn sell_kitties(&mut self, who: u64, kitty_id: u64, selling_value: u128) -> (r: Result<
        (),
        Error,
    >)
        requires
            wf(old(self)@),
        ensures
            final(self)@ == spec_sell(old(self)@, who, kitty_id, selling_value).0,
            r == spec_sell(old(self)@, who, kitty_id, selling_value).1,
            wf(final(self)@),
    {
        let owner_ok = match self.owner.get(&kitty_id) {
            Some(o) => *o == who,
            None => false,
        };
        if !owner_ok {
            return Err(Error::NotOwner);
        }
        self.market.insert(kitty_id, selling_value);
        self.events.push(Event::SellingKitty(kitty_id, selling_value));
        proof {
            let t = spec_sell(old(self)@, who, kitty_id, selling_value).0;
            assert(self@ =~= t);
            lemma_sell_wf(old(self)@, who, kitty_id, selling_value);
        }
        Ok(())
    }

    /// Buys `kitty_id` off the market: an asking price of 0 means no active
    /// listing; the buyer pays the owner, takes ownership and the index
    /// entry, the seller's hold is released, and the listing is consumed.
    pub fn buy_kitties(&mut self, who: u64, kitty_id: u64) -> (r: Result<(), Error>)
        requires
            wf(old(self)@),
        ensures
            final(self)@ == spec_buy(old(self)@, who, kitty_id).0,
            r == spec_buy(old(self)@, who, kitty_id).1,
            wf(final(self)@),
    {
        let price = self.kittymarket(kitty_id);
        if price == 0 {
            return Err(Error::InvalidKittyIndex);
        }
        proof {
            assert(old(self)@.market.contains_key(kitty_id));
            assert(old(self)@.owner.contains_key(kitty_id));
        }
        let old_owner: u64 = match self.owner.get(&kitty_id) {
            Some(o) => *o,
            None => {
                proof {
                    assert(false);
                }
                0
            },
        };
        if self.free_balance(who) <= price {
            return Err(Error::NoSufficientBalance);
        }
        if !can_transfer_exec(&self.accounts, self.ed, who, old_owner, price) {
            return Err(Error::NoSufficientBalance);
        }
        let fee = self.fee;
        do_transfer(&mut self.accounts, who, old_owner, price);
        proof {
            lemma_bank_transfer_ok(old(self)@.accounts, who, old_owner, price);
        }
        self.owner.insert(kitty_id, who);
        self.remove_kittyid_from_kitty_babies_list(old_owner, kitty_id);
        self.push_kitty_babies_list(who, kitty_id);
        do_unreserve(&mut self.accounts, old_owner, fee);
        self.market.remove(&kitty_id);
        self.events.push(Event::SeltKitty(kitty_id, old_owner, who));
        proof {
            let t = spec_buy(old(self)@, who, kitty_id).0;
            assert(self@.index =~= t.index);
            assert(self@.market =~= t.market);
            assert(self@ =~= t);
            lemma_buy_wf(old(self)@, who, kitty_id);
        }
        Ok(())
    }

    /// Reports the active listings: every id with a nonzero asking price,
    /// scanned from the most recently minted id down to 0, each with its
    /// owner, price and generative data. Empty when nothing was ever minted.
    pub fn query_kittiy_market_info(&self) -> (r: GetKittyMarketResult<u64, u128>)
        requires
            wf(self@),
        ensures
            r@.len() == market_scan(self@, next_of(self@) as int).len(),
            forall|j: int|
                0 <= j < r@.len() ==> record_matches(
                    #[trigger] r@[j],
                    market_scan(self@, next_of(self@) as int)[j],
                ),
    {
        let mut out: Vec<KittyInfoById<u64, u128>> = Vec::new();
        let count: u64 = match self.count {
            Some(c) => c,
            None => {
                return out;
            },
        };
        let ghost scan = market_scan(self@, count as int);
        let mut i: u64 = count;
        while i > 0
            invariant
                wf(self@),
                i <= count,
                self@.next_id == Some(count),
                scan == market_scan(self@, count as int),
                out@.len() + market_scan(self@, i as int).len() == scan.len(),
                forall|j: int| 0 <= j < out@.len() ==> record_matches(#[trigger] out@[j], scan[j]),
                scan.subrange(out@.len() as int, scan.len() as int) == market_scan(
                    self@,
                    i as int,
                ),
            decreases i,
        {
            i = i - 1;
            let ghost rest = market_scan(self@, i as int);
            let price = self.kittymarket(i);
            if price != 0 {
                proof {
                    assert(self@.market.contains_key(i));
                    assert(self@.owner.contains_key(i));
                    assert(self@.dna.contains_key(i));
                }
                let o: u64 = match self.owner.get(&i) {
                    Some(o) => *o,
                    None => {
                        proof {
                            assert(false);
                        }
                        0
                    },
                };
                let k: Kitty = match self.kitties.get(&i) {
                    Some(k) => *k,
                    None => {
                        proof {
                            assert(false);
                        }
                        Kitty([0u8; 16])
                    },
                };
                let ghost l = out@.len() as int;
                out.push(KittyInfoById { kitty_index: i, info: KittyInfo { owner: o, price, kitty_dna: k } });
                proof {
                    assert(market_scan(self@, i as int + 1) == seq![scan_record(self@, i)]
                        + rest);
                    assert(scan[l] == scan.subrange(l, scan.len() as int)[0]);
                    assert(scan[l] == scan_record(self@, i));
                    assert(k@ == self@.dna[i]);
                    assert(record_matches(out@[l], scan[l]));
                    assert(scan.subrange(l + 1, scan.len() as int) =~= rest) by {
                        assert forall|j: int|
                            0 <= j < scan.len() - l - 1 implies scan.subrange(
                            l + 1,
                            scan.len() as int,
                        )[j] == rest[j] by {
                            assert(scan.subrange(l, scan.len() as int)[j + 1] == scan[l + 1 + j]);
                            assert((seq![scan_record(self@, i)] + rest)[j + 1] == rest[j]);
                        }
                    }
                }
            } else {
                proof {
                    assert(market_scan(self@, i as int + 1) == rest);
                }
            }
        }
        proof {
            assert(market_scan(self@, 0).len() == 0);
        }
        out
    }
}

/// Copies a list of ids.
fn clone_ids(v: &Vec<u64>) -> (r: Vec<u64>)
    ensures
        r@ == v@,
{
    let r = v.clone();
    proof {
        assert forall|i: int| 0 <= i < r@.len() implies r@[i] == v@[i] by {
            assert(cloned::<u64>(v@[i], r@[i]));
        }
        assert(r@ =~= v@);
    }
    r
}

} // verus!
