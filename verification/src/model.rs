//! The mathematical model of the ledger: an abstract state, accessors with
//! the storage defaults, the currency rules, and one transition function per
//! public operation. The executable operations promise to step exactly as
//! these transitions say.

use crate::dna::mix_dna;
use crate::types::{AccountData, Error, Event, Kitty, KittyInfoById};
use vstd::prelude::*;

verus! {

/// Abstract state of the ledger.
///
/// `next_id` is the id the next mint will take (`None` before the first).
/// `dna` and `owner` carry every minted id; `market` holds asking prices,
/// where an absent id or a price of 0 both mean "not listed"; `index` is the
/// secondary owner index; `accounts` is the currency model; `events` is the
/// log of emitted domain events, one per successful operation.
#[verifier::ext_equal]
pub struct LedgerView {
    pub next_id: Option<u64>,
    pub dna: Map<u64, Seq<u8>>,
    pub owner: Map<u64, u64>,
    pub market: Map<u64, u128>,
    pub index: Map<u64, Seq<u64>>,
    pub accounts: Map<u64, AccountData>,
    pub events: Seq<Event>,
    pub fee: u128,
    pub ed: u128,
}

/// The id the next mint will allocate.
pub open spec fn next_of(s: LedgerView) -> u64 {
    match s.next_id {
        None => 0,
        Some(c) => c,
    }
}

/// Owner of `id`, or `None` if `id` was never minted.
pub open spec fn owner_of(s: LedgerView, id: u64) -> Option<u64> {
    if s.owner.contains_key(id) {
        Some(s.owner[id])
    } else {
        None
    }
}

/// Asking price of `id`; 0 doubles as "not listed".
pub open spec fn price_of(s: LedgerView, id: u64) -> u128 {
    if s.market.contains_key(id) {
        s.market[id]
    } else {
        0
    }
}

/// The id list an owner-index map holds for `a`; absent means empty.
pub open spec fn list_in(m: Map<u64, Seq<u64>>, a: u64) -> Seq<u64> {
    if m.contains_key(a) {
        m[a]
    } else {
        Seq::empty()
    }
}

/// The ids `a` owns, as the owner index records them.
pub open spec fn index_of(s: LedgerView, a: u64) -> Seq<u64> {
    list_in(s.index, a)
}

/// Balances of `a`; an absent account holds nothing.
pub open spec fn account_in(m: Map<u64, AccountData>, a: u64) -> AccountData {
    if m.contains_key(a) {
        m[a]
    } else {
        AccountData { free: 0, reserved: 0 }
    }
}

pub open spec fn account_of(s: LedgerView, a: u64) -> AccountData {
    account_in(s.accounts, a)
}

pub open spec fn free_of(s: LedgerView, a: u64) -> u128 {
    account_of(s, a).free
}

pub open spec fn reserved_of(s: LedgerView, a: u64) -> u128 {
    account_of(s, a).reserved
}

/// A hold of `v` can be placed against `a`: nothing to hold, or free cover.
pub open spec fn can_reserve(s: LedgerView, a: u64, v: u128) -> bool {
    v == 0 || free_of(s, a) >= v
}

/// Moves `v` from `a`'s free balance to its reserved balance.
pub open spec fn bank_reserve(m: Map<u64, AccountData>, a: u64, v: u128) -> Map<u64, AccountData> {
    if v == 0 {
        m
    } else {
        let acct = account_in(m, a);
        m.insert(
            a,
            AccountData { free: (acct.free - v) as u128, reserved: (acct.reserved + v) as u128 },
        )
    }
}

/// Releases up to `v` of `a`'s reserved balance back to free.
pub open spec fn bank_unreserve(m: Map<u64, AccountData>, a: u64, v: u128) -> Map<
    u64,
    AccountData,
> {
    let acct = account_in(m, a);
    let moved = if v <= acct.reserved {
        v
    } else {
        acct.reserved
    };
    if moved == 0 {
        m
    } else {
        m.insert(
            a,
            AccountData {
                free: (acct.free + moved) as u128,
                reserved: (acct.reserved - moved) as u128,
            },
        )
    }
}

/// A payment of `v` from `from` to `to` goes through while `from` keeps the
/// liveness floor: trivially for nothing or to oneself; otherwise `from`'s
/// free balance covers it, both accounts stay at or above the floor
/// (counting holds), and the recipient's total still fits its balance type.
pub open spec fn can_transfer_keep_alive(
    m: Map<u64, AccountData>,
    ed: u128,
    from: u64,
    to: u64,
    v: u128,
) -> bool {
    ||| v == 0
    ||| from == to
    ||| {
        let fa = account_in(m, from);
        let ta = account_in(m, to);
        &&& fa.free >= v
        &&& fa.free - v + fa.reserved >= ed
        &&& ta.free + v + ta.reserved <= u128::MAX
        &&& ta.free + v + ta.reserved >= ed
    }
}

/// Moves `v` of free balance from `from` to `to`.
pub open spec fn bank_transfer(m: Map<u64, AccountData>, from: u64, to: u64, v: u128) -> Map<
    u64,
    AccountData,
> {
    if v == 0 || from == to {
        m
    } else {
        let fa = account_in(m, from);
        let ta = account_in(m, to);
        m.insert(from, AccountData { free: (fa.free - v) as u128, reserved: fa.reserved }).insert(
            to,
            AccountData { free: (ta.free + v) as u128, reserved: ta.reserved },
        )
    }
}

/// No account's two balances overflow their sum.
pub open spec fn bank_ok(m: Map<u64, AccountData>) -> bool {
    forall|a: u64| #[trigger] m.contains_key(a) ==> m[a].free + m[a].reserved <= u128::MAX
}

/// An unordered removal: the first occurrence of `x` swaps with the final
/// element and the sequence shrinks by one; without `x` nothing changes.
pub open spec fn remove_id(s: Seq<u64>, x: u64) -> Seq<u64> {
    match s.index_of_first(x) {
        None => s,
        Some(i) => s.update(i, s.last()).drop_last(),
    }
}

/// No id occurs twice.
pub open spec fn no_dup(s: Seq<u64>) -> bool {
    forall|i: int, j: int| 0 <= i < j < s.len() ==> s[i] != s[j]
}

/// Well-formedness of a ledger state: minted ids are exactly those below the
/// counter and carry 16 bytes of data; only minted ids are listed; the owner
/// index and the ownership map agree, with no id indexed twice; and no
/// account's balances overflow their sum.
pub open spec fn wf(s: LedgerView) -> bool {
    &&& forall|id: u64| #[trigger] s.owner.contains_key(id) <==> id < next_of(s)
    &&& forall|id: u64| #[trigger] s.dna.contains_key(id) <==> id < next_of(s)
    &&& forall|id: u64| #[trigger] s.dna.contains_key(id) ==> s.dna[id].len() == 16
    &&& forall|id: u64| #[trigger] s.market.contains_key(id) ==> s.owner.contains_key(id)
    &&& forall|a: u64, j: int|
        #![trigger index_of(s, a)[j]]
        0 <= j < index_of(s, a).len() ==> owner_of(s, index_of(s, a)[j]) == Some(a)
    &&& forall|a: u64| #[trigger] no_dup(index_of(s, a))
    &&& forall|id: u64| #[trigger] s.owner.contains_key(id) ==> index_of(s, s.owner[id]).contains(
        id,
    )
    &&& bank_ok(s.accounts)
}

/// Transition of `create`: the caller's reservation is checked first, then
/// the id space; on success the next id is minted with data `d`, owned and
/// indexed by the caller, the hold is placed, and a creation event is logged.
pub open spec fn spec_create(s: LedgerView, who: u64, d: Seq<u8>) -> (LedgerView, Result<
    (),
    Error,
>) {
    if !can_reserve(s, who, s.fee) {
        (s, Err(Error::NoSufficientBalance))
    } else if s.next_id == Some(u64::MAX) {
        (s, Err(Error::KittiesCountOverflow))
    } else {
        let id = next_of(s);
        (
            LedgerView {
                next_id: Some((id + 1) as u64),
                dna: s.dna.insert(id, d),
                owner: s.owner.insert(id, who),
                index: s.index.insert(who, index_of(s, who).push(id)),
                accounts: bank_reserve(s.accounts, who, s.fee),
                events: s.events.push(Event::KittyCreate(who, id)),
                ..s
            },
            Ok(()),
        )
    }
}

/// Transition of `transfer`: only the owner may pass `id` on; the new owner
/// takes the hold before the old owner's is released; the index entry moves
/// by unordered removal and an append; a transfer event is logged.
pub open spec fn spec_transfer(s: LedgerView, who: u64, new_owner: u64, id: u64) -> (
    LedgerView,
    Result<(), Error>,
) {
    if owner_of(s, id) != Some(who) {
        (s, Err(Error::NotOwner))
    } else if !can_reserve(s, new_owner, s.fee) {
        (s, Err(Error::NoSufficientBalance))
    } else {
        let idx1 = s.index.insert(who, remove_id(index_of(s, who), id));
        let old_list = if idx1.contains_key(new_owner) {
            idx1[new_owner]
        } else {
            Seq::empty()
        };
        (
            LedgerView {
                owner: s.owner.insert(id, new_owner),
                index: idx1.insert(new_owner, old_list.push(id)),
                accounts: bank_unreserve(bank_reserve(s.accounts, new_owner, s.fee), who, s.fee),
                events: s.events.push(Event::KittyTransfer(who, new_owner, id)),
                ..s
            },
            Ok(()),
        )
    }
}

/// Transition of `breed`: two distinct, minted parents; the child takes the
/// next id, owned and indexed by the caller, its data mixed from the parents
/// under `sel`; no hold is placed; a creation event is logged.
pub open spec fn spec_breed(s: LedgerView, who: u64, id1: u64, id2: u64, sel: Seq<u8>) -> (
    LedgerView,
    Result<(), Error>,
) {
    if id1 == id2 {
        (s, Err(Error::SameParentIndex))
    } else if !s.dna.contains_key(id1) {
        (s, Err(Error::InvalidKittyIndex))
    } else if !s.dna.contains_key(id2) {
        (s, Err(Error::InvalidKittyIndex))
    } else if s.next_id == Some(u64::MAX) {
        (s, Err(Error::KittiesCountOverflow))
    } else {
        let id = next_of(s);
        (
            LedgerView {
                next_id: Some((id + 1) as u64),
                dna: s.dna.insert(id, mix_dna(sel, s.dna[id1], s.dna[id2])),
                owner: s.owner.insert(id, who),
                index: s.index.insert(who, index_of(s, who).push(id)),
                events: s.events.push(Event::KittyCreate(who, id)),
                ..s
            },
            Ok(()),
        )
    }
}

/// Transition of `sell_kitties`: only the owner may list, at any price —
/// price 0 is legal input and indistinguishable from "not listed".
pub open spec fn spec_sell(s: LedgerView, who: u64, id: u64, price: u128) -> (LedgerView, Result<
    (),
    Error,
>) {
    if owner_of(s, id) != Some(who) {
        (s, Err(Error::NotOwner))
    } else {
        (
            LedgerView {
                market: s.market.insert(id, price),
                events: s.events.push(Event::SellingKitty(id, price)),
                ..s
            },
            Ok(()),
        )
    }
}

/// The owner index as the executable map holds it, value by value.
pub open spec fn babies_view(m: Map<u64, Vec<u64>>) -> Map<u64, Seq<u64>> {
    m.map_values(|v: Vec<u64>| v@)
}

/// The asset data as the executable map holds it, value by value.
pub open spec fn dna_view(m: Map<u64, Kitty>) -> Map<u64, Seq<u8>> {
    m.map_values(|k: Kitty| k@)
}

/// One record of the market scan: id, owner, price, generative data.
pub open spec fn scan_record(s: LedgerView, id: u64) -> (u64, u64, u128, Seq<u8>) {
    (id, s.owner[id], s.market[id], s.dna[id])
}

/// What scanning ids `n - 1` down to `0` reports: every id with a nonzero
/// price, highest id first, with its owner, price and data.
pub open spec fn market_scan(s: LedgerView, n: int) -> Seq<(u64, u64, u128, Seq<u8>)>
    decreases n,
{
    if n <= 0 {
        Seq::empty()
    } else {
        let id = (n - 1) as u64;
        if price_of(s, id) == 0 {
            market_scan(s, n - 1)
        } else {
            seq![scan_record(s, id)] + market_scan(s, n - 1)
        }
    }
}

/// An executable report entry carries exactly the fields of a scan record.
pub open spec fn record_matches(rec: KittyInfoById<u64, u128>, t: (u64, u64, u128, Seq<u8>)) -> bool {
    &&& rec.kitty_index == t.0
    &&& rec.info.owner == t.1
    &&& rec.info.price == t.2
    &&& rec.info.kitty_dna@ == t.3
}

/// Transition of `buy_kitties`: a price of 0 means no active listing; the
/// buyer's free balance must strictly exceed the price and the payment must
/// go through with the buyer kept above the floor; then ownership and the
/// index move to the buyer, the seller's hold is released, the listing is
/// consumed, and a sale event is logged.
pub open spec fn spec_buy(s: LedgerView, who: u64, id: u64) -> (LedgerView, Result<(), Error>) {
    let price = price_of(s, id);
    if price == 0 {
        (s, Err(Error::InvalidKittyIndex))
    } else {
        let seller = s.owner[id];
        if !(free_of(s, who) > price && can_transfer_keep_alive(s.accounts, s.ed, who, seller, price)) {
            (s, Err(Error::NoSufficientBalance))
        } else {
            let idx1 = s.index.insert(seller, remove_id(index_of(s, seller), id));
            let old_list = if idx1.contains_key(who) {
                idx1[who]
            } else {
                Seq::empty()
            };
            (
                LedgerView {
                    owner: s.owner.insert(id, who),
                    index: idx1.insert(who, old_list.push(id)),
                    accounts: bank_unreserve(
                        bank_transfer(s.accounts, who, seller, price),
                        seller,
                        s.fee,
                    ),
                    market: s.market.remove(id),
                    events: s.events.push(Event::SeltKitty(id, seller, who)),
                    ..s
                },
                Ok(()),
            )
        }
    }
}

} // verus!
