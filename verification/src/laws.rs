//! The laws of the ledger, proved over the transition functions: what a
//! successful mint, transfer, listing and purchase leave behind, and how
//! repeated calls behave.

use crate::dna::mix_dna;
use crate::invariants::{count_ids, lemma_count_once, lemma_no_dup_push, lemma_remove_id};
use crate::model::{
    account_in, bank_reserve, bank_transfer, free_of, index_of, market_scan, next_of, owner_of,
    price_of, remove_id, reserved_of, scan_record, spec_breed, spec_buy, spec_create, spec_sell,
    spec_transfer, wf, LedgerView,
};
use crate::types::{AccountData, Error};
use vstd::prelude::*;

verus! {

/// Law: after a successful mint by `who`, the new id appears exactly once in
/// `who`'s owner index, is owned by `who`, and `who`'s reserved balance grew
/// by the reservation fee.
pub proof fn lemma_create_law(s: LedgerView, who: u64, d: Seq<u8>)
    requires
        wf(s),
        spec_create(s, who, d).1 is Ok,
    ensures
        ({
            let t = spec_create(s, who, d).0;
            let id = next_of(s);
            &&& count_ids(index_of(t, who), id) == 1
            &&& owner_of(t, id) == Some(who)
            &&& reserved_of(t, who) == reserved_of(s, who) + s.fee
        }),
{
    let t = spec_create(s, who, d).0;
    let id = next_of(s);
    let l = index_of(s, who);
    assert(!l.contains(id)) by {
        assert forall|j: int| 0 <= j < l.len() implies l[j] != id by {
            assert(owner_of(s, l[j]) == Some(who));
        }
    }
    lemma_no_dup_push(l, id);
    assert(l.push(id)[l.len() as int] == id);
    lemma_count_once(l.push(id), id);
    assert(index_of(t, who) == l.push(id));
    if s.fee > 0 {
        assert(s.accounts.contains_key(who));
    }
}

/// Law: after a successful transfer of `id` from `who` to a distinct
/// `new_owner`, the id has left `who`'s index, appears exactly once in
/// `new_owner`'s, ownership moved, the new owner's hold is placed, the old
/// owner's released — and a repeated identical transfer fails as not-owner.
pub proof fn lemma_transfer_law(s: LedgerView, who: u64, new_owner: u64, id: u64)
    requires
        wf(s),
        who != new_owner,
        spec_transfer(s, who, new_owner, id).1 is Ok,
    ensures
        ({
            let t = spec_transfer(s, who, new_owner, id).0;
            let released = if s.fee <= reserved_of(s, who) {
                s.fee
            } else {
                reserved_of(s, who)
            };
            &&& !index_of(t, who).contains(id)
            &&& count_ids(index_of(t, new_owner), id) == 1
            &&& owner_of(t, id) == Some(new_owner)
            &&& reserved_of(t, new_owner) == reserved_of(s, new_owner) + s.fee
            &&& reserved_of(t, who) == reserved_of(s, who) - released
            &&& spec_transfer(t, who, new_owner, id).1 == Err::<(), Error>(Error::NotOwner)
        }),
{
    let t = spec_transfer(s, who, new_owner, id).0;
    let l_who = index_of(s, who);
    let l_new = index_of(s, new_owner);
    lemma_remove_id(l_who, id);
    assert(s.owner.contains_key(id) && s.owner[id] == who);
    assert(l_who.contains(id));
    assert(index_of(t, who) == remove_id(l_who, id));
    assert(index_of(t, new_owner) == l_new.push(id));
    assert(!l_new.contains(id)) by {
        assert forall|j: int| 0 <= j < l_new.len() implies l_new[j] != id by {
            assert(owner_of(s, l_new[j]) == Some(new_owner));
        }
    }
    lemma_no_dup_push(l_new, id);
    assert(l_new.push(id)[l_new.len() as int] == id);
    lemma_count_once(l_new.push(id), id);
    let m1 = bank_reserve(s.accounts, new_owner, s.fee);
    if s.fee > 0 {
        assert(s.accounts.contains_key(new_owner));
    }
    assert(account_in(m1, who) == account_in(s.accounts, who));
    assert(owner_of(t, id) == Some(new_owner));
}

/// Law: the child of a successful breeding carries exactly the bytewise mix
/// of the two parents' data under the selector — the same parents and the
/// same selector always give the same child.
pub proof fn lemma_breed_law(s: LedgerView, who: u64, id1: u64, id2: u64, sel: Seq<u8>)
    requires
        spec_breed(s, who, id1, id2, sel).1 is Ok,
    ensures
        spec_breed(s, who, id1, id2, sel).0.dna[next_of(s)] == mix_dna(sel, s.dna[id1], s.dna[id2]),
        owner_of(spec_breed(s, who, id1, id2, sel).0, next_of(s)) == Some(who),
{
}

/// Law: breeding an asset with itself fails as same-parent, whatever the
/// state, the caller, the id or the selector.
pub proof fn lemma_breed_same_parent(s: LedgerView, who: u64, id: u64, sel: Seq<u8>)
    ensures
        spec_breed(s, who, id, id, sel).1 == Err::<(), Error>(Error::SameParentIndex),
{
}

/// Law: a listing at price 0 leaves the asset indistinguishable from
/// unlisted — any purchase attempt fails as an invalid index.
pub proof fn lemma_zero_listing_law(s: LedgerView, a: u64, id: u64)
    requires
        spec_sell(s, a, id, 0).1 is Ok,
    ensures
        forall|b: u64|
            spec_buy(spec_sell(s, a, id, 0).0, b, id).1 == Err::<(), Error>(
                Error::InvalidKittyIndex,
            ),
{
    let s1 = spec_sell(s, a, id, 0).0;
    assert(price_of(s1, id) == 0);
}

/// Law: a successful listing by `a` followed by a successful purchase by a
/// distinct `b` leaves the asset owned by `b` and unlisted, pays `a` the
/// price, releases `a`'s hold — and any further purchase of the id fails as
/// an invalid index.
pub proof fn lemma_market_round_trip_law(s: LedgerView, a: u64, b: u64, id: u64, price: u128)
    requires
        wf(s),
        a != b,
        price != 0,
        spec_sell(s, a, id, price).1 is Ok,
        spec_buy(spec_sell(s, a, id, price).0, b, id).1 is Ok,
    ensures
        ({
            let t = spec_buy(spec_sell(s, a, id, price).0, b, id).0;
            let released = if s.fee <= reserved_of(s, a) {
                s.fee
            } else {
                reserved_of(s, a)
            };
            &&& owner_of(t, id) == Some(b)
            &&& price_of(t, id) == 0
            &&& reserved_of(t, a) == reserved_of(s, a) - released
            &&& free_of(t, a) == free_of(s, a) + price + released
            &&& forall|c: u64|
                spec_buy(t, c, id).1 == Err::<(), Error>(Error::InvalidKittyIndex)
        }),
{
    let s1 = spec_sell(s, a, id, price).0;
    let t = spec_buy(s1, b, id).0;
    assert(owner_of(s, id) == Some(a));
    assert(price_of(s1, id) == price);
    assert(s1.owner == s.owner && s1.accounts == s.accounts && s1.ed == s.ed && s1.fee == s.fee);
    let m1 = bank_transfer(s1.accounts, b, a, price);
    let fa = account_in(s.accounts, a);
    assert(fa.free + price + fa.reserved <= u128::MAX);
    assert(account_in(m1, a) == (AccountData {
        free: (fa.free + price) as u128,
        reserved: fa.reserved,
    }));
    assert(price_of(t, id) == 0);
}

/// Some entry of a scan reports `id`.
pub open spec fn scan_has(scan: Seq<(u64, u64, u128, Seq<u8>)>, id: u64) -> bool {
    exists|j: int| 0 <= j < scan.len() && (#[trigger] scan[j]).0 == id
}

/// Law: the market scan over ids below `n` reports exactly the listed ids —
/// every entry is a listed id below `n` with its true owner, price and data,
/// ids strictly descend, and no listed id below `n` is missed.
pub proof fn lemma_market_scan_law(s: LedgerView, n: int)
    requires
        0 <= n <= u64::MAX as int + 1,
    ensures
        ({
            let scan = market_scan(s, n);
            &&& forall|j: int|
                0 <= j < scan.len() ==> ((#[trigger] scan[j]).0 < n && price_of(s, scan[j].0) != 0
                    && scan[j] == scan_record(s, scan[j].0))
            &&& forall|j1: int, j2: int|
                0 <= j1 < j2 < scan.len() ==> (#[trigger] scan[j1]).0 > (#[trigger] scan[j2]).0
            &&& forall|id: u64|
                id < n && #[trigger] price_of(s, id) != 0 ==> scan_has(scan, id)
        }),
    decreases n,
{
    if n > 0 {
        lemma_market_scan_law(s, n - 1);
        let id0 = (n - 1) as u64;
        let rest = market_scan(s, n - 1);
        let scan = market_scan(s, n);
        if price_of(s, id0) == 0 {
            assert forall|id: u64| id < n && #[trigger] price_of(s, id) != 0 implies scan_has(
                scan,
                id,
            ) by {
                assert(id != id0);
                assert(scan_has(rest, id));
            }
        } else {
            assert(scan == seq![scan_record(s, id0)] + rest);
            assert(scan[0] == scan_record(s, id0));
            assert(forall|j: int| 1 <= j < scan.len() ==> scan[j] == rest[j - 1]);
            assert forall|j: int|
                0 <= j < scan.len() implies ((#[trigger] scan[j]).0 < n && price_of(
                s,
                scan[j].0,
            ) != 0 && scan[j] == scan_record(s, scan[j].0)) by {
                if j > 0 {
                    assert(scan[j] == rest[j - 1]);
                }
            }
            assert forall|j1: int, j2: int|
                0 <= j1 < j2 < scan.len() implies (#[trigger] scan[j1]).0 > (
            #[trigger] scan[j2]).0 by {
                if j1 == 0 {
                    assert(scan[j2] == rest[j2 - 1]);
                    assert(rest[j2 - 1].0 < n - 1);
                } else {
                    assert(scan[j1] == rest[j1 - 1] && scan[j2] == rest[j2 - 1]);
                }
            }
            assert forall|id: u64| id < n && #[trigger] price_of(s, id) != 0 implies scan_has(
                scan,
                id,
            ) by {
                if id == id0 {
                    assert(scan[0].0 == id);
                } else {
                    assert(scan_has(rest, id));
                    let j = choose|j: int| 0 <= j < rest.len() && (#[trigger] rest[j]).0 == id;
                    assert(scan[j + 1].0 == id);
                }
            }
        }
    }
}

} // verus!
