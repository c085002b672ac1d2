//! Proofs that every transition keeps a well-formed ledger well-formed, and
//! the sequence facts about unordered removal that those proofs rest on.

use crate::model::{
    account_in, bank_ok, bank_reserve, bank_transfer, bank_unreserve, index_of, next_of, no_dup,
    owner_of, remove_id, spec_breed, spec_buy, spec_create, spec_sell, spec_transfer, wf,
    LedgerView,
};
use crate::types::AccountData;
use vstd::prelude::*;

verus! {

/// How often `x` occurs in `s`.
pub open spec fn count_ids(s: Seq<u64>, x: u64) -> nat
    decreases s.len(),
{
    if s.len() == 0 {
        0
    } else {
        count_ids(s.drop_last(), x) + (if s.last() == x {
            1nat
        } else {
            0nat
        })
    }
}

/// An id that is absent occurs zero times.
pub proof fn lemma_count_absent(s: Seq<u64>, x: u64)
    requires
        !s.contains(x),
    ensures
        count_ids(s, x) == 0,
    decreases s.len(),
{
    if s.len() > 0 {
        assert(!s.drop_last().contains(x)) by {
            assert forall|j: int| 0 <= j < s.drop_last().len() implies s.drop_last()[j] != x by {
                assert(s.drop_last()[j] == s[j]);
            }
        }
        lemma_count_absent(s.drop_last(), x);
        assert(s.last() != x);
    }
}

/// In a duplicate-free sequence, a present id occurs exactly once.
pub proof fn lemma_count_once(s: Seq<u64>, x: u64)
    requires
        no_dup(s),
        s.contains(x),
    ensures
        count_ids(s, x) == 1,
    decreases s.len(),
{
    let last = s.len() - 1;
    if s.last() == x {
        assert(!s.drop_last().contains(x)) by {
            assert forall|j: int| 0 <= j < s.drop_last().len() implies s.drop_last()[j] != x by {
                assert(s[j] != s[last]);
            }
        }
        lemma_count_absent(s.drop_last(), x);
    } else {
        let k = choose|k: int| 0 <= k < s.len() && s[k] == x;
        assert(s.drop_last()[k] == x);
        assert(no_dup(s.drop_last())) by {
            assert forall|i: int, j: int|
                0 <= i < j < s.drop_last().len() implies s.drop_last()[i] != s.drop_last()[j] by {
                assert(s[i] != s[j]);
            }
        }
        lemma_count_once(s.drop_last(), x);
    }
}

/// What an unordered removal does to a duplicate-free sequence: the one
/// occurrence of `x` goes away and every other id stays, still without
/// duplicates.
pub proof fn lemma_remove_id(s: Seq<u64>, x: u64)
    requires
        no_dup(s),
    ensures
        !s.contains(x) ==> remove_id(s, x) == s,
        s.contains(x) ==> remove_id(s, x).len() == s.len() - 1,
        s.contains(x) ==> !remove_id(s, x).contains(x),
        no_dup(remove_id(s, x)),
        forall|y: u64| y != x ==> (remove_id(s, x).contains(y) <==> s.contains(y)),
        forall|j: int|
            0 <= j < remove_id(s, x).len() ==> s.contains(#[trigger] remove_id(s, x)[j]),
{
    s.index_of_first_ensures(x);
    if s.contains(x) {
        let i = s.index_of_first(x).unwrap();
        let r = remove_id(s, x);
        let last = s.len() - 1;
        assert(forall|j: int| 0 <= j < r.len() ==> r[j] == (if j == i {
            s[last]
        } else {
            s[j]
        }));
        assert(!r.contains(x)) by {
            assert forall|j: int| 0 <= j < r.len() implies r[j] != x by {
                if j == i {
                    if i < last {
                        assert(s[last] != s[i]);
                    }
                } else {
                    assert(s[j] != s[i]);
                }
            }
        }
        assert(no_dup(r)) by {
            assert forall|j1: int, j2: int| 0 <= j1 < j2 < r.len() implies r[j1] != r[j2] by {
                let k1: int = if j1 == i {
                    last
                } else {
                    j1
                };
                let k2: int = if j2 == i {
                    last
                } else {
                    j2
                };
                assert(r[j1] == s[k1] && r[j2] == s[k2] && k1 != k2);
            }
        }
        assert forall|y: u64| y != x implies (r.contains(y) <==> s.contains(y)) by {
            if r.contains(y) {
                let j = choose|j: int| 0 <= j < r.len() && r[j] == y;
                if j == i {
                    assert(s[last] == y);
                } else {
                    assert(s[j] == y);
                }
            }
            if s.contains(y) {
                let k = choose|k: int| 0 <= k < s.len() && s[k] == y;
                if k == last {
                    if i < last {
                        assert(r[i] == y);
                    } else {
                        assert(s[i] == x && s[last] == y);
                    }
                } else {
                    assert(r[k] == y);
                }
            }
        }
    }
}

/// A duplicate-free sequence stays duplicate-free when a fresh id is pushed.
pub proof fn lemma_no_dup_push(s: Seq<u64>, x: u64)
    requires
        no_dup(s),
        !s.contains(x),
    ensures
        no_dup(s.push(x)),
{
    let p = s.push(x);
    assert forall|i: int, j: int| 0 <= i < j < p.len() implies p[i] != p[j] by {
        if j == s.len() {
            assert(p[i] == s[i] && s.contains(s[i]));
        } else {
            assert(p[i] == s[i] && p[j] == s[j]);
        }
    }
}

/// Pushing keeps every id that was already there.
pub proof fn lemma_push_contains(s: Seq<u64>, x: u64, y: u64)
    requires
        s.contains(y),
    ensures
        s.push(x).contains(y),
{
    let j = choose|j: int| 0 <= j < s.len() && s[j] == y;
    assert(s.push(x)[j] == y);
}

/// Placing a coverable hold keeps every account's balances within bounds.
pub proof fn lemma_bank_reserve_ok(m: Map<u64, AccountData>, a: u64, v: u128)
    requires
        bank_ok(m),
        v == 0 || account_in(m, a).free >= v,
    ensures
        bank_ok(bank_reserve(m, a, v)),
{
    if v != 0 {
        let acct = account_in(m, a);
        assert(m.contains_key(a));
    }
}

/// Releasing a hold keeps every account's balances within bounds.
pub proof fn lemma_bank_unreserve_ok(m: Map<u64, AccountData>, a: u64, v: u128)
    requires
        bank_ok(m),
    ensures
        bank_ok(bank_unreserve(m, a, v)),
{
}

/// A payment whose recipient's new total still fits keeps all balances within
/// bounds.
pub proof fn lemma_bank_transfer_ok(m: Map<u64, AccountData>, from: u64, to: u64, v: u128)
    requires
        bank_ok(m),
        v == 0 || from == to || (account_in(m, from).free >= v && account_in(m, to).free + v
            + account_in(m, to).reserved <= u128::MAX),
    ensures
        bank_ok(bank_transfer(m, from, to, v)),
{
}

/// Well-formedness carries over to a state that differs only in its
/// accounts, as long as those stay within bounds.
pub proof fn lemma_wf_same_ledger(s: LedgerView, t: LedgerView)
    requires
        wf(s),
        t.next_id == s.next_id,
        t.dna == s.dna,
        t.owner == s.owner,
        t.market == s.market,
        t.index == s.index,
        bank_ok(t.accounts),
    ensures
        wf(t),
{
    assert forall|a: u64, j: int|
        0 <= j < index_of(t, a).len() implies owner_of(t, index_of(t, a)[j]) == Some(a) by {
        assert(index_of(t, a) == index_of(s, a));
        assert(owner_of(s, index_of(s, a)[j]) == Some(a));
    }
    assert forall|a: u64| no_dup(index_of(t, a)) by {
        assert(index_of(t, a) == index_of(s, a));
        assert(no_dup(index_of(s, a)));
    }
    assert forall|id: u64| #[trigger] t.owner.contains_key(id) implies index_of(
        t,
        t.owner[id],
    ).contains(id) by {
        assert(index_of(t, t.owner[id]) == index_of(s, s.owner[id]));
    }
}

/// A successful mint leaves the ledger well-formed.
pub proof fn lemma_create_wf(s: LedgerView, who: u64, d: Seq<u8>)
    requires
        wf(s),
        d.len() == 16,
    ensures
        wf(spec_create(s, who, d).0),
{
    let (t, r) = spec_create(s, who, d);
    if r is Ok {
        let id = next_of(s);
        assert forall|a: u64, j: int|
            0 <= j < index_of(t, a).len() implies owner_of(t, index_of(t, a)[j]) == Some(a) by {
            if a == who && j == index_of(s, who).len() {
                assert(index_of(t, a)[j] == id);
            } else {
                let e = index_of(s, a)[j];
                assert(owner_of(s, e) == Some(a));
                assert(s.owner.contains_key(e));
                assert(index_of(t, a)[j] == e);
            }
        }
        assert forall|a: u64| no_dup(index_of(t, a)) by {
            if a == who {
                let l = index_of(s, who);
                assert(!l.contains(id)) by {
                    assert forall|j: int| 0 <= j < l.len() implies l[j] != id by {
                        assert(owner_of(s, l[j]) == Some(who));
                    }
                }
                lemma_no_dup_push(l, id);
            } else {
                assert(no_dup(index_of(s, a)));
                assert(index_of(t, a) == index_of(s, a));
            }
        }
        assert forall|e: u64| t.owner.contains_key(e) implies index_of(t, t.owner[e]).contains(
            e,
        ) by {
            if e == id {
                let l = index_of(t, who);
                assert(l[l.len() - 1] == id);
            } else {
                let a = s.owner[e];
                assert(index_of(s, a).contains(e));
                if a == who {
                    lemma_push_contains(index_of(s, who), id, e);
                } else {
                    assert(index_of(t, a) == index_of(s, a));
                }
            }
        }
        lemma_bank_reserve_ok(s.accounts, who, s.fee);
    }
}

/// A successful breeding leaves the ledger well-formed.
pub proof fn lemma_breed_wf(s: LedgerView, who: u64, id1: u64, id2: u64, sel: Seq<u8>)
    requires
        wf(s),
    ensures
        wf(spec_breed(s, who, id1, id2, sel).0),
{
    let (t, r) = spec_breed(s, who, id1, id2, sel);
    if r is Ok {
        let id = next_of(s);
        assert forall|a: u64, j: int|
            0 <= j < index_of(t, a).len() implies owner_of(t, index_of(t, a)[j]) == Some(a) by {
            if a == who && j == index_of(s, who).len() {
                assert(index_of(t, a)[j] == id);
            } else {
                let e = index_of(s, a)[j];
                assert(owner_of(s, e) == Some(a));
                assert(s.owner.contains_key(e));
                assert(index_of(t, a)[j] == e);
            }
        }
        assert forall|a: u64| no_dup(index_of(t, a)) by {
            if a == who {
                let l = index_of(s, who);
                assert(!l.contains(id)) by {
                    assert forall|j: int| 0 <= j < l.len() implies l[j] != id by {
                        assert(owner_of(s, l[j]) == Some(who));
                    }
                }
                lemma_no_dup_push(l, id);
            } else {
                assert(no_dup(index_of(s, a)));
                assert(index_of(t, a) == index_of(s, a));
            }
        }
        assert forall|e: u64| t.owner.contains_key(e) implies index_of(t, t.owner[e]).contains(
            e,
        ) by {
            if e == id {
                let l = index_of(t, who);
                assert(l[l.len() - 1] == id);
            } else {
                let a = s.owner[e];
                assert(index_of(s, a).contains(e));
                if a == who {
                    lemma_push_contains(index_of(s, who), id, e);
                } else {
                    assert(index_of(t, a) == index_of(s, a));
                }
            }
        }
    }
}

/// A successful listing leaves the ledger well-formed.
pub proof fn lemma_sell_wf(s: LedgerView, who: u64, id: u64, price: u128)
    requires
        wf(s),
    ensures
        wf(spec_sell(s, who, id, price).0),
{
    let (t, r) = spec_sell(s, who, id, price);
    if r is Ok {
        assert(s.owner.contains_key(id));
        assert forall|i: u64| #[trigger] t.market.contains_key(i) implies t.owner.contains_key(
            i,
        ) by {
            if i != id {
                assert(s.market.contains_key(i));
            }
        }
        assert(forall|a: u64| index_of(t, a) == index_of(s, a));
        assert forall|a: u64| no_dup(index_of(t, a)) by {
            assert(no_dup(index_of(s, a)));
        }
    }
}

/// A successful ownership transfer leaves the ledger well-formed.
pub proof fn lemma_transfer_wf(s: LedgerView, who: u64, new_owner: u64, id: u64)
    requires
        wf(s),
    ensures
        wf(spec_transfer(s, who, new_owner, id).0),
{
    let (t, r) = spec_transfer(s, who, new_owner, id);
    if r is Ok {
        let l_who = index_of(s, who);
        lemma_remove_id(l_who, id);
        let l1 = remove_id(l_who, id);
        assert(s.owner.contains_key(id) && s.owner[id] == who);
        assert(l_who.contains(id));
        let l2 = if new_owner == who {
            l1
        } else {
            index_of(s, new_owner)
        };
        assert(index_of(t, new_owner) == l2.push(id));
        assert(!l2.contains(id)) by {
            if new_owner != who {
                assert forall|j: int| 0 <= j < l2.len() implies l2[j] != id by {
                    assert(owner_of(s, l2[j]) == Some(new_owner));
                }
            }
        }
        assert forall|a: u64, j: int|
            0 <= j < index_of(t, a).len() implies owner_of(t, index_of(t, a)[j]) == Some(a) by {
            if a == new_owner {
                let l = l2.push(id);
                if j == l2.len() {
                    assert(l[j] == id);
                } else {
                    let e = l2[j];
                    assert(e != id);
                    if new_owner == who {
                        assert(l_who.contains(e));
                        let k = choose|k: int| 0 <= k < l_who.len() && l_who[k] == e;
                        assert(owner_of(s, l_who[k]) == Some(who));
                    } else {
                        assert(owner_of(s, e) == Some(new_owner));
                    }
                }
            } else if a == who {
                let e = index_of(t, a)[j];
                assert(e == l1[j]);
                assert(l_who.contains(e));
                let k = choose|k: int| 0 <= k < l_who.len() && l_who[k] == e;
                assert(owner_of(s, l_who[k]) == Some(who));
                assert(e != id);
            } else {
                let e = index_of(s, a)[j];
                assert(owner_of(s, e) == Some(a));
                assert(index_of(t, a)[j] == e);
            }
        }
        assert forall|a: u64| no_dup(index_of(t, a)) by {
            if a == new_owner {
                assert(no_dup(l2)) by {
                    assert(no_dup(index_of(s, new_owner)));
                }
                lemma_no_dup_push(l2, id);
            } else if a == who {
                assert(index_of(t, a) == l1);
            } else {
                assert(no_dup(index_of(s, a)));
                assert(index_of(t, a) == index_of(s, a));
            }
        }
        assert forall|e: u64| t.owner.contains_key(e) implies index_of(t, t.owner[e]).contains(
            e,
        ) by {
            if e == id {
                let l = index_of(t, new_owner);
                assert(l[l.len() - 1] == id);
            } else {
                assert(s.owner.contains_key(e));
                let a = s.owner[e];
                assert(index_of(s, a).contains(e));
                if a == who {
                    assert(l1.contains(e));
                    if new_owner == who {
                        lemma_push_contains(l1, id, e);
                    } else {
                        assert(index_of(t, a) == l1);
                    }
                } else if a == new_owner {
                    lemma_push_contains(l2, id, e);
                } else {
                    assert(index_of(t, a) == index_of(s, a));
                }
            }
        }
        lemma_bank_reserve_ok(s.accounts, new_owner, s.fee);
        lemma_bank_unreserve_ok(bank_reserve(s.accounts, new_owner, s.fee), who, s.fee);
    }
}

/// A successful purchase leaves the ledger well-formed.
pub proof fn lemma_buy_wf(s: LedgerView, who: u64, id: u64)
    requires
        wf(s),
    ensures
        wf(spec_buy(s, who, id).0),
{
    let (t, r) = spec_buy(s, who, id);
    if r is Ok {
        assert(s.market.contains_key(id));
        assert(s.owner.contains_key(id));
        let seller = s.owner[id];
        let price = s.market[id];
        let l_seller = index_of(s, seller);
        lemma_remove_id(l_seller, id);
        let l1 = remove_id(l_seller, id);
        assert(l_seller.contains(id));
        let l2 = if who == seller {
            l1
        } else {
            index_of(s, who)
        };
        assert(index_of(t, who) == l2.push(id));
        assert(!l2.contains(id)) by {
            if who != seller {
                assert forall|j: int| 0 <= j < l2.len() implies l2[j] != id by {
                    assert(owner_of(s, l2[j]) == Some(who));
                }
            }
        }
        assert forall|a: u64, j: int|
            0 <= j < index_of(t, a).len() implies owner_of(t, index_of(t, a)[j]) == Some(a) by {
            if a == who {
                let l = l2.push(id);
                if j == l2.len() {
                    assert(l[j] == id);
                } else {
                    let e = l2[j];
                    assert(e != id);
                    if who == seller {
                        assert(l_seller.contains(e));
                        let k = choose|k: int| 0 <= k < l_seller.len() && l_seller[k] == e;
                        assert(owner_of(s, l_seller[k]) == Some(seller));
                    } else {
                        assert(owner_of(s, e) == Some(who));
                    }
                }
            } else if a == seller {
                let e = index_of(t, a)[j];
                assert(e == l1[j]);
                assert(l_seller.contains(e));
                let k = choose|k: int| 0 <= k < l_seller.len() && l_seller[k] == e;
                assert(owner_of(s, l_seller[k]) == Some(seller));
                assert(e != id);
            } else {
                let e = index_of(s, a)[j];
                assert(owner_of(s, e) == Some(a));
                assert(index_of(t, a)[j] == e);
            }
        }
        assert forall|a: u64| no_dup(index_of(t, a)) by {
            if a == who {
                assert(no_dup(l2)) by {
                    assert(no_dup(index_of(s, who)));
                }
                lemma_no_dup_push(l2, id);
            } else if a == seller {
                assert(index_of(t, a) == l1);
            } else {
                assert(no_dup(index_of(s, a)));
                assert(index_of(t, a) == index_of(s, a));
            }
        }
        assert forall|e: u64| t.owner.contains_key(e) implies index_of(t, t.owner[e]).contains(
            e,
        ) by {
            if e == id {
                let l = index_of(t, who);
                assert(l[l.len() - 1] == id);
            } else {
                assert(s.owner.contains_key(e));
                let a = s.owner[e];
                assert(index_of(s, a).contains(e));
                if a == seller {
                    assert(l1.contains(e));
                    if who == seller {
                        lemma_push_contains(l1, id, e);
                    } else {
                        assert(index_of(t, a) == l1);
                    }
                } else if a == who {
                    lemma_push_contains(l2, id, e);
                } else {
                    assert(index_of(t, a) == index_of(s, a));
                }
            }
        }
        assert forall|i: u64| #[trigger] t.market.contains_key(i) implies t.owner.contains_key(
            i,
        ) by {
            assert(s.market.contains_key(i));
        }
        lemma_bank_transfer_ok(s.accounts, who, seller, price);
        lemma_bank_unreserve_ok(bank_transfer(s.accounts, who, seller, price), seller, s.fee);
    }
}

} // verus!
