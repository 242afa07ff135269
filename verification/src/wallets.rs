//! The watch list: adding and removing wallets by their lower-cased address.

use vstd::prelude::*;

use crate::text::{lowercase_spec, str_to_lowercase};

verus! {

/// `ws` with `w` appended unless it is already there.
pub open spec fn with_wallet(ws: Seq<Seq<char>>, w: Seq<char>) -> Seq<Seq<char>> {
    if ws.contains(w) {
        ws
    } else {
        ws.push(w)
    }
}

/// `ws` without any entry equal to `w`, the others kept in order.
pub open spec fn without_wallet(ws: Seq<Seq<char>>, w: Seq<char>) -> Seq<Seq<char>>
    decreases ws.len(),
{
    if ws.len() == 0 {
        ws
    } else {
        let rest = without_wallet(ws.drop_last(), w);
        if ws.last() == w {
            rest
        } else {
            rest.push(ws.last())
        }
    }
}

/// Is `w` an entry of `ws`?
fn contains_wallet(ws: &Vec<String>, w: &String) -> (b: bool)
    ensures
        b == ws.deep_view().contains(w@),
{
    let n = ws.len();
    let mut i: usize = 0;
    while i < n
        invariant
            n == ws@.len(),
            i <= n,
            forall|j: int| 0 <= j < i ==> ws@[j]@ != w@,
        decreases n - i,
    {
        if ws[i] == *w {
            assert(ws.deep_view()[i as int] == w@);
            return true;
        }
        i = i + 1;
    }
    assert forall|j: int| 0 <= j < ws.deep_view().len() implies ws.deep_view()[j] != w@ by {
        assert(ws.deep_view()[j] == ws@[j]@);
    }
    false
}

/// Add `wallet` (lower-cased) to the watch list unless it is already there,
/// and return the updated list.
pub fn add_wallet(watch_wallets: Vec<String>, wallet: &str) -> (r: Vec<String>)
    ensures
        r.deep_view() == with_wallet(watch_wallets.deep_view(), lowercase_spec(wallet@)),
{
    let wallet = str_to_lowercase(wallet);
    let mut watch_wallets = watch_wallets;
    let ghost before = watch_wallets.deep_view();
    let ghost lw = wallet@;
    if !contains_wallet(&watch_wallets, &wallet) {
        watch_wallets.push(wallet);
        assert(watch_wallets.deep_view() =~= before.push(lw));
    }
    watch_wallets
}

/// Remove every entry equal to `wallet` (lower-cased) from the watch list,
/// and return the updated list.
pub fn remove_wallet(watch_wallets: Vec<String>, wallet: &str) -> (r: Vec<String>)
    ensures
        r.deep_view() == without_wallet(watch_wallets.deep_view(), lowercase_spec(wallet@)),
{
    let wallet = str_to_lowercase(wallet);
    let ghost w = wallet@;
    let ghost all = watch_wallets.deep_view();
    let n = watch_wallets.len();
    let mut kept: Vec<String> = Vec::new();
    let mut i: usize = 0;
    assert(all.take(0) =~= Seq::<Seq<char>>::empty());
    while i < n
        invariant
            n == watch_wallets@.len(),
            all == watch_wallets.deep_view(),
            w == wallet@,
            i <= n,
            kept.deep_view() == without_wallet(all.take(i as int), w),
        decreases n - i,
    {
        let ghost before = kept.deep_view();
        assert(all.take(i + 1).drop_last() =~= all.take(i as int));
        assert(all.take(i + 1).last() == watch_wallets@[i as int]@);
        if !(watch_wallets[i] == wallet) {
            kept.push(watch_wallets[i].clone());
            assert(kept.deep_view() =~= before.push(watch_wallets@[i as int]@));
        }
        i = i + 1;
    }
    assert(all.take(n as int) =~= all);
    kept
}

/// Law: after a wallet is added, the watch list holds it.
pub proof fn law_added_wallet_is_watched(ws: Seq<Seq<char>>, w: Seq<char>)
    ensures
        with_wallet(ws, w).contains(w),
{
    if !ws.contains(w) {
        assert(ws.push(w)[ws.len() as int] == w);
    }
}

/// Law: adding a wallet that is already watched changes nothing, so adding
/// the same wallet twice is adding it once.
pub proof fn law_add_wallet_idempotent(ws: Seq<Seq<char>>, w: Seq<char>)
    ensures
        with_wallet(with_wallet(ws, w), w) == with_wallet(ws, w),
{
    law_added_wallet_is_watched(ws, w);
}

/// Law: adding keeps every wallet already watched, in place and in order.
pub proof fn law_add_wallet_keeps_list(ws: Seq<Seq<char>>, w: Seq<char>)
    ensures
        with_wallet(ws, w).len() <= ws.len() + 1,
        with_wallet(ws, w).take(ws.len() as int) == ws,
{
    assert(with_wallet(ws, w).take(ws.len() as int) =~= ws);
}

/// Law: a watch list without duplicates stays without duplicates when a
/// wallet is added.
pub proof fn law_add_wallet_keeps_distinct(ws: Seq<Seq<char>>, w: Seq<char>)
    requires
        ws.no_duplicates(),
    ensures
        with_wallet(ws, w).no_duplicates(),
{
    if !ws.contains(w) {
        let r = ws.push(w);
        assert forall|i: int, j: int| 0 <= i < r.len() && 0 <= j < r.len() && i != j implies r[i]
            != r[j] by {
            if i == ws.len() {
                assert(r[j] == ws[j]);
            } else if j == ws.len() {
                assert(r[i] == ws[i]);
            } else {
                assert(r[i] == ws[i] && r[j] == ws[j]);
            }
        }
    }
}

/// Law: after a wallet is removed, no entry equals it, and every other
/// wallet is watched exactly when it was watched before.
pub proof fn law_removed_wallet_is_gone(ws: Seq<Seq<char>>, w: Seq<char>, v: Seq<char>)
    ensures
        !without_wallet(ws, w).contains(w),
        v != w ==> (without_wallet(ws, w).contains(v) <==> ws.contains(v)),
    decreases ws.len(),
{
    if ws.len() > 0 {
        let init = ws.drop_last();
        let l = ws.last();
        law_removed_wallet_is_gone(init, w, v);
        let rest = without_wallet(init, w);
        assert(ws =~= init.push(l));
        if l != w {
            let r = rest.push(l);
            assert(r[rest.len() as int] == l);
            assert forall|x: Seq<char>| r.contains(x) <==> (rest.contains(x) || x == l) by {
                if r.contains(x) {
                    let k = choose|k: int| 0 <= k < r.len() && r[k] == x;
                    if k < rest.len() {
                        assert(rest[k] == x);
                    }
                }
                if rest.contains(x) {
                    let k = choose|k: int| 0 <= k < rest.len() && rest[k] == x;
                    assert(r[k] == x);
                }
            }
        }
        assert forall|x: Seq<char>| ws.contains(x) <==> (init.contains(x) || x == l) by {
            if ws.contains(x) {
                let k = choose|k: int| 0 <= k < ws.len() && ws[k] == x;
                if k < init.len() {
                    assert(init[k] == x);
                }
            }
            if init.contains(x) {
                let k = choose|k: int| 0 <= k < init.len() && init[k] == x;
                assert(ws[k] == x);
            }
            if x == l {
                assert(ws[ws.len() - 1] == x);
            }
        }
    }
}

/// Law: removing a wallet twice is removing it once.
pub proof fn law_remove_wallet_idempotent(ws: Seq<Seq<char>>, w: Seq<char>)
    ensures
        without_wallet(without_wallet(ws, w), w) == without_wallet(ws, w),
    decreases ws.len(),
{
    if ws.len() > 0 {
        let rest = without_wallet(ws.drop_last(), w);
        law_remove_wallet_idempotent(ws.drop_last(), w);
        if ws.last() != w {
            let r = rest.push(ws.last());
            assert(r.drop_last() =~= rest);
            assert(r.last() == ws.last());
        }
    }
}

/// Law: removing a wallet right after adding it leaves the list as removing
/// it alone would.
pub proof fn law_remove_after_add(ws: Seq<Seq<char>>, w: Seq<char>)
    ensures
        without_wallet(with_wallet(ws, w), w) == without_wallet(ws, w),
{
    if !ws.contains(w) {
        let r = ws.push(w);
        assert(r.drop_last() =~= ws);
        assert(r.last() == w);
    }
}

/// Law: removing a wallet keeps exactly the entries that differ from it, each
/// as often as before and in the same order (the list filtered by `!= w`).
pub proof fn law_remove_wallet_keeps_others(ws: Seq<Seq<char>>, w: Seq<char>)
    ensures
        without_wallet(ws, w) == ws.filter(|x: Seq<char>| x != w),
    decreases ws.len(),
{
    reveal(Seq::filter);
    if ws.len() > 0 {
        law_remove_wallet_keeps_others(ws.drop_last(), w);
    }
}

/// Law: removing a wallet drops exactly as many entries as are equal to it:
/// the result is `ws` minus the entries equal to `w`, so it is shorter by
/// that number, and a list without `w` comes back unchanged.
pub proof fn law_remove_wallet_length(ws: Seq<Seq<char>>, w: Seq<char>)
    ensures
        without_wallet(ws, w).len() + ws.filter(|x: Seq<char>| x == w).len() == ws.len(),
        !ws.contains(w) ==> without_wallet(ws, w) == ws,
    decreases ws.len(),
{
    reveal(Seq::filter);
    if ws.len() > 0 {
        law_remove_wallet_length(ws.drop_last(), w);
        if !ws.contains(w) {
            assert(!ws.drop_last().contains(w)) by {
                if ws.drop_last().contains(w) {
                    let k = choose|k: int| 0 <= k < ws.drop_last().len() && ws.drop_last()[k] == w;
                    assert(ws[k] == w);
                }
            }
            assert(ws[ws.len() - 1] != w);
            assert(ws.drop_last().push(ws.last()) =~= ws);
        }
    } else {
        assert(ws.filter(|x: Seq<char>| x == w) =~= ws);
    }
}

} // verus!
