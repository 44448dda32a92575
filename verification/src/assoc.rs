//! Association lists: sequences of key-value pairs, read as maps.
//!
//! Every map the protocol keeps — balance proofs, deposit and withdrawal
//! totals, reconstructed balances — is a vector of entries whose keys are
//! pairwise distinct, in insertion order. These are the spec-level readings
//! shared by all of them.

use vstd::prelude::*;

verus! {

/// Whether some entry carries the key.
pub open spec fn al_contains<K, V>(s: Seq<(K, V)>, k: K) -> bool {
    exists|i: int| 0 <= i < s.len() && s[i].0 == k
}

/// The entries read as a map, later entries shadowing earlier ones.
pub open spec fn al_map<K, V>(s: Seq<(K, V)>) -> Map<K, V>
    decreases s.len(),
{
    if s.len() == 0 {
        Map::empty()
    } else {
        al_map(s.drop_last()).insert(s.last().0, s.last().1)
    }
}

/// Keys are pairwise distinct.
pub open spec fn al_wf<K, V>(s: Seq<(K, V)>) -> bool {
    forall|i: int, j: int| 0 <= i < j < s.len() ==> s[i].0 != s[j].0
}

/// The map of an entry list has exactly the listed keys, and under distinct
/// keys each entry's value.
pub proof fn lemma_al_map_props<K, V>(s: Seq<(K, V)>)
    ensures
        forall|k: K| al_map(s).dom().contains(k) <==> al_contains(s, k),
        al_wf(s) ==> forall|i: int| 0 <= i < s.len() ==> #[trigger] al_map(s)[s[i].0] == s[i].1,
    decreases s.len(),
{
    if s.len() > 0 {
        let t = s.drop_last();
        lemma_al_map_props(t);
        assert(forall|i: int| 0 <= i < t.len() ==> #[trigger] t[i] == s[i]);
        assert forall|k: K| al_map(s).dom().contains(k) implies al_contains(s, k) by {
            if k == s.last().0 {
                assert(0 <= s.len() - 1 < s.len() && s[s.len() - 1].0 == k);
            } else {
                assert(al_map(t).dom().contains(k));
                assert(al_contains(t, k));
                let i = choose|i: int| 0 <= i < t.len() && t[i].0 == k;
                assert(0 <= i < s.len() && s[i].0 == k);
            }
        }
        assert forall|k: K| al_contains(s, k) implies al_map(s).dom().contains(k) by {
            let i = choose|i: int| 0 <= i < s.len() && s[i].0 == k;
            if i < s.len() - 1 {
                assert(0 <= i < t.len() && t[i].0 == k);
                assert(al_contains(t, k));
            }
        }
        if al_wf(s) {
            assert(al_wf(t));
            assert forall|i: int| 0 <= i < s.len() implies #[trigger] al_map(s)[s[i].0]
                == s[i].1 by {
                if i < s.len() - 1 {
                    assert(s[i].0 != s[s.len() - 1].0);
                    assert(al_map(t)[t[i].0] == t[i].1);
                }
            }
        }
    }
}

/// Replacing the value under one key rewrites exactly that key's image in the
/// map reading of the entries.
pub proof fn lemma_al_map_update<K, V>(s: Seq<(K, V)>, t: Seq<(K, V)>, i: int)
    requires
        al_wf(s),
        0 <= i < s.len(),
        t.len() == s.len(),
        forall|j: int| 0 <= j < s.len() && j != i ==> t[j] == s[j],
        t[i].0 == s[i].0,
    ensures
        al_wf(t),
        al_map(t) == al_map(s).insert(t[i].0, t[i].1),
{
    lemma_al_map_props(s);
    assert(al_wf(t)) by {
        assert forall|a: int, b: int| 0 <= a < b < t.len() implies t[a].0 != t[b].0 by {
            assert(t[a].0 == s[a].0 && t[b].0 == s[b].0);
        }
    }
    lemma_al_map_props(t);
    assert forall|k: K| #[trigger] al_map(t).dom().contains(k) <==> al_map(s).insert(
        t[i].0,
        t[i].1,
    ).dom().contains(k) by {
        assert(al_contains(t, k) <==> al_contains(s, k)) by {
            if al_contains(t, k) {
                let j = choose|j: int| 0 <= j < t.len() && t[j].0 == k;
                assert(0 <= j < s.len() && s[j].0 == k);
            }
            if al_contains(s, k) {
                let j = choose|j: int| 0 <= j < s.len() && s[j].0 == k;
                assert(0 <= j < t.len() && t[j].0 == k);
            }
        }
        assert(al_map(s).insert(t[i].0, t[i].1).dom().contains(k) <==> (k == t[i].0 || al_map(
            s,
        ).dom().contains(k)));
        if k == t[i].0 {
            assert(0 <= i < t.len() && t[i].0 == k);
            assert(al_contains(t, k));
        }
    }
    assert forall|k: K| al_map(t).dom().contains(k) implies al_map(t)[k] == al_map(s).insert(
        t[i].0,
        t[i].1,
    )[k] by {
        assert(al_contains(t, k));
        let j = choose|j: int| 0 <= j < t.len() && t[j].0 == k;
        assert(al_map(t)[t[j].0] == t[j].1);
        if t[j].0 == t[i].0 {
            assert(j == i);
        } else {
            assert(s[j].0 == k && s[j].1 == t[j].1);
            assert(al_map(s)[s[j].0] == s[j].1);
        }
    }
    assert(al_map(t) =~= al_map(s).insert(t[i].0, t[i].1));
}

/// Appending a fresh key extends the map reading by exactly that key.
pub proof fn lemma_al_map_push<K, V>(s: Seq<(K, V)>, k: K, v: V)
    requires
        !al_contains(s, k),
    ensures
        al_map(s.push((k, v))) == al_map(s).insert(k, v),
        al_wf(s) ==> al_wf(s.push((k, v))),
{
    let t = s.push((k, v));
    assert(t.drop_last() =~= s);
    if al_wf(s) {
        assert forall|a: int, b: int| 0 <= a < b < t.len() implies t[a].0 != t[b].0 by {
            if b < t.len() - 1 {
                assert(t[a] == s[a] && t[b] == s[b]);
            } else {
                assert(t[a] == s[a]);
                assert(0 <= a < s.len() && s[a].0 == t[a].0);
                if t[a].0 == k {
                    assert(al_contains(s, k));
                }
            }
        }
    }
}

} // verus!
