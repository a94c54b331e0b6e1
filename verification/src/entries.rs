//! The entry-sequence model of a context.
//!
//! A context stores its data as a vector of key-value entries whose keys are
//! strictly ascending in the order of [`key_lt`].  The mapping denoted by
//! such a sequence is [`kv_map`]; when one key occurs several times, the
//! later entry wins, so a sequence read left to right behaves like a series
//! of inserts.

use vstd::prelude::*;

use crate::keyorder::key_cmp;
use crate::keyorder::key_lt;
use crate::keyorder::lemma_key_lt_asymmetric;
use crate::keyorder::lemma_key_lt_transitive;
use crate::value::entries_of;
use crate::value::lemma_entries_of;
use crate::value::DynamicValue;
use crate::value::Val;

verus! {

broadcast use vstd::std_specs::vec::group_vec_axioms, vstd::seq::group_seq_axioms;

/// The keys of the entries are strictly ascending: sorted, with no repeats.
pub open spec fn sorted_strict(es: Seq<(Seq<char>, Val)>) -> bool {
    forall|i: int, j: int| 0 <= i < j < es.len() ==> key_lt(es[i].0, es[j].0)
}

/// Some entry carries the key `k`.
pub open spec fn has_key(es: Seq<(Seq<char>, Val)>, k: Seq<char>) -> bool {
    exists|i: int| 0 <= i < es.len() && es[i].0 == k
}

/// The mapping denoted by a sequence of entries; a later entry wins.
pub open spec fn kv_map(es: Seq<(Seq<char>, Val)>) -> Map<Seq<char>, Val>
    decreases es,
{
    if es.len() == 0 {
        Map::empty()
    } else {
        kv_map(es.drop_last()).insert(es.last().0, es.last().1)
    }
}

/// A key is in the mapping exactly when some entry carries it.
pub proof fn lemma_kv_map_domain(es: Seq<(Seq<char>, Val)>, k: Seq<char>)
    ensures
        kv_map(es).contains_key(k) <==> has_key(es, k),
    decreases es.len(),
{
    if es.len() > 0 {
        lemma_kv_map_domain(es.drop_last(), k);
        if k == es.last().0 {
            assert(es[es.len() - 1].0 == k);
        } else {
            if has_key(es, k) {
                let i = choose|i: int| 0 <= i < es.len() && es[i].0 == k;
                assert(i < es.len() - 1);
                assert(es.drop_last()[i].0 == k);
            }
            if has_key(es.drop_last(), k) {
                let i = choose|i: int| 0 <= i < es.drop_last().len() && es.drop_last()[i].0 == k;
                assert(es[i].0 == k);
            }
        }
    }
}

/// With pairwise distinct keys, each entry is what the mapping holds at its key.
pub proof fn lemma_kv_map_get(es: Seq<(Seq<char>, Val)>, i: int)
    requires
        forall|p: int, q: int| 0 <= p < q < es.len() ==> es[p].0 != es[q].0,
        0 <= i < es.len(),
    ensures
        kv_map(es).contains_key(es[i].0),
        kv_map(es)[es[i].0] == es[i].1,
    decreases es.len(),
{
    if i == es.len() - 1 {
    } else {
        assert(es.drop_last()[i] == es[i]);
        lemma_kv_map_get(es.drop_last(), i);
        assert(es[i].0 != es.last().0);
    }
}

/// Sorted keys are pairwise distinct.
pub proof fn lemma_sorted_distinct(es: Seq<(Seq<char>, Val)>)
    requires
        sorted_strict(es),
    ensures
        forall|p: int, q: int| 0 <= p < q < es.len() ==> es[p].0 != es[q].0,
{
    assert forall|p: int, q: int| 0 <= p < q < es.len() implies es[p].0 != es[q].0 by {
        lemma_key_lt_asymmetric(es[p].0, es[q].0);
    }
}

/// Replacing the value of the entry at `i` updates the mapping at its key.
pub proof fn lemma_kv_map_update(es: Seq<(Seq<char>, Val)>, i: int, v: Val)
    requires
        forall|p: int, q: int| 0 <= p < q < es.len() ==> es[p].0 != es[q].0,
        0 <= i < es.len(),
    ensures
        kv_map(es.update(i, (es[i].0, v))) =~= kv_map(es).insert(es[i].0, v),
    decreases es.len(),
{
    let k = es[i].0;
    let u = es.update(i, (k, v));
    if i == es.len() - 1 {
        assert(u.drop_last() =~= es.drop_last());
        assert(u.last() == (k, v));
    } else {
        assert(u.drop_last() =~= es.drop_last().update(i, (k, v)));
        assert(es.drop_last()[i] == es[i]);
        lemma_kv_map_update(es.drop_last(), i, v);
        assert(u.last() == es.last());
        assert(k != es.last().0);
    }
}

/// Inserting an entry with a fresh key at any position inserts into the mapping.
pub proof fn lemma_kv_map_insert_at(es: Seq<(Seq<char>, Val)>, i: int, k: Seq<char>, v: Val)
    requires
        !has_key(es, k),
        0 <= i <= es.len(),
    ensures
        kv_map(es.insert(i, (k, v))) =~= kv_map(es).insert(k, v),
    decreases es.len(),
{
    let u = es.insert(i, (k, v));
    if i == es.len() {
        assert(u.drop_last() =~= es);
        assert(u.last() == (k, v));
    } else {
        assert(u.last() == es.last());
        assert(u.drop_last() =~= es.drop_last().insert(i, (k, v)));
        assert(!has_key(es.drop_last(), k)) by {
            if has_key(es.drop_last(), k) {
                let j = choose|j: int|
                    0 <= j < es.drop_last().len() && es.drop_last()[j].0 == k;
                assert(es[j].0 == k);
            }
        }
        lemma_kv_map_insert_at(es.drop_last(), i, k, v);
        assert(k != es.last().0) by {
            assert(es[es.len() - 1].0 == es.last().0);
        }
    }
}

/// Reading one more entry inserts it into the mapping read so far.
pub proof fn lemma_kv_map_take_step(es: Seq<(Seq<char>, Val)>, i: int)
    requires
        0 <= i < es.len(),
    ensures
        kv_map(es.take(i + 1)) =~= kv_map(es.take(i)).insert(es[i].0, es[i].1),
{
    assert(es.take(i + 1).drop_last() =~= es.take(i));
    assert(es.take(i + 1).last() == es[i]);
}

/// Keys ascending at each neighbouring pair are ascending everywhere.
pub proof fn lemma_adjacent_sorted(es: Seq<(Seq<char>, Val)>)
    requires
        forall|i: int| 0 <= i < es.len() - 1 ==> key_lt(#[trigger] es[i].0, es[i + 1].0),
    ensures
        sorted_strict(es),
{
    assert forall|i: int, j: int| 0 <= i < j < es.len() implies key_lt(es[i].0, es[j].0) by {
        lemma_key_chain(es, i, j);
    }
}

/// The chain of neighbouring steps from `i` to `j`.
proof fn lemma_key_chain(es: Seq<(Seq<char>, Val)>, i: int, j: int)
    requires
        forall|p: int| 0 <= p < es.len() - 1 ==> key_lt(#[trigger] es[p].0, es[p + 1].0),
        0 <= i < j < es.len(),
    ensures
        key_lt(es[i].0, es[j].0),
    decreases j - i,
{
    if j == i + 1 {
    } else {
        lemma_key_chain(es, i, j - 1);
        lemma_key_lt_transitive(es[i].0, es[j - 1].0, es[j].0);
    }
}

/// Search the entries for a key; the index found is the place of the key.
#[verifier::loop_isolation(false)]
pub fn entries_find(es: &Vec<(String, DynamicValue)>, k: &str) -> (r: Option<usize>)
    ensures
        match r {
            Some(i) => i < es@.len() && entries_of(es@)[i as int].0 == k@,
            None => !has_key(entries_of(es@), k@),
        },
{
    proof {
        lemma_entries_of(es@);
    }
    let ghost ev = entries_of(es@);
    let n = es.len();
    let mut i: usize = 0;
    while i < n
        invariant
            n == es@.len(),
            i <= n,
            ev == entries_of(es@),
            ev.len() == n,
            forall|j: int| 0 <= j < i ==> ev[j].0 != k@,
        decreases n - i,
    {
        if key_cmp(es[i].0.as_str(), k) == 0 {
            assert(ev[i as int].0 == k@);
            return Some(i);
        }
        proof {
            assert(ev[i as int].0 == es@[i as int].0@);
        }
        i = i + 1;
    }
    return None;
}

/// Insert or overwrite one entry, keeping the keys strictly ascending.
#[verifier::loop_isolation(false)]
pub fn entries_insert(es: &mut Vec<(String, DynamicValue)>, k: String, v: DynamicValue)
    requires
        sorted_strict(entries_of(old(es)@)),
    ensures
        sorted_strict(entries_of(final(es)@)),
        kv_map(entries_of(final(es)@)) == kv_map(entries_of(old(es)@)).insert(k@, v@),
{
    proof {
        lemma_entries_of(es@);
        lemma_sorted_distinct(entries_of(es@));
    }
    let ghost oldv = entries_of(old(es)@);
    let n = es.len();
    let mut i: usize = 0;
    while i < n
        invariant
            n == es@.len(),
            i <= n,
            es@ == old(es)@,
            oldv == entries_of(es@),
            oldv.len() == n,
            sorted_strict(oldv),
            forall|j: int| 0 <= j < i ==> key_lt(oldv[j].0, k@),
        decreases n - i,
    {
        let c = key_cmp(es[i].0.as_str(), k.as_str());
        proof {
            assert(oldv[i as int].0 == es@[i as int].0@);
        }
        if c == 0 {
            // Overwrite in place: remove the old entry, put the new one there.
            let _old_entry = es.remove(i);
            es.insert(i, (k, v));
            proof {
                assert(es@ =~= old(es)@.update(i as int, (old(es)@[i as int].0, old(
                    es,
                )@[i as int].1)).update(i as int, es@[i as int]));
                assert(es@ =~= old(es)@.update(i as int, es@[i as int]));
                lemma_entries_of(es@);
                let newv = entries_of(es@);
                assert(newv =~= oldv.update(i as int, (k@, v@))) by {
                    assert forall|j: int| 0 <= j < newv.len() implies newv[j] == oldv.update(
                        i as int,
                        (k@, v@),
                    )[j] by {
                        assert(newv[j] == (es@[j].0@, crate::value::val_of(es@[j].1)));
                    }
                }
                assert(oldv[i as int].0 == k@);
                lemma_sorted_distinct(oldv);
                lemma_kv_map_update(oldv, i as int, v@);
                assert(sorted_strict(newv)) by {
                    assert forall|p: int, q: int|
                        0 <= p < q < newv.len() implies key_lt(newv[p].0, newv[q].0) by {
                        assert(newv[p].0 == oldv[p].0 && newv[q].0 == oldv[q].0);
                    }
                }
            }
            return ;
        }
        if c == 1 {
            // The key at `i` sorts after `k`: the new entry belongs at `i`.
            es.insert(i, (k, v));
            proof {
                lemma_entries_of(es@);
                let newv = entries_of(es@);
                assert(newv =~= oldv.insert(i as int, (k@, v@))) by {
                    assert forall|j: int| 0 <= j < newv.len() implies newv[j] == oldv.insert(
                        i as int,
                        (k@, v@),
                    )[j] by {
                        assert(newv[j] == (es@[j].0@, crate::value::val_of(es@[j].1)));
                        if j < i {
                            assert(es@[j] == old(es)@[j]);
                        } else if j > i {
                            assert(es@[j] == old(es)@[j - 1]);
                        }
                    }
                }
                assert(key_lt(k@, oldv[i as int].0));
                assert(!has_key(oldv, k@)) by {
                    if has_key(oldv, k@) {
                        let j = choose|j: int| 0 <= j < oldv.len() && oldv[j].0 == k@;
                        if j < i {
                            lemma_key_lt_asymmetric(oldv[j].0, k@);
                        } else if j > i {
                            lemma_key_lt_transitive(k@, oldv[i as int].0, oldv[j].0);
                            lemma_key_lt_asymmetric(k@, oldv[j].0);
                        } else {
                            lemma_key_lt_asymmetric(k@, oldv[i as int].0);
                        }
                    }
                }
                lemma_kv_map_insert_at(oldv, i as int, k@, v@);
                assert(sorted_strict(newv)) by {
                    assert forall|p: int, q: int|
                        0 <= p < q < newv.len() implies key_lt(newv[p].0, newv[q].0) by {
                        if p == i {
                            // newv[p] is the new entry
                            if q == i + 1 {
                                assert(newv[q].0 == oldv[i as int].0);
                            } else {
                                lemma_key_lt_transitive(k@, oldv[i as int].0, oldv[q - 1].0);
                            }
                        } else if q == i {
                            assert(key_lt(oldv[p].0, k@));
                        } else if p < i && q > i {
                            assert(key_lt(oldv[p].0, oldv[q - 1].0));
                        } else if q < i {
                            assert(key_lt(oldv[p].0, oldv[q].0));
                        } else {
                            assert(p > i);
                            assert(key_lt(oldv[p - 1].0, oldv[q - 1].0));
                        }
                    }
                }
            }
            return ;
        }
        proof {
            crate::keyorder::lemma_key_lt_connex(oldv[i as int].0, k@);
            assert(key_lt(oldv[i as int].0, k@));
        }
        i = i + 1;
    }
    // Every key sorts before `k`: the new entry belongs at the end.
    es.push((k, v));
    proof {
        lemma_entries_of(es@);
        let newv = entries_of(es@);
        assert(newv =~= oldv.insert(oldv.len() as int, (k@, v@))) by {
            assert forall|j: int| 0 <= j < newv.len() implies newv[j] == oldv.insert(
                oldv.len() as int,
                (k@, v@),
            )[j] by {
                assert(newv[j] == (es@[j].0@, crate::value::val_of(es@[j].1)));
                if j < oldv.len() {
                    assert(es@[j] == old(es)@[j]);
                }
            }
        }
        assert(!has_key(oldv, k@)) by {
            if has_key(oldv, k@) {
                let j = choose|j: int| 0 <= j < oldv.len() && oldv[j].0 == k@;
                lemma_key_lt_asymmetric(oldv[j].0, k@);
            }
        }
        lemma_kv_map_insert_at(oldv, oldv.len() as int, k@, v@);
        assert(sorted_strict(newv)) by {
            assert forall|p: int, q: int|
                0 <= p < q < newv.len() implies key_lt(newv[p].0, newv[q].0) by {
                if q == newv.len() - 1 {
                    assert(key_lt(oldv[p].0, k@));
                } else {
                    assert(key_lt(oldv[p].0, oldv[q].0));
                }
            }
        }
    }
}

/// Look a key up among sorted entries, borrowing the value found.
#[verifier::loop_isolation(false)]
pub fn entries_get<'a>(es: &'a Vec<(String, DynamicValue)>, k: &str) -> (r: Option<
    &'a DynamicValue,
>)
    requires
        sorted_strict(entries_of(es@)),
    ensures
        match r {
            Some(v) => kv_map(entries_of(es@)).contains_key(k@) && kv_map(entries_of(es@))[k@]
                == v@,
            None => !kv_map(entries_of(es@)).contains_key(k@),
        },
{
    proof {
        lemma_kv_map_domain(entries_of(es@), k@);
    }
    match entries_find(es, k) {
        Some(i) => {
            proof {
                lemma_entries_of(es@);
                lemma_sorted_distinct(entries_of(es@));
                lemma_kv_map_get(entries_of(es@), i as int);
                assert(entries_of(es@)[i as int].1 == crate::value::val_of(es@[i as int].1));
            }
            Some(&es[i].1)
        },
        None => None,
    }
}

/// An entry-by-entry copy that denotes the same entries.
#[verifier::loop_isolation(false)]
pub fn entries_clone(es: &Vec<(String, DynamicValue)>) -> (r: Vec<(String, DynamicValue)>)
    ensures
        entries_of(r@) == entries_of(es@),
{
    let mut out: Vec<(String, DynamicValue)> = Vec::new();
    let n = es.len();
    let mut i: usize = 0;
    while i < n
        invariant
            n == es@.len(),
            i <= n,
            out@.len() == i,
            forall|j: int| 0 <= j < i ==> out@[j].0@ == es@[j].0@ && out@[j].1@ == es@[j].1@,
        decreases n - i,
    {
        let pair = (es[i].0.clone(), es[i].1.clone());
        out.push(pair);
        i = i + 1;
    }
    proof {
        lemma_entries_of(out@);
        lemma_entries_of(es@);
        assert(entries_of(out@) =~= entries_of(es@));
    }
    out
}

} // verus!
