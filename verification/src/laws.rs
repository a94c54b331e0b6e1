//! Laws of the context operations, stated over the mapping model.
//!
//! `insert` and `extend` describe their effect as `Map::insert` and
//! `Map::union_prefer_right` of the mapping a context holds; the laws here
//! spell out the overwrite semantics those contracts imply, and that the
//! sorted entry form of a mapping — what `inner` returns and the printers
//! print — is unique.

use vstd::prelude::*;

use crate::codec::clean_json_map;
use crate::codec::clean_toml_map;
use crate::codec::json_norm_map;
use crate::codec::toml_norm_map;
use crate::context::Contextualize;
use crate::entries::has_key;
use crate::entries::kv_map;
use crate::entries::lemma_kv_map_domain;
use crate::entries::lemma_kv_map_get;
use crate::entries::lemma_sorted_distinct;
use crate::entries::sorted_strict;
use crate::keyorder::key_lt;
use crate::keyorder::lemma_key_lt_asymmetric;
use crate::keyorder::lemma_key_lt_connex;
use crate::value::Val;

verus! {

/// Inserting the same key twice retains only the second value.
pub proof fn lemma_insert_overwrite(m: Map<Seq<char>, Val>, k: Seq<char>, v1: Val, v2: Val)
    ensures
        m.insert(k, v1).insert(k, v2) == m.insert(k, v2),
{
    assert(m.insert(k, v1).insert(k, v2) =~= m.insert(k, v2));
}

/// Extending lets an incoming value win over an existing one and leaves a
/// key the incoming mapping does not carry untouched.
pub proof fn lemma_extend_prefer_incoming(
    m: Map<Seq<char>, Val>,
    d: Map<Seq<char>, Val>,
    k: Seq<char>,
)
    ensures
        d.contains_key(k) ==> m.union_prefer_right(d).contains_key(k) && m.union_prefer_right(d)[k]
            == d[k],
        !d.contains_key(k) && m.contains_key(k) ==> m.union_prefer_right(d).contains_key(k)
            && m.union_prefer_right(d)[k] == m[k],
        !d.contains_key(k) && !m.contains_key(k) ==> !m.union_prefer_right(d).contains_key(k),
{
}

/// The round trip through JSON: print a context and parse the text back.
/// On a JSON-clean context this returns a context holding the same mapping
/// with each value normalized; where normalization changes nothing, the
/// round trip is the identity.
pub fn json_round_trip<T: Contextualize>(c: &T, pretty: bool) -> (r: Option<T>)
    ensures
        clean_json_map(c.ctx_map()) ==> (r matches Some(c2) && c2.ctx_map() == json_norm_map(
            c.ctx_map(),
        )),
        clean_json_map(c.ctx_map()) && json_norm_map(c.ctx_map()) == c.ctx_map() ==> (r matches Some(
            c2,
        ) && c2.ctx_map() == c.ctx_map()),
{
    match c.to_json(pretty) {
        Ok(s) => match T::from_json(s.as_str()) {
            Ok(c2) => Some(c2),
            Err(_) => None,
        },
        Err(_) => None,
    }
}

/// The round trip through TOML: print a context and parse the text back.
/// On a TOML-clean context this returns a context holding the same mapping
/// with each value normalized; where normalization changes nothing, the
/// round trip is the identity.
pub fn toml_round_trip<T: Contextualize>(c: &T, pretty: bool) -> (r: Option<T>)
    ensures
        clean_toml_map(c.ctx_map()) ==> (r matches Some(c2) && c2.ctx_map() == toml_norm_map(
            c.ctx_map(),
        )),
        clean_toml_map(c.ctx_map()) && toml_norm_map(c.ctx_map()) == c.ctx_map() ==> (r matches Some(
            c2,
        ) && c2.ctx_map() == c.ctx_map()),
{
    match c.to_toml(pretty) {
        Ok(s) => match T::from_toml(s.as_str()) {
            Ok(c2) => Some(c2),
            Err(_) => None,
        },
        Err(_) => None,
    }
}

/// The round trip through YAML: print a context and parse the text back.
/// On a JSON-clean context (YAML holds scalars just as JSON does) this
/// returns a context holding the same mapping with each value normalized;
/// where normalization changes nothing, the round trip is the identity.
pub fn yaml_round_trip<T: Contextualize>(c: &T) -> (r: Option<T>)
    ensures
        clean_json_map(c.ctx_map()) ==> (r matches Some(c2) && c2.ctx_map() == json_norm_map(
            c.ctx_map(),
        )),
        clean_json_map(c.ctx_map()) && json_norm_map(c.ctx_map()) == c.ctx_map() ==> (r matches Some(
            c2,
        ) && c2.ctx_map() == c.ctx_map()),
{
    match c.to_yaml() {
        Ok(s) => match T::from_yaml(s.as_str()) {
            Ok(c2) => Some(c2),
            Err(_) => None,
        },
        Err(_) => None,
    }
}

/// The sorted entry form of a mapping: the one sequence of entries, sorted
/// by key, that denotes it — what `inner` returns and what the printers
/// print.
pub open spec fn canon_entries(m: Map<Seq<char>, Val>) -> Seq<(Seq<char>, Val)> {
    choose|es: Seq<(Seq<char>, Val)>| sorted_strict(es) && kv_map(es) == m
}

/// Sorted entries are the sorted entry form of their own mapping.
pub proof fn lemma_canon_entries(es: Seq<(Seq<char>, Val)>)
    requires
        sorted_strict(es),
    ensures
        canon_entries(kv_map(es)) == es,
{
    assert(exists|x: Seq<(Seq<char>, Val)>| sorted_strict(x) && kv_map(x) == kv_map(es)) by {
        assert(sorted_strict(es) && kv_map(es) == kv_map(es));
    }
    let c = canon_entries(kv_map(es));
    assert(sorted_strict(c) && kv_map(c) == kv_map(es));
    lemma_sorted_entries_canonical(c, es);
}

/// A mapping has exactly one sorted entry form: two sorted entry sequences
/// that denote the same mapping are the same sequence.  This is why a
/// context prints one canonical way.
pub proof fn lemma_sorted_entries_canonical(a: Seq<(Seq<char>, Val)>, b: Seq<(Seq<char>, Val)>)
    requires
        sorted_strict(a),
        sorted_strict(b),
        kv_map(a) == kv_map(b),
    ensures
        a == b,
    decreases a.len(),
{
    lemma_sorted_distinct(a);
    lemma_sorted_distinct(b);
    if a.len() == 0 && b.len() == 0 {
        assert(a =~= b);
    } else if a.len() == 0 {
        lemma_kv_map_get(b, b.len() - 1);
        lemma_kv_map_domain(a, b.last().0);
    } else if b.len() == 0 {
        lemma_kv_map_get(a, a.len() - 1);
        lemma_kv_map_domain(b, a.last().0);
    } else {
        let ka = a.last().0;
        let kb = b.last().0;
        // The last key of a sorted sequence is the greatest key of its
        // mapping, so the two last keys agree.
        lemma_kv_map_get(a, a.len() - 1);
        lemma_kv_map_get(b, b.len() - 1);
        lemma_kv_map_domain(a, kb);
        lemma_kv_map_domain(b, ka);
        let ia = choose|i: int| 0 <= i < a.len() && a[i].0 == kb;
        let ib = choose|i: int| 0 <= i < b.len() && b[i].0 == ka;
        assert(ka == kb) by {
            lemma_key_lt_connex(ka, kb);
            if key_lt(ka, kb) {
                // kb sits in a at ia, so kb is at most ka.
                if ia < a.len() - 1 {
                    lemma_key_lt_asymmetric(a[ia].0, ka);
                    crate::keyorder::lemma_key_lt_transitive(ka, kb, ka);
                    crate::keyorder::lemma_key_lt_irreflexive(ka);
                }
            } else if key_lt(kb, ka) {
                if ib < b.len() - 1 {
                    lemma_key_lt_asymmetric(b[ib].0, kb);
                    crate::keyorder::lemma_key_lt_transitive(kb, ka, kb);
                    crate::keyorder::lemma_key_lt_irreflexive(kb);
                }
            }
        }
        assert(a.last().1 == b.last().1) by {
            assert(kv_map(a)[ka] == a.last().1);
            assert(kv_map(b)[kb] == b.last().1);
        }
        assert(kv_map(a.drop_last()) =~= kv_map(a).remove(ka)) by {
            lemma_last_removed(a);
        }
        assert(kv_map(b.drop_last()) =~= kv_map(b).remove(kb)) by {
            lemma_last_removed(b);
        }
        assert(sorted_strict(a.drop_last()));
        assert(sorted_strict(b.drop_last()));
        lemma_sorted_entries_canonical(a.drop_last(), b.drop_last());
        assert(a =~= b) by {
            assert(a.len() == b.len());
            assert(forall|i: int|
                0 <= i < a.len() - 1 ==> a[i] == a.drop_last()[i] && b[i] == b.drop_last()[i]);
        }
    }
}

/// Dropping the last entry of a sorted sequence removes exactly its key
/// from the mapping.
proof fn lemma_last_removed(a: Seq<(Seq<char>, Val)>)
    requires
        sorted_strict(a),
        a.len() > 0,
    ensures
        kv_map(a.drop_last()) =~= kv_map(a).remove(a.last().0),
{
    lemma_sorted_distinct(a);
    let d = a.drop_last();
    let k = a.last().0;
    assert(!has_key(d, k)) by {
        if has_key(d, k) {
            let i = choose|i: int| 0 <= i < d.len() && d[i].0 == k;
            assert(a[i].0 == k);
        }
    }
    lemma_kv_map_domain(d, k);
    assert forall|x: Seq<char>| #[trigger]
        kv_map(d).contains_key(x) == kv_map(a).remove(k).contains_key(x) && (kv_map(
            d,
        ).contains_key(x) ==> kv_map(d)[x] == kv_map(a).remove(k)[x]) by {
        lemma_kv_map_domain(d, x);
        lemma_kv_map_domain(a, x);
        if x != k {
            if has_key(d, x) {
                let i = choose|i: int| 0 <= i < d.len() && d[i].0 == x;
                assert(a[i].0 == x);
                lemma_kv_map_get(d, i);
                lemma_kv_map_get(a, i);
            }
            if has_key(a, x) {
                let i = choose|i: int| 0 <= i < a.len() && a[i].0 == x;
                assert(i != a.len() - 1);
                assert(d[i].0 == x);
            }
        }
    }
}

} // verus!
