//! Format adapters: JSON, TOML and YAML.
//!
//! Parsing and printing are done by the serde_json, toml and serde_yaml
//! crates behind the trusted wrappers of this module.  What a parser returns
//! for a given text is named by an uninterpreted function per format
//! (`json_parse_of`, `toml_parse_of`, `yaml_parse_of`): the text either
//! denotes a top-level map of entries, sorted by key, or fails to parse.
//! The wrappers that print a context also name the printed text
//! (`json_text_of`, `toml_text_of`, `yaml_text_of`), a function of the
//! entries alone, and state for which values the printed text parses back
//! to the printed entries: the "clean" predicates below describe those
//! values, and the "norm" functions say how each integer's signedness tag
//! comes back.

use vstd::prelude::*;

use crate::entries::sorted_strict;
use crate::value::entries_of;
use crate::value::DynamicValue;
use crate::value::Val;

verus! {

/// serde_json's dynamic value type, used only inside the wrappers.
#[verifier::external_type_specification]
#[verifier::external_body]
pub struct ExJsonValue(serde_json::Value);

/// toml's dynamic value type, used only inside the wrappers.
#[verifier::external_type_specification]
#[verifier::external_body]
pub struct ExTomlValue(toml::Value);

/// What parsing a text as a top-level JSON object yields: the entries,
/// sorted by key, or nothing when the text is not such an object.
pub uninterp spec fn json_parse_of(text: Seq<char>) -> Option<Seq<(Seq<char>, Val)>>;

/// What parsing a text as a TOML document yields: the entries, sorted by
/// key, or nothing when the text is not a well-formed document.
pub uninterp spec fn toml_parse_of(text: Seq<char>) -> Option<Seq<(Seq<char>, Val)>>;

/// What parsing a text as a YAML document holding a string-keyed mapping
/// yields: the entries, sorted by key, or nothing.
pub uninterp spec fn yaml_parse_of(text: Seq<char>) -> Option<Seq<(Seq<char>, Val)>>;

/// What parsing a text as a single JSON value and printing it back yields,
/// or nothing when the text is not a JSON value.
pub uninterp spec fn json_reemit(text: Seq<char>) -> Option<Seq<char>>;

/// The JSON text printed for the given entries, compact or pretty: the
/// output depends on the entries and the flag alone.
pub uninterp spec fn json_text_of(es: Seq<(Seq<char>, Val)>, pretty: bool) -> Seq<char>;

/// The TOML text printed for the given entries, plain or pretty, or
/// nothing when they cannot be rendered as TOML: the outcome depends on
/// the entries and the flag alone.
pub uninterp spec fn toml_text_of(es: Seq<(Seq<char>, Val)>, pretty: bool) -> Option<Seq<char>>;

/// The YAML text printed for the given entries: the output depends on the
/// entries alone.
pub uninterp spec fn yaml_text_of(es: Seq<(Seq<char>, Val)>) -> Seq<char>;

/// The text has the shape of a decimal floating point number: it is
/// nonempty, begins with a digit or a minus sign — as every JSON number
/// does, and no other JSON value's text does — and carries a decimal point
/// or an exponent, which excludes the integer texts.
pub open spec fn float_shaped(s: Seq<char>) -> bool {
    &&& s.len() > 0
    &&& (s[0] == '-' || (('0' as u32) <= (s[0] as u32) && (s[0] as u32) <= ('9' as u32)))
    &&& (s.contains('.') || s.contains('e') || s.contains('E'))
}

/// The text is the canonical decimal form of a floating point number: it
/// has the shape of one, and printing the number it denotes yields the text
/// itself.
pub open spec fn float_canon(s: Seq<char>) -> bool {
    float_shaped(s) && json_reemit(s) == Some(s)
}

/// A value whose JSON (and YAML) round trip returns exactly its
/// normalization [`json_norm`]: any integer, a canonical float text, any
/// string, boolean or null, and lists and objects of such values, objects
/// with their keys sorted and distinct.
pub open spec fn clean_json(v: Val) -> bool
    decreases v,
{
    match v {
        Val::Null => true,
        Val::Bool(_) => true,
        Val::I64(_) => true,
        Val::U64(_) => true,
        Val::Float(s) => float_canon(s),
        Val::Str(_) => true,
        Val::List(xs) => clean_json_list(xs),
        Val::Object(es) => sorted_strict(es) && clean_json_entries(es),
    }
}

/// Every element of the list survives the JSON round trip.
pub open spec fn clean_json_list(xs: Seq<Val>) -> bool
    decreases xs,
{
    if xs.len() == 0 {
        true
    } else {
        clean_json_list(xs.drop_last()) && clean_json(xs.last())
    }
}

/// Every value of the entries survives the JSON round trip.
pub open spec fn clean_json_entries(es: Seq<(Seq<char>, Val)>) -> bool
    decreases es,
{
    if es.len() == 0 {
        true
    } else {
        clean_json_entries(es.drop_last()) && clean_json(es.last().1)
    }
}

/// Every value of the mapping survives the JSON round trip.
pub open spec fn clean_json_map(m: Map<Seq<char>, Val>) -> bool {
    forall|k: Seq<char>| #[trigger] m.contains_key(k) ==> clean_json(m[k])
}

/// A value whose TOML round trip returns exactly its normalization
/// [`toml_norm`]: a signed integer, an unsigned one no larger than a
/// signed one can hold (TOML integers are signed), a canonical float text,
/// any string or boolean — TOML has no null — and lists and objects of
/// such values, objects sorted.
pub open spec fn clean_toml(v: Val) -> bool
    decreases v,
{
    match v {
        Val::Null => false,
        Val::Bool(_) => true,
        Val::I64(_) => true,
        Val::U64(u) => u <= 0x7fff_ffff_ffff_ffff,
        Val::Float(s) => float_canon(s),
        Val::Str(_) => true,
        Val::List(xs) => clean_toml_list(xs),
        Val::Object(es) => sorted_strict(es) && clean_toml_entries(es),
    }
}

/// Every element of the list survives the TOML round trip.
pub open spec fn clean_toml_list(xs: Seq<Val>) -> bool
    decreases xs,
{
    if xs.len() == 0 {
        true
    } else {
        clean_toml_list(xs.drop_last()) && clean_toml(xs.last())
    }
}

/// Every value of the entries survives the TOML round trip.
pub open spec fn clean_toml_entries(es: Seq<(Seq<char>, Val)>) -> bool
    decreases es,
{
    if es.len() == 0 {
        true
    } else {
        clean_toml_entries(es.drop_last()) && clean_toml(es.last().1)
    }
}

/// Every value of the mapping survives the TOML round trip.
pub open spec fn clean_toml_map(m: Map<Seq<char>, Val>) -> bool {
    forall|k: Seq<char>| #[trigger] m.contains_key(k) ==> clean_toml(m[k])
}

/// What a value comes back as after a JSON (or YAML) round trip: every
/// integer keeps its numeric value, but a non-negative signed one comes
/// back unsigned; lists and objects are normalized element by element;
/// everything else keeps its form.
pub open spec fn json_norm(v: Val) -> Val
    decreases v,
{
    match v {
        Val::I64(i) => if i >= 0 {
            Val::U64(i as u64)
        } else {
            Val::I64(i)
        },
        Val::List(xs) => Val::List(json_norm_list(xs)),
        Val::Object(es) => Val::Object(json_norm_entries(es)),
        _ => v,
    }
}

/// The JSON normalization of each element of a list.
pub open spec fn json_norm_list(xs: Seq<Val>) -> Seq<Val>
    decreases xs,
{
    if xs.len() == 0 {
        Seq::empty()
    } else {
        json_norm_list(xs.drop_last()).push(json_norm(xs.last()))
    }
}

/// The JSON normalization of each value of the entries; the keys stay.
pub open spec fn json_norm_entries(es: Seq<(Seq<char>, Val)>) -> Seq<(Seq<char>, Val)>
    decreases es,
{
    if es.len() == 0 {
        Seq::empty()
    } else {
        json_norm_entries(es.drop_last()).push((es.last().0, json_norm(es.last().1)))
    }
}

/// The JSON normalization of each value of the mapping; the keys stay.
pub open spec fn json_norm_map(m: Map<Seq<char>, Val>) -> Map<Seq<char>, Val> {
    Map::new(|k: Seq<char>| m.contains_key(k), |k: Seq<char>| json_norm(m[k]))
}

/// What a value comes back as after a TOML round trip: every integer in
/// range keeps its numeric value but comes back signed; lists and objects
/// are normalized element by element; everything else keeps its form.
pub open spec fn toml_norm(v: Val) -> Val
    decreases v,
{
    match v {
        Val::U64(u) => if u <= 0x7fff_ffff_ffff_ffff {
            Val::I64(u as i64)
        } else {
            Val::U64(u)
        },
        Val::List(xs) => Val::List(toml_norm_list(xs)),
        Val::Object(es) => Val::Object(toml_norm_entries(es)),
        _ => v,
    }
}

/// The TOML normalization of each element of a list.
pub open spec fn toml_norm_list(xs: Seq<Val>) -> Seq<Val>
    decreases xs,
{
    if xs.len() == 0 {
        Seq::empty()
    } else {
        toml_norm_list(xs.drop_last()).push(toml_norm(xs.last()))
    }
}

/// The TOML normalization of each value of the entries; the keys stay.
pub open spec fn toml_norm_entries(es: Seq<(Seq<char>, Val)>) -> Seq<(Seq<char>, Val)>
    decreases es,
{
    if es.len() == 0 {
        Seq::empty()
    } else {
        toml_norm_entries(es.drop_last()).push((es.last().0, toml_norm(es.last().1)))
    }
}

/// The TOML normalization of each value of the mapping; the keys stay.
pub open spec fn toml_norm_map(m: Map<Seq<char>, Val>) -> Map<Seq<char>, Val> {
    Map::new(|k: Seq<char>| m.contains_key(k), |k: Seq<char>| toml_norm(m[k]))
}

/// `json_norm_entries` maps the normalization over the entries.
pub proof fn lemma_json_norm_entries_elts(es: Seq<(Seq<char>, Val)>)
    ensures
        json_norm_entries(es).len() == es.len(),
        forall|i: int|
            0 <= i < es.len() ==> json_norm_entries(es)[i] == (es[i].0, json_norm(es[i].1)),
    decreases es.len(),
{
    if es.len() > 0 {
        lemma_json_norm_entries_elts(es.drop_last());
    }
}

/// `toml_norm_entries` maps the normalization over the entries.
pub proof fn lemma_toml_norm_entries_elts(es: Seq<(Seq<char>, Val)>)
    ensures
        toml_norm_entries(es).len() == es.len(),
        forall|i: int|
            0 <= i < es.len() ==> toml_norm_entries(es)[i] == (es[i].0, toml_norm(es[i].1)),
    decreases es.len(),
{
    if es.len() > 0 {
        lemma_toml_norm_entries_elts(es.drop_last());
    }
}

/// Normalizing sorted entries keeps them sorted, and denotes the
/// normalized mapping.
pub proof fn lemma_json_norm_entries_map(es: Seq<(Seq<char>, Val)>)
    requires
        sorted_strict(es),
    ensures
        sorted_strict(json_norm_entries(es)),
        crate::entries::kv_map(json_norm_entries(es)) == json_norm_map(crate::entries::kv_map(es)),
{
    let ns = json_norm_entries(es);
    lemma_json_norm_entries_elts(es);
    crate::entries::lemma_sorted_distinct(es);
    assert(sorted_strict(ns)) by {
        assert forall|p: int, q: int|
            0 <= p < q < ns.len() implies crate::keyorder::key_lt(ns[p].0, ns[q].0) by {
            assert(ns[p].0 == es[p].0 && ns[q].0 == es[q].0);
        }
    }
    crate::entries::lemma_sorted_distinct(ns);
    let m = crate::entries::kv_map(es);
    let nm = crate::entries::kv_map(ns);
    assert(nm =~= json_norm_map(m)) by {
        assert forall|x: Seq<char>| #[trigger]
            nm.contains_key(x) == json_norm_map(m).contains_key(x) && (nm.contains_key(x)
                ==> nm[x] == json_norm_map(m)[x]) by {
            crate::entries::lemma_kv_map_domain(es, x);
            crate::entries::lemma_kv_map_domain(ns, x);
            if crate::entries::has_key(es, x) {
                let i = choose|i: int| 0 <= i < es.len() && es[i].0 == x;
                crate::entries::lemma_kv_map_get(es, i);
                crate::entries::lemma_kv_map_get(ns, i);
                assert(ns[i].0 == x && ns[i].1 == json_norm(es[i].1));
            }
            if crate::entries::has_key(ns, x) {
                let i = choose|i: int| 0 <= i < ns.len() && ns[i].0 == x;
                assert(es[i].0 == x);
            }
        }
    }
}

/// Normalizing sorted entries keeps them sorted, and denotes the
/// normalized mapping.
pub proof fn lemma_toml_norm_entries_map(es: Seq<(Seq<char>, Val)>)
    requires
        sorted_strict(es),
    ensures
        sorted_strict(toml_norm_entries(es)),
        crate::entries::kv_map(toml_norm_entries(es)) == toml_norm_map(crate::entries::kv_map(es)),
{
    let ns = toml_norm_entries(es);
    lemma_toml_norm_entries_elts(es);
    crate::entries::lemma_sorted_distinct(es);
    assert(sorted_strict(ns)) by {
        assert forall|p: int, q: int|
            0 <= p < q < ns.len() implies crate::keyorder::key_lt(ns[p].0, ns[q].0) by {
            assert(ns[p].0 == es[p].0 && ns[q].0 == es[q].0);
        }
    }
    crate::entries::lemma_sorted_distinct(ns);
    let m = crate::entries::kv_map(es);
    let nm = crate::entries::kv_map(ns);
    assert(nm =~= toml_norm_map(m)) by {
        assert forall|x: Seq<char>| #[trigger]
            nm.contains_key(x) == toml_norm_map(m).contains_key(x) && (nm.contains_key(x)
                ==> nm[x] == toml_norm_map(m)[x]) by {
            crate::entries::lemma_kv_map_domain(es, x);
            crate::entries::lemma_kv_map_domain(ns, x);
            if crate::entries::has_key(es, x) {
                let i = choose|i: int| 0 <= i < es.len() && es[i].0 == x;
                crate::entries::lemma_kv_map_get(es, i);
                crate::entries::lemma_kv_map_get(ns, i);
                assert(ns[i].0 == x && ns[i].1 == toml_norm(es[i].1));
            }
            if crate::entries::has_key(ns, x) {
                let i = choose|i: int| 0 <= i < ns.len() && ns[i].0 == x;
                assert(es[i].0 == x);
            }
        }
    }
}

/// The entries are JSON-clean exactly when each entry's value is.
pub proof fn lemma_clean_json_entries_elts(es: Seq<(Seq<char>, Val)>)
    ensures
        clean_json_entries(es) <==> (forall|i: int| 0 <= i < es.len() ==> clean_json(es[i].1)),
    decreases es.len(),
{
    if es.len() > 0 {
        lemma_clean_json_entries_elts(es.drop_last());
        assert(forall|i: int| 0 <= i < es.len() - 1 ==> es.drop_last()[i] == es[i]);
    }
}

/// The entries are TOML-clean exactly when each entry's value is.
pub proof fn lemma_clean_toml_entries_elts(es: Seq<(Seq<char>, Val)>)
    ensures
        clean_toml_entries(es) <==> (forall|i: int| 0 <= i < es.len() ==> clean_toml(es[i].1)),
    decreases es.len(),
{
    if es.len() > 0 {
        lemma_clean_toml_entries_elts(es.drop_last());
        assert(forall|i: int| 0 <= i < es.len() - 1 ==> es.drop_last()[i] == es[i]);
    }
}

/// Sorted entries are JSON-clean exactly when their mapping is.
pub proof fn lemma_clean_json_entries_map(es: Seq<(Seq<char>, Val)>)
    requires
        sorted_strict(es),
    ensures
        clean_json_entries(es) <==> clean_json_map(crate::entries::kv_map(es)),
{
    let m = crate::entries::kv_map(es);
    crate::entries::lemma_sorted_distinct(es);
    lemma_clean_json_entries_elts(es);
    if clean_json_entries(es) {
        assert forall|k: Seq<char>| #[trigger] m.contains_key(k) implies clean_json(m[k]) by {
            crate::entries::lemma_kv_map_domain(es, k);
            let i = choose|i: int| 0 <= i < es.len() && es[i].0 == k;
            crate::entries::lemma_kv_map_get(es, i);
        }
    }
    if clean_json_map(m) {
        assert forall|i: int| 0 <= i < es.len() implies clean_json(es[i].1) by {
            crate::entries::lemma_kv_map_get(es, i);
        }
    }
}

/// Sorted entries are TOML-clean exactly when their mapping is.
pub proof fn lemma_clean_toml_entries_map(es: Seq<(Seq<char>, Val)>)
    requires
        sorted_strict(es),
    ensures
        clean_toml_entries(es) <==> clean_toml_map(crate::entries::kv_map(es)),
{
    let m = crate::entries::kv_map(es);
    crate::entries::lemma_sorted_distinct(es);
    lemma_clean_toml_entries_elts(es);
    if clean_toml_entries(es) {
        assert forall|k: Seq<char>| #[trigger] m.contains_key(k) implies clean_toml(m[k]) by {
            crate::entries::lemma_kv_map_domain(es, k);
            let i = choose|i: int| 0 <= i < es.len() && es[i].0 == k;
            crate::entries::lemma_kv_map_get(es, i);
        }
    }
    if clean_toml_map(m) {
        assert forall|i: int| 0 <= i < es.len() implies clean_toml(es[i].1) by {
            crate::entries::lemma_kv_map_get(es, i);
        }
    }
}

/// The list is JSON-clean exactly when each element is.
pub proof fn lemma_clean_json_list_elts(xs: Seq<Val>)
    ensures
        clean_json_list(xs) <==> (forall|i: int| 0 <= i < xs.len() ==> clean_json(xs[i])),
    decreases xs.len(),
{
    if xs.len() > 0 {
        lemma_clean_json_list_elts(xs.drop_last());
        assert(forall|i: int| 0 <= i < xs.len() - 1 ==> xs.drop_last()[i] == xs[i]);
    }
}

/// The list is TOML-clean exactly when each element is.
pub proof fn lemma_clean_toml_list_elts(xs: Seq<Val>)
    ensures
        clean_toml_list(xs) <==> (forall|i: int| 0 <= i < xs.len() ==> clean_toml(xs[i])),
    decreases xs.len(),
{
    if xs.len() > 0 {
        lemma_clean_toml_list_elts(xs.drop_last());
        assert(forall|i: int| 0 <= i < xs.len() - 1 ==> xs.drop_last()[i] == xs[i]);
    }
}

/// Scan a text for the shape of a float: it must begin with a digit or a
/// minus sign and carry a decimal point or an exponent.
#[verifier::loop_isolation(false)]
fn float_shaped_check(s: &str) -> (r: bool)
    ensures
        r == float_shaped(s@),
{
    let n = s.unicode_len();
    if n == 0 {
        return false;
    }
    let first = s.get_char(0);
    if !(first == '-' || (('0' as u32) <= (first as u32) && (first as u32) <= ('9' as u32))) {
        return false;
    }
    let mut i: usize = 0;
    while i < n
        invariant
            i <= n,
            n == s@.len(),
            forall|j: int| 0 <= j < i ==> s@[j] != '.' && s@[j] != 'e' && s@[j] != 'E',
        decreases n - i,
    {
        let c = s.get_char(i);
        if c == '.' || c == 'e' || c == 'E' {
            assert(s@.contains(c));
            return true;
        }
        i = i + 1;
    }
    assert(!s@.contains('.') && !s@.contains('e') && !s@.contains('E'));
    return false;
}

/// Test whether a text is the canonical decimal form of a float: it has the
/// shape of a float and re-emitting it as a JSON value returns it unchanged.
pub fn float_canon_check(s: &String) -> (r: bool)
    ensures
        r == float_canon(s@),
{
    if !float_shaped_check(s.as_str()) {
        return false;
    }
    match json_reemit_text(s.as_str()) {
        Some(t) => t == *s,
        None => false,
    }
}

impl DynamicValue {
    /// Test whether this value survives a JSON (and YAML) round trip,
    /// coming back as its normalization: see [`clean_json`].
    #[verifier::loop_isolation(false)]
    pub fn is_json_clean(&self) -> (r: bool)
        ensures
            r == clean_json(self@),
        decreases *self,
    {
        match self {
            DynamicValue::Null => true,
            DynamicValue::Bool(_) => true,
            DynamicValue::I64(_) => true,
            DynamicValue::U64(_) => true,
            DynamicValue::Float(s) => float_canon_check(s),
            DynamicValue::Str(_) => true,
            DynamicValue::List(xs) => {
                proof {
                    crate::value::lemma_vals_of(xs@);
                    lemma_clean_json_list_elts(crate::value::vals_of(xs@));
                }
                let n = xs.len();
                let mut i: usize = 0;
                while i < n
                    invariant
                        i <= n,
                        forall|j: int|
                            0 <= j < i ==> clean_json(crate::value::vals_of(xs@)[j]),
                    decreases n - i,
                {
                    let x = &xs[i];
                    proof {
                        assert(*x == xs@[i as int]);
                        assert(*xs == self->List_0);
                        assert(decreases_to!(*self => self->List_0));
                        assert(decreases_to!(*xs => xs@));
                        assert(decreases_to!(xs@ => xs@[i as int]));
                        assert(decreases_to!(*self => *x));
                    }
                    if !x.is_json_clean() {
                        proof {
                            crate::value::lemma_vals_of(xs@);
                            assert(crate::value::vals_of(xs@)[i as int] == x@);
                        }
                        return false;
                    }
                    i = i + 1;
                }
                true
            },
            DynamicValue::Object(es) => {
                proof {
                    crate::value::lemma_entries_of(es@);
                    lemma_clean_json_entries_elts(crate::value::entries_of(es@));
                }
                let ghost ev = crate::value::entries_of(es@);
                let n = es.len();
                let mut i: usize = 0;
                while i < n
                    invariant
                        i <= n,
                        forall|j: int| 0 <= j < i ==> clean_json(ev[j].1),
                        forall|j: int|
                            #![trigger ev[j]]
                            0 < j < i ==> crate::keyorder::key_lt(ev[j - 1].0, ev[j].0),
                    decreases n - i,
                {
                    let e = &es[i];
                    proof {
                        assert(*e == es@[i as int]);
                        assert(*es == self->Object_0);
                        assert(decreases_to!(*self => self->Object_0));
                        assert(decreases_to!(*es => es@));
                        assert(decreases_to!(es@ => es@[i as int]));
                        assert(decreases_to!(es@[i as int] => es@[i as int].1));
                        assert(decreases_to!(*self => e.1));
                    }
                    if i > 0 {
                        if crate::keyorder::key_cmp(es[i - 1].0.as_str(), e.0.as_str()) != -1 {
                            proof {
                                assert(!crate::keyorder::key_lt(ev[i - 1].0, ev[i as int].0));
                                assert(!sorted_strict(ev));
                            }
                            return false;
                        }
                    }
                    if !e.1.is_json_clean() {
                        proof {
                            crate::value::lemma_entries_of(es@);
                            assert(ev[i as int].1 == e.1@);
                        }
                        return false;
                    }
                    i = i + 1;
                }
                proof {
                    crate::entries::lemma_adjacent_sorted(ev);
                }
                true
            },
        }
    }

    /// Test whether this value survives a TOML round trip, coming back as
    /// its normalization: see [`clean_toml`].
    #[verifier::loop_isolation(false)]
    pub fn is_toml_clean(&self) -> (r: bool)
        ensures
            r == clean_toml(self@),
        decreases *self,
    {
        match self {
            DynamicValue::Null => false,
            DynamicValue::Bool(_) => true,
            DynamicValue::I64(_) => true,
            DynamicValue::U64(u) => *u <= 0x7fff_ffff_ffff_ffff,
            DynamicValue::Float(s) => float_canon_check(s),
            DynamicValue::Str(_) => true,
            DynamicValue::List(xs) => {
                proof {
                    crate::value::lemma_vals_of(xs@);
                    lemma_clean_toml_list_elts(crate::value::vals_of(xs@));
                }
                let n = xs.len();
                let mut i: usize = 0;
                while i < n
                    invariant
                        i <= n,
                        forall|j: int|
                            0 <= j < i ==> clean_toml(crate::value::vals_of(xs@)[j]),
                    decreases n - i,
                {
                    let x = &xs[i];
                    proof {
                        assert(*x == xs@[i as int]);
                        assert(*xs == self->List_0);
                        assert(decreases_to!(*self => self->List_0));
                        assert(decreases_to!(*xs => xs@));
                        assert(decreases_to!(xs@ => xs@[i as int]));
                        assert(decreases_to!(*self => *x));
                    }
                    if !x.is_toml_clean() {
                        proof {
                            crate::value::lemma_vals_of(xs@);
                            assert(crate::value::vals_of(xs@)[i as int] == x@);
                        }
                        return false;
                    }
                    i = i + 1;
                }
                true
            },
            DynamicValue::Object(es) => {
                proof {
                    crate::value::lemma_entries_of(es@);
                    lemma_clean_toml_entries_elts(crate::value::entries_of(es@));
                }
                let ghost ev = crate::value::entries_of(es@);
                let n = es.len();
                let mut i: usize = 0;
                while i < n
                    invariant
                        i <= n,
                        forall|j: int| 0 <= j < i ==> clean_toml(ev[j].1),
                        forall|j: int|
                            #![trigger ev[j]]
                            0 < j < i ==> crate::keyorder::key_lt(ev[j - 1].0, ev[j].0),
                    decreases n - i,
                {
                    let e = &es[i];
                    proof {
                        assert(*e == es@[i as int]);
                        assert(*es == self->Object_0);
                        assert(decreases_to!(*self => self->Object_0));
                        assert(decreases_to!(*es => es@));
                        assert(decreases_to!(es@ => es@[i as int]));
                        assert(decreases_to!(es@[i as int] => es@[i as int].1));
                        assert(decreases_to!(*self => e.1));
                    }
                    if i > 0 {
                        if crate::keyorder::key_cmp(es[i - 1].0.as_str(), e.0.as_str()) != -1 {
                            proof {
                                assert(!crate::keyorder::key_lt(ev[i - 1].0, ev[i as int].0));
                                assert(!sorted_strict(ev));
                            }
                            return false;
                        }
                    }
                    if !e.1.is_toml_clean() {
                        proof {
                            crate::value::lemma_entries_of(es@);
                            assert(ev[i as int].1 == e.1@);
                        }
                        return false;
                    }
                    i = i + 1;
                }
                proof {
                    crate::entries::lemma_adjacent_sorted(ev);
                }
                true
            },
        }
    }
}

/// Relies on serde_json's value constructors: mirror a dynamic value as a
/// JSON value, one variant to one variant; a float text becomes the number
/// it denotes.  Used only inside the printing wrappers below.
#[verifier::external_body]
fn to_json_value(v: &DynamicValue) -> serde_json::Value {
    match v {
        DynamicValue::Null => serde_json::Value::Null,
        DynamicValue::Bool(b) => serde_json::Value::Bool(*b),
        DynamicValue::I64(i) => serde_json::Value::from(*i),
        DynamicValue::U64(u) => serde_json::Value::from(*u),
        DynamicValue::Float(s) => serde_json::from_str::<serde_json::Value>(s).unwrap_or(serde_json::Value::Null),
        DynamicValue::Str(s) => serde_json::Value::String(s.clone()),
        DynamicValue::List(xs) => serde_json::Value::Array(xs.iter().map(to_json_value).collect()),
        DynamicValue::Object(es) => serde_json::Value::Object(es.iter().map(|p| (p.0.clone(), to_json_value(&p.1))).collect()),
    }
}

/// Relies on serde_json's value accessors: mirror a JSON value as a dynamic
/// value, one variant to one variant.  A non-negative integer is unsigned, a
/// negative one signed, as serde_json's number holds it; any other number
/// becomes its canonical float text.  Used only inside the parsing wrappers
/// below.
#[verifier::external_body]
fn from_json_value(v: serde_json::Value) -> DynamicValue {
    match v {
        serde_json::Value::Null => DynamicValue::Null,
        serde_json::Value::Bool(b) => DynamicValue::Bool(b),
        serde_json::Value::Number(n) => match (n.as_u64(), n.as_i64()) {
            (Some(u), _) => DynamicValue::U64(u),
            (None, Some(i)) => DynamicValue::I64(i),
            _ => DynamicValue::Float(n.to_string()),
        },
        serde_json::Value::String(s) => DynamicValue::Str(s),
        serde_json::Value::Array(xs) => DynamicValue::List(xs.into_iter().map(from_json_value).collect()),
        serde_json::Value::Object(m) => DynamicValue::Object(m.into_iter().map(|(k, w)| (k, from_json_value(w))).collect()),
    }
}

/// Relies on toml's value accessors: mirror a TOML value as a dynamic value,
/// one variant to one variant.  A TOML integer is signed; a float becomes
/// its canonical text; a datetime becomes its text.  Used only inside the
/// parsing wrappers below.
#[verifier::external_body]
fn from_toml_value(v: toml::Value) -> DynamicValue {
    match v {
        toml::Value::String(s) => DynamicValue::Str(s),
        toml::Value::Integer(i) => DynamicValue::I64(i),
        toml::Value::Float(f) => DynamicValue::Float(serde_json::Value::from(f).to_string()),
        toml::Value::Boolean(b) => DynamicValue::Bool(b),
        toml::Value::Datetime(d) => DynamicValue::Str(d.to_string()),
        toml::Value::Array(xs) => DynamicValue::List(xs.into_iter().map(from_toml_value).collect()),
        toml::Value::Table(t) => DynamicValue::Object(t.into_iter().map(|(k, w)| (k, from_toml_value(w))).collect()),
    }
}

/// Relies on serde_json::from_str and on the Display of serde_json::Value:
/// parse the text as one JSON value and print it back.  The result depends
/// on the text alone.
#[verifier::external_body]
pub fn json_reemit_text(text: &str) -> (r: Option<String>)
    ensures
        match r {
            Some(t) => json_reemit(text@) == Some(t@),
            None => json_reemit(text@) is None,
        },
{
    match serde_json::from_str::<serde_json::Value>(text) {
        Ok(v) => Some(v.to_string()),
        Err(_) => None,
    }
}

/// Relies on serde_json::to_string and serde_json::to_string_pretty on a
/// string-keyed map of JSON values, which cannot fail: the printed text is
/// a function of the entries and the flag alone; the compact printer
/// writes no line break (control characters in strings are escaped); the
/// pretty printer of a non-empty map writes one; and parsing the printed
/// text returns the printed entries, each value normalized, when they are
/// sorted and JSON-clean.
#[verifier::external_body]
pub fn json_encode(entries: &Vec<(String, DynamicValue)>, pretty: bool) -> (r: Result<
    String,
    String,
>)
    ensures
        r is Ok,
        match r {
            Ok(s) => s@ == json_text_of(entries_of(entries@), pretty) && (!pretty
                ==> !s@.contains('\n')) && (pretty && entries@.len() > 0 ==> s@.contains('\n'))
                && (sorted_strict(entries_of(entries@)) && clean_json_entries(
                entries_of(entries@),
            ) ==> json_parse_of(s@) == Some(json_norm_entries(entries_of(entries@)))),
            Err(_) => true,
        },
{
    let m: serde_json::Map<String, serde_json::Value> =
        entries.iter().map(|p| (p.0.clone(), to_json_value(&p.1))).collect();
    let out = if pretty {
        serde_json::to_string_pretty(&m)
    } else {
        serde_json::to_string(&m)
    };
    out.map_err(|e| e.to_string())
}

/// Relies on serde_json::from_str into serde_json's string-keyed map, which
/// is backed by an ordered map: iteration is sorted by key (byte order,
/// which agrees with `key_lt` on UTF-8 text), so the entries come out
/// sorted.  On any other text it fails, and the error carries the parser's
/// message.
#[verifier::external_body]
pub fn json_decode(text: &str) -> (r: Result<Vec<(String, DynamicValue)>, String>)
    ensures
        match r {
            Ok(v) => json_parse_of(text@) == Some(entries_of(v@)) && sorted_strict(
                entries_of(v@),
            ),
            Err(_) => json_parse_of(text@) is None,
        },
{
    match serde_json::from_str::<serde_json::Map<String, serde_json::Value>>(text) {
        Ok(m) => Ok(m.into_iter().map(|(k, v)| (k, from_json_value(v))).collect()),
        Err(e) => Err(e.to_string()),
    }
}

/// Relies on toml::to_string and toml::to_string_pretty on a string-keyed
/// map of JSON values: whether printing succeeds, and with which text, is
/// a function of the entries and the flag alone; the pretty printer of a
/// non-empty map writes a line break; and printing succeeds with the
/// printed text parsing back to the printed entries, each value
/// normalized, when they are sorted and TOML-clean.
#[verifier::external_body]
pub fn toml_encode(entries: &Vec<(String, DynamicValue)>, pretty: bool) -> (r: Result<
    String,
    String,
>)
    ensures
        match r {
            Ok(s) => toml_text_of(entries_of(entries@), pretty) == Some(s@) && (pretty
                && entries@.len() > 0 ==> s@.contains('\n')) && (sorted_strict(
                entries_of(entries@),
            ) && clean_toml_entries(entries_of(entries@)) ==> toml_parse_of(s@) == Some(
                toml_norm_entries(entries_of(entries@)),
            )),
            Err(_) => toml_text_of(entries_of(entries@), pretty) is None && !(sorted_strict(
                entries_of(entries@),
            ) && clean_toml_entries(entries_of(entries@))),
        },
{
    let m: serde_json::Map<String, serde_json::Value> =
        entries.iter().map(|p| (p.0.clone(), to_json_value(&p.1))).collect();
    let out = if pretty {
        toml::to_string_pretty(&m)
    } else {
        toml::to_string(&m)
    };
    out.map_err(|e| e.to_string())
}

/// Relies on toml::from_str into toml's table, which is backed by an
/// ordered map: iteration is sorted by key, so the entries come out sorted.
/// On any other text it fails, and the error carries the parser's message.
#[verifier::external_body]
pub fn toml_decode(text: &str) -> (r: Result<Vec<(String, DynamicValue)>, String>)
    ensures
        match r {
            Ok(v) => toml_parse_of(text@) == Some(entries_of(v@)) && sorted_strict(
                entries_of(v@),
            ),
            Err(_) => toml_parse_of(text@) is None,
        },
{
    match toml::from_str::<toml::Table>(text) {
        Ok(t) => Ok(t.into_iter().map(|(k, v)| (k, from_toml_value(v))).collect()),
        Err(e) => Err(e.to_string()),
    }
}

/// Relies on serde_yaml::to_string on a string-keyed map of JSON values,
/// which cannot fail for such values: the printed text is a function of
/// the entries alone, and parsing it returns the printed entries, each
/// value normalized, when they are sorted and JSON-clean (YAML parses
/// scalars just as the JSON value model holds them).
#[verifier::external_body]
pub fn yaml_encode(entries: &Vec<(String, DynamicValue)>) -> (r: Result<String, String>)
    ensures
        r is Ok,
        match r {
            Ok(s) => s@ == yaml_text_of(entries_of(entries@)) && (sorted_strict(
                entries_of(entries@),
            ) && clean_json_entries(entries_of(entries@)) ==> yaml_parse_of(s@) == Some(
                json_norm_entries(entries_of(entries@)),
            )),
            Err(_) => true,
        },
{
    let m: serde_json::Map<String, serde_json::Value> =
        entries.iter().map(|p| (p.0.clone(), to_json_value(&p.1))).collect();
    serde_yaml::to_string(&m).map_err(|e| e.to_string())
}

/// Relies on serde_yaml::from_str into serde_json's string-keyed map (the
/// same ordered map as in `json_decode`): the entries come out sorted by
/// key.  On any other text it fails, and the error carries the parser's
/// message.
#[verifier::external_body]
pub fn yaml_decode(text: &str) -> (r: Result<Vec<(String, DynamicValue)>, String>)
    ensures
        match r {
            Ok(v) => yaml_parse_of(text@) == Some(entries_of(v@)) && sorted_strict(
                entries_of(v@),
            ),
            Err(_) => yaml_parse_of(text@) is None,
        },
{
    match serde_yaml::from_str::<serde_json::Map<String, serde_json::Value>>(text) {
        Ok(m) => Ok(m.into_iter().map(|(k, v)| (k, from_json_value(v))).collect()),
        Err(e) => Err(e.to_string()),
    }
}

} // verus!
