//! The context abstraction and its concrete implementation.
//!
//! [`Contextualize`] is the contract of a key-value context: insert, get,
//! extend and snapshot, together with provided conversions from and to JSON,
//! TOML and YAML that any conforming implementation inherits.  The model of
//! a context is the mapping `ctx_map` from keys to value models.
//! [`ContextDump`] is the read-only export capability used to attach a
//! context to error or log records.  [`Context`] is the concrete, verified
//! implementation: a vector of entries sorted by key.

use vstd::prelude::*;

use crate::codec::clean_json_map;
use crate::codec::clean_toml_map;
use crate::codec::json_norm_map;
use crate::codec::json_parse_of;
use crate::codec::json_text_of;
use crate::codec::toml_norm_map;
use crate::codec::toml_parse_of;
use crate::codec::toml_text_of;
use crate::codec::yaml_parse_of;
use crate::codec::yaml_text_of;
use crate::codec::json_decode;
use crate::codec::json_encode;
use crate::codec::toml_decode;
use crate::codec::toml_encode;
use crate::codec::yaml_decode;
use crate::codec::yaml_encode;
use crate::entries::entries_clone;
use crate::entries::entries_get;
use crate::entries::entries_insert;
use crate::entries::kv_map;
use crate::entries::lemma_kv_map_domain;
use crate::entries::lemma_kv_map_take_step;
use crate::entries::sorted_strict;
use crate::error::convert_failure;
use crate::laws::canon_entries;
use crate::laws::lemma_canon_entries;
use crate::error::ContextError;
use crate::error::ErrorKind;
use crate::value::entries_of;
use crate::value::lemma_entries_of;
use crate::value::DynamicValue;
use crate::value::Val;

verus! {

broadcast use vstd::std_specs::vec::group_vec_axioms, vstd::seq::group_seq_axioms;

/// The capability of exporting a snapshot of key-value data, sorted by key,
/// for read-only use in error or log records.
pub trait ContextDump {
    /// The mapping that a dump presents.
    spec fn dump_map(&self) -> Map<Seq<char>, Val>;

    /// Export the entries, sorted by key.
    fn dump(&self) -> (r: Vec<(String, DynamicValue)>)
        ensures
            sorted_strict(entries_of(r@)),
            kv_map(entries_of(r@)) == self.dump_map(),
    ;
}

/// A key-value context: a mapping from string keys to dynamic values, with
/// conversions from and to JSON, TOML and YAML provided once for every
/// implementation.
pub trait Contextualize: Sized {
    /// The mapping the context holds.
    spec fn ctx_map(&self) -> Map<Seq<char>, Val>;

    /// A new, empty context.
    fn new() -> (r: Self)
        ensures
            r.ctx_map() == Map::<Seq<char>, Val>::empty(),
    ;

    /// Insert a key-value pair; an existing key is overwritten.
    fn insert(&mut self, k: String, v: DynamicValue)
        ensures
            final(self).ctx_map() == old(self).ctx_map().insert(k@, v@),
    ;

    /// Borrow the value at a key, or nothing when the key is absent.
    fn get(&self, k: &str) -> (r: Option<&DynamicValue>)
        ensures
            match r {
                Some(v) => self.ctx_map().contains_key(k@) && self.ctx_map()[k@] == v@,
                None => !self.ctx_map().contains_key(k@),
            },
    ;

    /// Merge entries in, read left to right; an incoming value wins over an
    /// existing one.
    fn extend(&mut self, data: Vec<(String, DynamicValue)>)
        ensures
            final(self).ctx_map() == old(self).ctx_map().union_prefer_right(
                kv_map(entries_of(data@)),
            ),
    ;

    /// An independent copy of the full mapping, as entries sorted by key.
    fn inner(&self) -> (r: Vec<(String, DynamicValue)>)
        ensures
            sorted_strict(entries_of(r@)),
            kv_map(entries_of(r@)) == self.ctx_map(),
    ;

    /// Test whether every value held by the context survives a JSON (and
    /// YAML) round trip: printing and parsing back then yields the same
    /// mapping with each value normalized.
    #[verifier::loop_isolation(false)]
    fn is_json_clean(&self) -> (r: bool)
        ensures
            r == clean_json_map(self.ctx_map()),
    {
        let snapshot = self.inner();
        let ghost ev = entries_of(snapshot@);
        proof {
            crate::codec::lemma_clean_json_entries_map(ev);
            crate::codec::lemma_clean_json_entries_elts(ev);
            lemma_entries_of(snapshot@);
        }
        let n = snapshot.len();
        let mut i: usize = 0;
        while i < n
            invariant
                n == snapshot@.len(),
                i <= n,
                forall|j: int| 0 <= j < i ==> crate::codec::clean_json(ev[j].1),
            decreases n - i,
        {
            if !snapshot[i].1.is_json_clean() {
                proof {
                    assert(ev[i as int].1 == snapshot@[i as int].1@);
                }
                return false;
            }
            i = i + 1;
        }
        true
    }

    /// Test whether every value held by the context survives a TOML round
    /// trip: printing and parsing back then yields the same mapping with
    /// each value normalized.
    #[verifier::loop_isolation(false)]
    fn is_toml_clean(&self) -> (r: bool)
        ensures
            r == clean_toml_map(self.ctx_map()),
    {
        let snapshot = self.inner();
        let ghost ev = entries_of(snapshot@);
        proof {
            crate::codec::lemma_clean_toml_entries_map(ev);
            crate::codec::lemma_clean_toml_entries_elts(ev);
            lemma_entries_of(snapshot@);
        }
        let n = snapshot.len();
        let mut i: usize = 0;
        while i < n
            invariant
                n == snapshot@.len(),
                i <= n,
                forall|j: int| 0 <= j < i ==> crate::codec::clean_toml(ev[j].1),
            decreases n - i,
        {
            if !snapshot[i].1.is_toml_clean() {
                proof {
                    assert(ev[i as int].1 == snapshot@[i as int].1@);
                }
                return false;
            }
            i = i + 1;
        }
        true
    }

    /// Build a context from a JSON object text.  A text that does not parse
    /// as a string-keyed JSON object yields a JSON-tagged error, never a
    /// context.
    fn from_json(json: &str) -> (r: Result<Self, ContextError>)
        ensures
            match r {
                Ok(c) => json_parse_of(json@) matches Some(es) && c.ctx_map() == kv_map(es),
                Err(e) => json_parse_of(json@) is None && e.kind_spec() == ErrorKind::Json
                    && e.message_spec() == "Failed to load context"@ && sorted_strict(
                    e.details_spec(),
                ) && kv_map(e.details_spec()).contains_key("origin"@) && kv_map(e.details_spec())[
                    "origin"@
                ] is Str && kv_map(e.details_spec()).remove("origin"@) == Map::<
                    Seq<char>,
                    Val,
                >::empty(),
            },
    {
        match json_decode(json) {
            Ok(entries) => {
                let mut c = Self::new();
                c.extend(entries);
                proof {
                    assert(Map::<Seq<char>, Val>::empty().union_prefer_right(
                        kv_map(entries_of(entries@)),
                    ) =~= kv_map(entries_of(entries@)));
                }
                Ok(c)
            },
            Err(origin) => {
                let details: Vec<(String, DynamicValue)> = Vec::new();
                let ghost dv = entries_of(details@);
                proof {
                    lemma_entries_of(details@);
                    assert(dv =~= Seq::<(Seq<char>, Val)>::empty());
                }
                let e = convert_failure(
                    ErrorKind::Json,
                    origin,
                    Some("Failed to load context".to_owned()),
                    details,
                );
                proof {
                    assert(kv_map(e.details_spec()).remove("origin"@) =~= Map::<
                        Seq<char>,
                        Val,
                    >::empty());
                }
                Err(e)
            },
        }
    }

    /// Print the context as a JSON object: compact, or pretty-printed over
    /// several lines.  Printing always succeeds, and the text is a function
    /// of the mapping and the flag alone.  Compact output holds no line
    /// break; pretty output of a non-empty context does.  When every value
    /// is JSON-clean, parsing the printed text yields this context's
    /// mapping with each value normalized.
    fn to_json(&self, pretty: bool) -> (r: Result<String, ContextError>)
        ensures
            r is Ok,
            match r {
                Ok(s) => s@ == json_text_of(canon_entries(self.ctx_map()), pretty) && (!pretty
                    ==> !s@.contains('\n')) && ((pretty && exists|k: Seq<char>|
                    self.ctx_map().contains_key(k)) ==> s@.contains('\n')) && (clean_json_map(
                    self.ctx_map(),
                ) ==> (json_parse_of(s@) matches Some(es) && sorted_strict(es) && kv_map(es)
                    == json_norm_map(self.ctx_map()))),
                Err(e) => e.kind_spec() == ErrorKind::Json && e.message_spec()
                    == "Failed to dump context"@,
            },
    {
        let snapshot = self.inner();
        proof {
            crate::codec::lemma_clean_json_entries_map(entries_of(snapshot@));
            crate::codec::lemma_json_norm_entries_map(entries_of(snapshot@));
            lemma_canon_entries(entries_of(snapshot@));
            if exists|k: Seq<char>| self.ctx_map().contains_key(k) {
                let k = choose|k: Seq<char>| self.ctx_map().contains_key(k);
                lemma_kv_map_domain(entries_of(snapshot@), k);
                lemma_entries_of(snapshot@);
            }
        }
        match json_encode(&snapshot, pretty) {
            Ok(s) => Ok(s),
            Err(origin) => Err(
                convert_failure(
                    ErrorKind::Json,
                    origin,
                    Some("Failed to dump context".to_owned()),
                    self.inner(),
                ),
            ),
        }
    }

    /// Build a context from a TOML document text.  A text that is not a
    /// well-formed TOML document yields a TOML-tagged error, never a
    /// context.
    fn from_toml(toml: &str) -> (r: Result<Self, ContextError>)
        ensures
            match r {
                Ok(c) => toml_parse_of(toml@) matches Some(es) && c.ctx_map() == kv_map(es),
                Err(e) => toml_parse_of(toml@) is None && e.kind_spec() == ErrorKind::Toml
                    && e.message_spec() == "Failed to load context"@ && sorted_strict(
                    e.details_spec(),
                ) && kv_map(e.details_spec()).contains_key("origin"@) && kv_map(e.details_spec())[
                    "origin"@
                ] is Str && kv_map(e.details_spec()).remove("origin"@) == Map::<
                    Seq<char>,
                    Val,
                >::empty(),
            },
    {
        match toml_decode(toml) {
            Ok(entries) => {
                let mut c = Self::new();
                c.extend(entries);
                proof {
                    assert(Map::<Seq<char>, Val>::empty().union_prefer_right(
                        kv_map(entries_of(entries@)),
                    ) =~= kv_map(entries_of(entries@)));
                }
                Ok(c)
            },
            Err(origin) => {
                let details: Vec<(String, DynamicValue)> = Vec::new();
                let ghost dv = entries_of(details@);
                proof {
                    lemma_entries_of(details@);
                    assert(dv =~= Seq::<(Seq<char>, Val)>::empty());
                }
                let e = convert_failure(
                    ErrorKind::Toml,
                    origin,
                    Some("Failed to load context".to_owned()),
                    details,
                );
                proof {
                    assert(kv_map(e.details_spec()).remove("origin"@) =~= Map::<
                        Seq<char>,
                        Val,
                    >::empty());
                }
                Err(e)
            },
        }
    }

    /// Print the context as a TOML document: plain, or pretty-printed.
    /// Whether printing succeeds, and with which text, is a function of
    /// the mapping and the flag alone; on a TOML-clean context it
    /// succeeds.  Pretty output of a non-empty context holds a line break.
    /// When every value is TOML-clean, parsing the printed text yields
    /// this context's mapping with each value normalized.
    fn to_toml(&self, pretty: bool) -> (r: Result<String, ContextError>)
        ensures
            clean_toml_map(self.ctx_map()) ==> r is Ok,
            match r {
                Ok(s) => toml_text_of(canon_entries(self.ctx_map()), pretty) == Some(s@) && ((
                pretty && exists|k: Seq<char>| self.ctx_map().contains_key(k)) ==> s@.contains(
                    '\n',
                )) && (clean_toml_map(self.ctx_map()) ==> (toml_parse_of(s@) matches Some(es)
                    && sorted_strict(es) && kv_map(es) == toml_norm_map(self.ctx_map()))),
                Err(e) => toml_text_of(canon_entries(self.ctx_map()), pretty) is None
                    && e.kind_spec() == ErrorKind::Toml && e.message_spec()
                    == "Failed to dump context"@ && sorted_strict(e.details_spec()) && kv_map(
                    e.details_spec(),
                ).contains_key("origin"@) && kv_map(e.details_spec())["origin"@] is Str && kv_map(
                    e.details_spec(),
                ).remove("origin"@) == self.ctx_map().remove("origin"@),
            },
    {
        let snapshot = self.inner();
        proof {
            crate::codec::lemma_clean_toml_entries_map(entries_of(snapshot@));
            crate::codec::lemma_toml_norm_entries_map(entries_of(snapshot@));
            lemma_canon_entries(entries_of(snapshot@));
            if exists|k: Seq<char>| self.ctx_map().contains_key(k) {
                let k = choose|k: Seq<char>| self.ctx_map().contains_key(k);
                lemma_kv_map_domain(entries_of(snapshot@), k);
                lemma_entries_of(snapshot@);
            }
        }
        match toml_encode(&snapshot, pretty) {
            Ok(s) => Ok(s),
            Err(origin) => {
                let details = self.inner();
                let ghost dv2 = entries_of(details@);
                let e = convert_failure(
                    ErrorKind::Toml,
                    origin,
                    Some("Failed to dump context".to_owned()),
                    details,
                );
                proof {
                    assert(kv_map(e.details_spec()).remove("origin"@) =~= self.ctx_map().remove(
                        "origin"@,
                    ));
                }
                Err(e)
            },
        }
    }

    /// Build a context from a YAML document text.  A text that does not
    /// parse as a string-keyed mapping yields a YAML-tagged error, never a
    /// context.
    fn from_yaml(yaml: &str) -> (r: Result<Self, ContextError>)
        ensures
            match r {
                Ok(c) => yaml_parse_of(yaml@) matches Some(es) && c.ctx_map() == kv_map(es),
                Err(e) => yaml_parse_of(yaml@) is None && e.kind_spec() == ErrorKind::Yaml
                    && e.message_spec() == "Failed to load context"@ && sorted_strict(
                    e.details_spec(),
                ) && kv_map(e.details_spec()).contains_key("origin"@) && kv_map(e.details_spec())[
                    "origin"@
                ] is Str && kv_map(e.details_spec()).remove("origin"@) == Map::<
                    Seq<char>,
                    Val,
                >::empty(),
            },
    {
        match yaml_decode(yaml) {
            Ok(entries) => {
                let mut c = Self::new();
                c.extend(entries);
                proof {
                    assert(Map::<Seq<char>, Val>::empty().union_prefer_right(
                        kv_map(entries_of(entries@)),
                    ) =~= kv_map(entries_of(entries@)));
                }
                Ok(c)
            },
            Err(origin) => {
                let details: Vec<(String, DynamicValue)> = Vec::new();
                let ghost dv = entries_of(details@);
                proof {
                    lemma_entries_of(details@);
                    assert(dv =~= Seq::<(Seq<char>, Val)>::empty());
                }
                let e = convert_failure(
                    ErrorKind::Yaml,
                    origin,
                    Some("Failed to load context".to_owned()),
                    details,
                );
                proof {
                    assert(kv_map(e.details_spec()).remove("origin"@) =~= Map::<
                        Seq<char>,
                        Val,
                    >::empty());
                }
                Err(e)
            },
        }
    }

    /// Print the context as a YAML document, in YAML's one canonical
    /// rendering; printing always succeeds, and the text is a function of
    /// the mapping alone.  When every value is JSON-clean (YAML holds
    /// scalars just as JSON does), parsing the printed text yields this
    /// context's mapping with each value normalized.
    fn to_yaml(&self) -> (r: Result<String, ContextError>)
        ensures
            r is Ok,
            match r {
                Ok(s) => s@ == yaml_text_of(canon_entries(self.ctx_map())) && (clean_json_map(
                    self.ctx_map(),
                ) ==> (yaml_parse_of(s@) matches Some(es) && sorted_strict(es) && kv_map(es)
                    == json_norm_map(self.ctx_map()))),
                Err(e) => e.kind_spec() == ErrorKind::Yaml && e.message_spec()
                    == "Failed to dump context"@,
            },
    {
        let snapshot = self.inner();
        proof {
            crate::codec::lemma_clean_json_entries_map(entries_of(snapshot@));
            crate::codec::lemma_json_norm_entries_map(entries_of(snapshot@));
            lemma_canon_entries(entries_of(snapshot@));
        }
        match yaml_encode(&snapshot) {
            Ok(s) => Ok(s),
            Err(origin) => Err(
                convert_failure(
                    ErrorKind::Yaml,
                    origin,
                    Some("Failed to dump context".to_owned()),
                    self.inner(),
                ),
            ),
        }
    }
}

/// The concrete context: a vector of key-value entries, sorted by key.
#[derive(Debug)]
pub struct Context {
    data: Vec<(String, DynamicValue)>,
}

impl Context {
    /// The entries are always sorted by key, with no repeated key.
    #[verifier::type_invariant]
    spec fn wf(self) -> bool {
        sorted_strict(entries_of(self.data@))
    }
}

impl Contextualize for Context {
    closed spec fn ctx_map(&self) -> Map<Seq<char>, Val> {
        kv_map(entries_of(self.data@))
    }

    fn new() -> (r: Self) {
        let r = Context { data: Vec::new() };
        proof {
            lemma_entries_of(r.data@);
            assert(entries_of(r.data@) =~= Seq::<(Seq<char>, Val)>::empty());
            assert(kv_map(entries_of(r.data@)) =~= Map::<Seq<char>, Val>::empty());
        }
        r
    }

    fn insert(&mut self, k: String, v: DynamicValue) {
        proof {
            use_type_invariant(&*self);
        }
        let mut d: Vec<(String, DynamicValue)> = Vec::new();
        proof {
            lemma_entries_of(d@);
        }
        core::mem::swap(&mut d, &mut self.data);
        entries_insert(&mut d, k, v);
        core::mem::swap(&mut d, &mut self.data);
    }

    fn get(&self, k: &str) -> (r: Option<&DynamicValue>) {
        proof {
            use_type_invariant(self);
        }
        entries_get(&self.data, k)
    }

    fn extend(&mut self, data: Vec<(String, DynamicValue)>) {
        proof {
            use_type_invariant(&*self);
        }
        let mut d: Vec<(String, DynamicValue)> = Vec::new();
        proof {
            lemma_entries_of(d@);
        }
        core::mem::swap(&mut d, &mut self.data);
        let ghost dv = entries_of(data@);
        let ghost m0 = kv_map(entries_of(d@));
        proof {
            lemma_entries_of(data@);
            assert(dv.take(0) =~= Seq::<(Seq<char>, Val)>::empty());
            assert(m0.union_prefer_right(kv_map(dv.take(0))) =~= m0);
        }
        let n = data.len();
        let mut i: usize = 0;
        while i < n
            invariant
                n == data@.len(),
                i <= n,
                dv == entries_of(data@),
                dv.len() == n,
                sorted_strict(entries_of(d@)),
                kv_map(entries_of(d@)) == m0.union_prefer_right(kv_map(dv.take(i as int))),
            decreases n - i,
        {
            let k = data[i].0.clone();
            let v = data[i].1.clone();
            proof {
                lemma_entries_of(data@);
                assert(dv[i as int] == (data@[i as int].0@, crate::value::val_of(
                    data@[i as int].1,
                )));
            }
            entries_insert(&mut d, k, v);
            proof {
                lemma_kv_map_take_step(dv, i as int);
                assert(m0.union_prefer_right(kv_map(dv.take(i as int))).insert(
                    dv[i as int].0,
                    dv[i as int].1,
                ) =~= m0.union_prefer_right(
                    kv_map(dv.take(i as int)).insert(dv[i as int].0, dv[i as int].1),
                ));
            }
            i = i + 1;
        }
        proof {
            assert(dv.take(n as int) =~= dv);
        }
        core::mem::swap(&mut d, &mut self.data);
    }

    fn inner(&self) -> (r: Vec<(String, DynamicValue)>) {
        proof {
            use_type_invariant(self);
        }
        entries_clone(&self.data)
    }
}

impl Default for Context {
    /// The default context is the empty one.
    fn default() -> (r: Context)
        ensures
            r.ctx_map() == Map::<Seq<char>, Val>::empty(),
    {
        Context::new()
    }
}

impl ContextDump for Context {
    /// Dumping presents exactly the mapping the context holds: `dump`
    /// returns the same entries as `inner`.
    open spec fn dump_map(&self) -> Map<Seq<char>, Val> {
        self.ctx_map()
    }

    fn dump(&self) -> (r: Vec<(String, DynamicValue)>) {
        proof {
            use_type_invariant(self);
        }
        entries_clone(&self.data)
    }
}

} // verus!
