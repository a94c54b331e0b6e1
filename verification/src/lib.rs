//! A verified key-value context library.
//!
//! A `Context` is an ordered mapping from string keys to dynamically typed
//! values.  Keys are unique and kept in ascending lexicographic order;
//! inserting an existing key overwrites its value.  A context can be
//! serialized to and parsed from JSON, TOML and YAML; every parse failure is
//! reported as a structured, format-tagged error.

mod codec;
mod context;
mod entries;
mod error;
mod keyorder;
mod laws;
mod value;

pub use codec::clean_json;
pub use codec::clean_json_map;
pub use codec::clean_toml;
pub use codec::clean_toml_map;
pub use codec::float_canon;
pub use codec::float_shaped;
pub use codec::json_norm;
pub use codec::json_norm_entries;
pub use codec::json_norm_list;
pub use codec::json_norm_map;
pub use codec::json_text_of;
pub use codec::toml_norm;
pub use codec::toml_norm_entries;
pub use codec::toml_norm_list;
pub use codec::toml_norm_map;
pub use codec::toml_text_of;
pub use codec::yaml_text_of;
pub use codec::json_parse_of;
pub use codec::json_reemit;
pub use codec::toml_parse_of;
pub use codec::yaml_parse_of;
pub use context::Context;
pub use context::ContextDump;
pub use context::Contextualize;
pub use entries::entries_clone;
pub use entries::entries_find;
pub use entries::entries_get;
pub use entries::entries_insert;
pub use entries::has_key;
pub use entries::kv_map;
pub use entries::lemma_kv_map_domain;
pub use entries::lemma_kv_map_get;
pub use entries::sorted_strict;
pub use error::convert_failure;
pub use error::ContextError;
pub use error::ErrorKind;
pub use error::UnExpectedError;
pub use keyorder::key_cmp;
pub use keyorder::key_lt;
pub use keyorder::lemma_key_lt_asymmetric;
pub use keyorder::lemma_key_lt_connex;
pub use keyorder::lemma_key_lt_irreflexive;
pub use keyorder::lemma_key_lt_transitive;
pub use laws::canon_entries;
pub use laws::json_round_trip;
pub use laws::lemma_canon_entries;
pub use laws::lemma_extend_prefer_incoming;
pub use laws::lemma_insert_overwrite;
pub use laws::lemma_sorted_entries_canonical;
pub use laws::toml_round_trip;
pub use laws::yaml_round_trip;
pub use value::val_of;
pub use value::DynamicValue;
pub use value::Val;
