//! Structured, format-tagged errors.
//!
//! Failures are classified by a small static registry of kinds: a generic
//! kind for failures of the context library itself, and one kind per textual
//! format.  Each kind carries a symbolic name, an HTTP-style numeric code and
//! a human-readable description.  An error built from a kind can carry an
//! override message and a snapshot of the context's entries at the time of
//! the failure.

use vstd::prelude::*;

use crate::entries::entries_insert;
use crate::entries::kv_map;
use crate::entries::sorted_strict;
use crate::value::entries_of;
use crate::value::DynamicValue;
use crate::value::Val;

verus! {

/// The registered error categories.
#[derive(Clone, Copy, Debug, PartialEq, Eq, Structural)]
pub enum ErrorKind {
    /// A failure of the context library itself, tied to no format.
    Generic,
    /// A failure while parsing or producing JSON.
    Json,
    /// A failure while parsing or producing TOML.
    Toml,
    /// A failure while parsing or producing YAML.
    Yaml,
}

impl ErrorKind {
    /// The symbolic name of the kind.
    pub open spec fn name_spec(self) -> Seq<char> {
        match self {
            ErrorKind::Generic => "GenericContextError"@,
            ErrorKind::Json => "JsonError"@,
            ErrorKind::Toml => "TomlError"@,
            ErrorKind::Yaml => "YamlError"@,
        }
    }

    /// The numeric, HTTP-style code of the kind: a format error is the
    /// caller's fault, a generic error is the library's.
    pub open spec fn code_spec(self) -> u16 {
        match self {
            ErrorKind::Generic => 500,
            ErrorKind::Json => 400,
            ErrorKind::Toml => 400,
            ErrorKind::Yaml => 400,
        }
    }

    /// The human-readable description of the kind.
    pub open spec fn description_spec(self) -> Seq<char> {
        match self {
            ErrorKind::Generic => "Generic context error"@,
            ErrorKind::Json => "Invalid JSON data"@,
            ErrorKind::Toml => "Invalid TOML data"@,
            ErrorKind::Yaml => "Invalid YAML data"@,
        }
    }

    /// The symbolic name of the kind.
    pub fn name(&self) -> (r: String)
        ensures
            r@ == self.name_spec(),
    {
        match self {
            ErrorKind::Generic => "GenericContextError".to_owned(),
            ErrorKind::Json => "JsonError".to_owned(),
            ErrorKind::Toml => "TomlError".to_owned(),
            ErrorKind::Yaml => "YamlError".to_owned(),
        }
    }

    /// The numeric code of the kind.
    pub fn code(&self) -> (r: u16)
        ensures
            r == self.code_spec(),
    {
        match self {
            ErrorKind::Generic => 500,
            ErrorKind::Json => 400,
            ErrorKind::Toml => 400,
            ErrorKind::Yaml => 400,
        }
    }

    /// The human-readable description of the kind.
    pub fn description(&self) -> (r: String)
        ensures
            r@ == self.description_spec(),
    {
        match self {
            ErrorKind::Generic => "Generic context error".to_owned(),
            ErrorKind::Json => "Invalid JSON data".to_owned(),
            ErrorKind::Toml => "Invalid TOML data".to_owned(),
            ErrorKind::Yaml => "Invalid YAML data".to_owned(),
        }
    }
}

/// A structured error: a kind, an optional override message, and a snapshot
/// of the context's entries at the time of the failure.
#[derive(Debug)]
pub struct ContextError {
    kind: ErrorKind,
    message: Option<String>,
    details: Vec<(String, DynamicValue)>,
}

impl ContextError {
    /// The kind the error was built from.
    pub closed spec fn kind_spec(&self) -> ErrorKind {
        self.kind
    }

    /// The message of the error: the override if one was set, else the
    /// description of its kind.
    pub closed spec fn message_spec(&self) -> Seq<char> {
        match self.message {
            Some(m) => m@,
            None => self.kind.description_spec(),
        }
    }

    /// The details attached to the error, as modelled entries.
    pub closed spec fn details_spec(&self) -> Seq<(Seq<char>, Val)> {
        entries_of(self.details@)
    }

    /// A fresh error of the given kind, with no override message and no
    /// details.
    pub fn new(kind: ErrorKind) -> (r: ContextError)
        ensures
            r.kind_spec() == kind,
            r.message_spec() == kind.description_spec(),
            r.details_spec() == Seq::<(Seq<char>, Val)>::empty(),
    {
        let r = ContextError { kind, message: None, details: Vec::new() };
        proof {
            crate::value::lemma_entries_of(r.details@);
            assert(entries_of(r.details@) =~= Seq::<(Seq<char>, Val)>::empty());
        }
        r
    }

    /// The same error with the message replaced.
    pub fn with_message(self, message: String) -> (r: ContextError)
        ensures
            r.kind_spec() == self.kind_spec(),
            r.message_spec() == message@,
            r.details_spec() == self.details_spec(),
    {
        ContextError { kind: self.kind, message: Some(message), details: self.details }
    }

    /// The same error with the details replaced.
    pub fn with_details(self, details: Vec<(String, DynamicValue)>) -> (r: ContextError)
        ensures
            r.kind_spec() == self.kind_spec(),
            r.message_spec() == self.message_spec(),
            r.details_spec() == entries_of(details@),
    {
        ContextError { kind: self.kind, message: self.message, details }
    }

    /// The kind the error was built from.
    pub fn kind(&self) -> (r: ErrorKind)
        ensures
            r == self.kind_spec(),
    {
        self.kind
    }

    /// The numeric code of the error's kind.
    pub fn code(&self) -> (r: u16)
        ensures
            r == self.kind_spec().code_spec(),
    {
        self.kind.code()
    }

    /// The message of the error.
    pub fn message(&self) -> (r: String)
        ensures
            r@ == self.message_spec(),
    {
        match &self.message {
            Some(m) => m.clone(),
            None => self.kind.description(),
        }
    }

    /// The details attached to the error.
    pub fn details(&self) -> (r: &Vec<(String, DynamicValue)>)
        ensures
            entries_of(r@) == self.details_spec(),
    {
        &self.details
    }
}

/// A generic, unexpected failure of the context library: the builder of
/// errors of the generic kind.
pub struct UnExpectedError;

impl UnExpectedError {
    /// A fresh error of the generic kind.
    pub fn new() -> (r: ContextError)
        ensures
            r.kind_spec() == ErrorKind::Generic,
            r.message_spec() == ErrorKind::Generic.description_spec(),
            r.details_spec() == Seq::<(Seq<char>, Val)>::empty(),
    {
        ContextError::new(ErrorKind::Generic)
    }
}

/// Build a format-tagged error from an underlying failure.
///
/// `origin` is the underlying library's own message.  With no override
/// message, it becomes the error's message.  With an override, the override
/// becomes the message and the underlying message is kept in the details
/// under the key `origin`.
pub fn convert_failure(
    kind: ErrorKind,
    origin: String,
    text: Option<String>,
    details: Vec<(String, DynamicValue)>,
) -> (r: ContextError)
    requires
        sorted_strict(entries_of(details@)),
    ensures
        r.kind_spec() == kind,
        match text {
            Some(t) => r.message_spec() == t@ && sorted_strict(r.details_spec()) && kv_map(
                r.details_spec(),
            ) == kv_map(entries_of(details@)).insert("origin"@, Val::Str(origin@)),
            None => r.message_spec() == origin@ && r.details_spec() == entries_of(details@),
        },
{
    match text {
        Some(t) => {
            let mut d = details;
            entries_insert(&mut d, "origin".to_owned(), DynamicValue::Str(origin));
            ContextError { kind, message: Some(t), details: d }
        },
        None => ContextError { kind, message: Some(origin), details },
    }
}

} // verus!
