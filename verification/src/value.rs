//! Dynamically typed values.
//!
//! A [`DynamicValue`] is a closed tagged union of the scalars and collections
//! that a context can hold: strings, signed and unsigned integers, floating
//! point numbers, booleans, null, and nested lists and string-keyed objects.
//! A floating point number is held as its canonical decimal text (the
//! shortest text that parses back to the same number), so that values stay
//! exactly comparable and round-trip through the textual formats.
//!
//! The mathematical model of a value is [`Val`], with character sequences in
//! place of strings; `v@` maps a `DynamicValue` to its model.

use vstd::prelude::*;

verus! {

broadcast use vstd::std_specs::vec::group_vec_axioms, vstd::seq::group_seq_axioms;

/// The model of a dynamic value: what a [`DynamicValue`] denotes.
pub enum Val {
    /// An absent or null value.
    Null,
    /// A boolean.
    Bool(bool),
    /// A signed integer.
    I64(i64),
    /// An unsigned integer.
    U64(u64),
    /// A floating point number, as its decimal text.
    Float(Seq<char>),
    /// A text string.
    Str(Seq<char>),
    /// A list of values.
    List(Seq<Val>),
    /// A string-keyed mapping, as a sequence of key-value entries.
    Object(Seq<(Seq<char>, Val)>),
}

/// A dynamically typed value that a context can hold.
#[derive(Debug, PartialEq)]
pub enum DynamicValue {
    /// An absent or null value.
    Null,
    /// A boolean.
    Bool(bool),
    /// A signed integer.
    I64(i64),
    /// An unsigned integer.
    U64(u64),
    /// A floating point number, held as its decimal text, such as `3.14`.
    Float(String),
    /// A text string.
    Str(String),
    /// A list of values.
    List(Vec<DynamicValue>),
    /// A string-keyed mapping, as a vector of key-value entries.
    Object(Vec<(String, DynamicValue)>),
}

/// The model denoted by a dynamic value.
pub open spec fn val_of(v: DynamicValue) -> Val
    decreases v,
{
    match v {
        DynamicValue::Null => Val::Null,
        DynamicValue::Bool(b) => Val::Bool(b),
        DynamicValue::I64(i) => Val::I64(i),
        DynamicValue::U64(u) => Val::U64(u),
        DynamicValue::Float(s) => Val::Float(s@),
        DynamicValue::Str(s) => Val::Str(s@),
        DynamicValue::List(xs) => Val::List(vals_of(xs@)),
        DynamicValue::Object(es) => Val::Object(entries_of(es@)),
    }
}

/// The models of a sequence of values, element by element.
pub open spec fn vals_of(xs: Seq<DynamicValue>) -> Seq<Val>
    decreases xs,
{
    if xs.len() == 0 {
        Seq::empty()
    } else {
        vals_of(xs.drop_last()).push(val_of(xs.last()))
    }
}

/// The models of a sequence of key-value entries, entry by entry.
pub open spec fn entries_of(es: Seq<(String, DynamicValue)>) -> Seq<(Seq<char>, Val)>
    decreases es,
{
    if es.len() == 0 {
        Seq::empty()
    } else {
        entries_of(es.drop_last()).push((es.last().0@, val_of(es.last().1)))
    }
}

/// `vals_of` maps the model over the sequence, element by element.
pub proof fn lemma_vals_of(xs: Seq<DynamicValue>)
    ensures
        vals_of(xs).len() == xs.len(),
        forall|i: int| 0 <= i < xs.len() ==> vals_of(xs)[i] == val_of(xs[i]),
    decreases xs.len(),
{
    if xs.len() > 0 {
        lemma_vals_of(xs.drop_last());
    }
}

/// `entries_of` maps the model over the entries, entry by entry.
pub proof fn lemma_entries_of(es: Seq<(String, DynamicValue)>)
    ensures
        entries_of(es).len() == es.len(),
        forall|i: int|
            0 <= i < es.len() ==> entries_of(es)[i] == (es[i].0@, val_of(es[i].1)),
    decreases es.len(),
{
    if es.len() > 0 {
        lemma_entries_of(es.drop_last());
    }
}

impl View for DynamicValue {
    type V = Val;

    open spec fn view(&self) -> Val {
        val_of(*self)
    }
}

impl DeepView for DynamicValue {
    type V = Val;

    open spec fn deep_view(&self) -> Val {
        val_of(*self)
    }
}

impl Clone for DynamicValue {
    /// An exact copy: the clone denotes the same model as the original.
    #[verifier::loop_isolation(false)]
    fn clone(&self) -> (res: DynamicValue)
        ensures
            res@ == self@,
        decreases *self,
    {
        match self {
            DynamicValue::Null => DynamicValue::Null,
            DynamicValue::Bool(b) => DynamicValue::Bool(*b),
            DynamicValue::I64(i) => DynamicValue::I64(*i),
            DynamicValue::U64(u) => DynamicValue::U64(*u),
            DynamicValue::Float(s) => DynamicValue::Float(s.clone()),
            DynamicValue::Str(s) => DynamicValue::Str(s.clone()),
            DynamicValue::List(xs) => {
                let mut out: Vec<DynamicValue> = Vec::new();
                let mut i: usize = 0;
                while i < xs.len()
                    invariant
                        i <= xs.len(),
                        out@.len() == i,
                        forall|j: int| 0 <= j < i ==> out@[j]@ == xs@[j]@,
                    decreases xs.len() - i,
                {
                    let x = &xs[i];
                    proof {
                        assert(*x == xs@[i as int]);
                        assert(*xs == self->List_0);
                        assert(decreases_to!(*self => self->List_0));
                        assert(decreases_to!(*xs => xs@));
                        assert(decreases_to!(xs@ => xs@[i as int]));
                        assert(decreases_to!(*self => *x));
                    }
                    out.push(x.clone());
                    i = i + 1;
                }
                proof {
                    lemma_vals_of(out@);
                    lemma_vals_of(xs@);
                    assert(vals_of(out@) =~= vals_of(xs@));
                }
                DynamicValue::List(out)
            },
            DynamicValue::Object(es) => {
                let mut out: Vec<(String, DynamicValue)> = Vec::new();
                let mut i: usize = 0;
                while i < es.len()
                    invariant
                        i <= es.len(),
                        out@.len() == i,
                        forall|j: int|
                            0 <= j < i ==> out@[j].0@ == es@[j].0@ && out@[j].1@ == es@[j].1@,
                    decreases es.len() - i,
                {
                    let e = &es[i];
                    proof {
                        assert(*e == es@[i as int]);
                        assert(*es == self->Object_0);
                        assert(decreases_to!(*self => self->Object_0));
                        assert(decreases_to!(*es => es@));
                        assert(decreases_to!(es@ => es@[i as int]));
                        assert(decreases_to!(es@[i as int] => es@[i as int].1));
                        assert(decreases_to!(*self => e.1));
                    }
                    let pair = (e.0.clone(), e.1.clone());
                    out.push(pair);
                    i = i + 1;
                }
                proof {
                    lemma_entries_of(out@);
                    lemma_entries_of(es@);
                    assert(entries_of(out@) =~= entries_of(es@));
                }
                DynamicValue::Object(out)
            },
        }
    }
}

} // verus!
