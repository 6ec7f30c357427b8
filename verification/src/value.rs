//! The values that a document can hold: scalars, and arrays of scalars.

use crate::json::{decimal, join, quoted, signed_decimal, text_atoms, Atom, JsonText};
use vstd::prelude::*;

verus! {

/// A JSON scalar. A double is held as its IEEE 754 bits.
#[derive(Debug)]
pub enum JsonScalar {
    Null,
    Bool(bool),
    Unsigned(u64),
    Signed(i64),
    Float(u64),
    Text(String),
}

/// The mathematical model of a `JsonScalar`.
pub enum ScalarModel {
    Null,
    Bool(bool),
    Unsigned(u64),
    Signed(i64),
    Float(u64),
    Text(Seq<char>),
}

/// A JSON value: a scalar, or an array of scalars.
#[derive(Debug)]
pub enum JsonValue {
    Scalar(JsonScalar),
    Array(Vec<JsonScalar>),
}

/// The mathematical model of a `JsonValue`.
pub enum ValueModel {
    Scalar(ScalarModel),
    Array(Seq<ScalarModel>),
}

impl ScalarModel {
    /// The JSON text of the scalar.
    pub open spec fn atoms(self) -> Seq<Atom> {
        match self {
            ScalarModel::Null => text_atoms("null"@),
            ScalarModel::Bool(b) => if b {
                text_atoms("true"@)
            } else {
                text_atoms("false"@)
            },
            ScalarModel::Unsigned(n) => text_atoms(decimal(n as nat)),
            ScalarModel::Signed(n) => text_atoms(signed_decimal(n as int)),
            ScalarModel::Float(bits) => seq![Atom::Float(bits)],
            ScalarModel::Text(s) => text_atoms(quoted(s)),
        }
    }
}

/// The JSON texts of the scalars of `items`.
pub open spec fn scalar_texts(items: Seq<ScalarModel>) -> Seq<Seq<Atom>> {
    Seq::new(items.len(), |i: int| items[i].atoms())
}

impl ValueModel {
    /// The JSON text of the value.
    pub open spec fn atoms(self) -> Seq<Atom> {
        match self {
            ValueModel::Scalar(s) => s.atoms(),
            ValueModel::Array(items) => text_atoms("["@) + join(
                scalar_texts(items),
                text_atoms(","@),
            ) + text_atoms("]"@),
        }
    }
}

/// The models of the scalars of `items`.
pub open spec fn scalar_models(items: Seq<JsonScalar>) -> Seq<ScalarModel> {
    Seq::new(items.len(), |i: int| items[i]@)
}

/// The scalars that stand for doubles with the given bits.
pub open spec fn float_models(bits: Seq<u64>) -> Seq<ScalarModel> {
    Seq::new(bits.len(), |i: int| ScalarModel::Float(bits[i]))
}

impl View for JsonScalar {
    type V = ScalarModel;

    open spec fn view(&self) -> ScalarModel {
        match self {
            JsonScalar::Null => ScalarModel::Null,
            JsonScalar::Bool(b) => ScalarModel::Bool(*b),
            JsonScalar::Unsigned(n) => ScalarModel::Unsigned(*n),
            JsonScalar::Signed(n) => ScalarModel::Signed(*n),
            JsonScalar::Float(bits) => ScalarModel::Float(*bits),
            JsonScalar::Text(s) => ScalarModel::Text(s@),
        }
    }
}

impl View for JsonValue {
    type V = ValueModel;

    open spec fn view(&self) -> ValueModel {
        match self {
            JsonValue::Scalar(s) => ValueModel::Scalar(s@),
            JsonValue::Array(items) => ValueModel::Array(scalar_models(items@)),
        }
    }
}

impl JsonScalar {
    /// A copy of the scalar.
    pub fn duplicate(&self) -> (r: JsonScalar)
        ensures
            r@ == self@,
    {
        match self {
            JsonScalar::Null => JsonScalar::Null,
            JsonScalar::Bool(b) => JsonScalar::Bool(*b),
            JsonScalar::Unsigned(n) => JsonScalar::Unsigned(*n),
            JsonScalar::Signed(n) => JsonScalar::Signed(*n),
            JsonScalar::Float(bits) => JsonScalar::Float(*bits),
            JsonScalar::Text(s) => JsonScalar::Text(s.clone()),
        }
    }

    /// Appends the JSON text of the scalar to `out`.
    pub fn render(&self, out: &mut JsonText)
        ensures
            final(out)@ == old(out)@ + self@.atoms(),
    {
        match self {
            JsonScalar::Null => out.push_str("null"),
            JsonScalar::Bool(b) => {
                if *b {
                    out.push_str("true")
                } else {
                    out.push_str("false")
                }
            },
            JsonScalar::Unsigned(n) => out.push_u64(*n),
            JsonScalar::Signed(n) => out.push_i64(*n),
            JsonScalar::Float(bits) => out.push_float(*bits),
            JsonScalar::Text(s) => out.push_quoted(s.as_str()),
        }
    }
}

/// Joining one more part: the separator stands before it unless it is the first.
pub proof fn lemma_join_push(parts: Seq<Seq<Atom>>, part: Seq<Atom>, sep: Seq<Atom>)
    ensures
        join(parts.push(part), sep) == if parts.len() == 0 {
            part
        } else {
            join(parts, sep) + sep + part
        },
{
    assert(parts.push(part).drop_last() =~= parts);
}

impl JsonValue {
    /// The array of the doubles with the given bits.
    pub fn floats(bits: &Vec<u64>) -> (r: JsonValue)
        ensures
            r@ == ValueModel::Array(float_models(bits@)),
    {
        let mut items: Vec<JsonScalar> = Vec::new();
        let mut i: usize = 0;
        while i < bits.len()
            invariant
                i <= bits.len(),
                items@.len() == i,
                forall|j: int| 0 <= j < i ==> (#[trigger] items@[j])@ == ScalarModel::Float(bits@[j]),
            decreases bits.len() - i,
        {
            items.push(JsonScalar::Float(bits[i]));
            i += 1;
        }
        proof {
            assert(scalar_models(items@) =~= float_models(bits@));
        }
        JsonValue::Array(items)
    }

    /// A copy of the value.
    pub fn duplicate(&self) -> (r: JsonValue)
        ensures
            r@ == self@,
    {
        match self {
            JsonValue::Scalar(s) => JsonValue::Scalar(s.duplicate()),
            JsonValue::Array(items) => {
                let mut copy: Vec<JsonScalar> = Vec::new();
                let mut i: usize = 0;
                while i < items.len()
                    invariant
                        i <= items.len(),
                        copy@.len() == i,
                        forall|j: int| 0 <= j < i ==> (#[trigger] copy@[j])@ == items@[j]@,
                    decreases items.len() - i,
                {
                    copy.push(items[i].duplicate());
                    i += 1;
                }
                proof {
                    assert(scalar_models(copy@) =~= scalar_models(items@));
                }
                JsonValue::Array(copy)
            },
        }
    }

    /// Appends the JSON text of the value to `out`.
    pub fn render(&self, out: &mut JsonText)
        ensures
            final(out)@ == old(out)@ + self@.atoms(),
    {
        match self {
            JsonValue::Scalar(s) => s.render(out),
            JsonValue::Array(items) => {
                out.push_str("[");
                let ghost models = scalar_models(items@);
                let ghost sep = text_atoms(","@);
                let ghost start = out@;
                let mut i: usize = 0;
                while i < items.len()
                    invariant
                        i <= items.len(),
                        models == scalar_models(items@),
                        sep == text_atoms(","@),
                        out@ == start + join(scalar_texts(models.take(i as int)), sep),
                    decreases items.len() - i,
                {
                    if i > 0 {
                        out.push_str(",");
                    }
                    items[i].render(out);
                    proof {
                        let before = scalar_texts(models.take(i as int));
                        assert(scalar_texts(models.take(i + 1)) =~= before.push(models[i as int].atoms()));
                        lemma_join_push(before, models[i as int].atoms(), sep);
                        assert(out@ =~= start + join(scalar_texts(models.take(i + 1)), sep));
                    }
                    i += 1;
                }
                proof {
                    assert(models.take(items@.len() as int) =~= models);
                }
                out.push_str("]");
                assert(out@ =~= old(out)@ + self@.atoms());
            },
        }
    }
}

} // verus!
