//! Validation outcomes: the numeric-criteria payload and the structured
//! mismatch reports the validator accumulates.
use vstd::prelude::*;

use crate::json::{
    Jn, Jv, JsonValue, spec_escape, spec_render, JsonNumber, escape_string, render_value,
};

verus! {

/// Mathematical model of the numeric criteria payload.
pub struct CriteriaModel {
    pub exclusive_minimum: Option<Jv>,
}

/// Numeric constraint payload: only `exclusiveMinimum`, carried as an
/// opaque JSON value and not yet enforced by validation.
#[derive(Debug, PartialEq)]
pub struct NumberCriteria {
    pub exclusive_minimum: Option<JsonValue>,
}

impl View for NumberCriteria {
    type V = CriteriaModel;

    open spec fn view(&self) -> CriteriaModel {
        CriteriaModel {
            exclusive_minimum: match &self.exclusive_minimum {
                Some(v) => Some(v@),
                None => None,
            },
        }
    }
}

/// The shapes a JSON value is sorted into when matched against a node.
#[derive(Debug, Clone, Copy, PartialEq, Eq, Structural)]
pub enum JsonKind {
    Null,
    Boolean,
    Integer,
    Number,
    Text,
    Array,
    Object,
}

/// Mathematical model of one validation error.
pub enum ErrModel {
    /// The value does not have the shape the node asks for.
    Mismatch { expected: JsonKind, found: Jv },
    /// A required key is absent from the object.
    MissingRequired { key: Seq<char> },
    /// The whole schema is the literal `false`, which matches nothing.
    FalseSchema,
    /// The schema's own root is a reference, which validation does not
    /// follow.
    UnsupportedRef,
    /// A reference inside the schema does not resolve against the root.
    UnresolvedRef { reference: Seq<char> },
}

/// One validation error: what was expected, and what stood in the input.
#[derive(Debug, PartialEq)]
pub enum ValidationError {
    Mismatch { expected: JsonKind, found: JsonValue },
    MissingRequired { key: String },
    FalseSchema,
    UnsupportedRef,
    UnresolvedRef { reference: String },
}

impl View for ValidationError {
    type V = ErrModel;

    open spec fn view(&self) -> ErrModel {
        match self {
            ValidationError::Mismatch { expected, found } => ErrModel::Mismatch {
                expected: *expected,
                found: found@,
            },
            ValidationError::MissingRequired { key } => ErrModel::MissingRequired { key: key@ },
            ValidationError::FalseSchema => ErrModel::FalseSchema,
            ValidationError::UnsupportedRef => ErrModel::UnsupportedRef,
            ValidationError::UnresolvedRef { reference } => ErrModel::UnresolvedRef {
                reference: reference@,
            },
        }
    }
}

impl DeepView for ValidationError {
    type V = ErrModel;

    open spec fn deep_view(&self) -> ErrModel {
        self.view()
    }
}

/// The word a mismatch report uses for each expected shape.
pub open spec fn spec_kind_word(k: JsonKind) -> Seq<char> {
    match k {
        JsonKind::Null => "null"@,
        JsonKind::Boolean => "boolean"@,
        JsonKind::Integer => "integer"@,
        JsonKind::Number => "number"@,
        JsonKind::Text => "string"@,
        JsonKind::Array => "array"@,
        JsonKind::Object => "object"@,
    }
}

/// The message text of one validation error.
pub open spec fn spec_message(e: ErrModel) -> Seq<char> {
    match e {
        ErrModel::Mismatch { expected, found } => if expected is Object {
            "invalid object"@
        } else {
            "expected "@ + spec_kind_word(expected) + " found "@ + spec_render(found)
        },
        ErrModel::MissingRequired { key } => "object doesn't contain the required property \""@
            + spec_escape(key) + "\""@,
        ErrModel::FalseSchema => "\"the scheme \"false\" will never validate"@,
        ErrModel::UnsupportedRef => "a $ref at the root of the schema is not supported"@,
        ErrModel::UnresolvedRef { reference } => "unresolved reference \""@ + spec_escape(
            reference,
        ) + "\""@,
    }
}

fn kind_word(k: JsonKind) -> (r: &'static str)
    ensures
        r@ == spec_kind_word(k),
{
    match k {
        JsonKind::Null => "null",
        JsonKind::Boolean => "boolean",
        JsonKind::Integer => "integer",
        JsonKind::Number => "number",
        JsonKind::Text => "string",
        JsonKind::Array => "array",
        JsonKind::Object => "object",
    }
}

impl ValidationError {
    /// The human-readable message for this error.
    pub fn message(&self) -> (r: String)
        ensures
            r@ == spec_message(self@),
    {
        match self {
            ValidationError::Mismatch { expected, found } => {
                match expected {
                    JsonKind::Object => String::from_str("invalid object"),
                    _ => {
                        let mut s = String::from_str("expected ");
                        s.append(kind_word(*expected));
                        s.append(" found ");
                        s.append(render_value(found).as_str());
                        s
                    },
                }
            },
            ValidationError::MissingRequired { key } => {
                let mut s = String::from_str("object doesn't contain the required property \"");
                s.append(escape_string(key.as_str()).as_str());
                s.append("\"");
                s
            },
            ValidationError::FalseSchema => String::from_str(
                "\"the scheme \"false\" will never validate",
            ),
            ValidationError::UnsupportedRef => String::from_str(
                "a $ref at the root of the schema is not supported",
            ),
            ValidationError::UnresolvedRef { reference } => {
                let mut s = String::from_str("unresolved reference \"");
                s.append(escape_string(reference.as_str()).as_str());
                s.append("\"");
                s
            },
        }
    }
}

/// The model of a list of validation errors.
pub open spec fn errs_view(s: Seq<ValidationError>) -> Seq<ErrModel> {
    Seq::new(
        s.len(),
        |i: int|
            if 0 <= i < s.len() {
                s[i]@
            } else {
                ErrModel::FalseSchema
            },
    )
}

/// The model of a joined error list splits into the two parts.
pub proof fn lemma_errs_view_concat(a: Seq<ValidationError>, b: Seq<ValidationError>)
    ensures
        errs_view(a + b) =~= errs_view(a) + errs_view(b),
{
    assert forall|j: int| 0 <= j < (a + b).len() implies errs_view(a + b)[j] == (errs_view(a)
        + errs_view(b))[j] by {
        if j < a.len() {
            assert((a + b)[j] == a[j]);
        } else {
            assert((a + b)[j] == b[j - a.len()]);
        }
    }
}

/// The messages of a list of errors, in order.
pub fn messages(errors: &Vec<ValidationError>) -> (r: Vec<String>)
    ensures
        r@.len() == errors@.len(),
        forall|i: int| 0 <= i < errors@.len() ==> r@[i]@ == spec_message(errors@[i]@),
{
    let mut out: Vec<String> = Vec::new();
    let mut i: usize = 0;
    while i < errors.len()
        invariant
            0 <= i <= errors.len(),
            out@.len() == i as int,
            forall|j: int| 0 <= j < i ==> out@[j]@ == spec_message(errors@[j]@),
        decreases errors.len() - i,
    {
        let m = errors[i].message();
        out.push(m);
        i = i + 1;
    }
    out
}

} // verus!
