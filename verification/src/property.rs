//! The schema-node grammar: a node is a concrete instance description or a
//! reference to another node.
//!
//! Nodes are built from JSON values. An object with a `$ref` entry is a
//! reference; otherwise its `type` entry picks the instance shape. The same
//! grammar serializes back to JSON values, and parsing what was serialized
//! returns the original node.
use vstd::prelude::*;

use crate::error::{Error, ErrorKind};
use crate::json::{Jv, JsonValue, spec_lookup_idx, lemma_lookup_idx, lemma_idx_none, lemma_idx_at, lemma_entry_decreases, entries_view, lookup, string_eq, arr_elems, lemma_idx_concat_left, lemma_idx_concat_right};
use crate::validation::{CriteriaModel, NumberCriteria};
use crate::SchemaModel;

verus! {

/// The fixed keywords of the grammar are pairwise distinct.
pub proof fn lemma_keys()
    ensures
        "type"@ != "properties"@,
        "type"@ != "required"@,
        "type"@ != "items"@,
        "type"@ != "exclusiveMinimum"@,
        "type"@ != "$ref"@,
        "type"@ != "$id"@,
        "type"@ != "$schema"@,
        "type"@ != "description"@,
        "type"@ != "dependencies"@,
        "type"@ != "definitions"@,
        "type"@ != "null"@,
        "type"@ != "boolean"@,
        "type"@ != "string"@,
        "type"@ != "integer"@,
        "type"@ != "number"@,
        "type"@ != "object"@,
        "type"@ != "array"@,
        "properties"@ != "required"@,
        "properties"@ != "items"@,
        "properties"@ != "exclusiveMinimum"@,
        "properties"@ != "$ref"@,
        "properties"@ != "$id"@,
        "properties"@ != "$schema"@,
        "properties"@ != "description"@,
        "properties"@ != "dependencies"@,
        "properties"@ != "definitions"@,
        "properties"@ != "null"@,
        "properties"@ != "boolean"@,
        "properties"@ != "string"@,
        "properties"@ != "integer"@,
        "properties"@ != "number"@,
        "properties"@ != "object"@,
        "properties"@ != "array"@,
        "required"@ != "items"@,
        "required"@ != "exclusiveMinimum"@,
        "required"@ != "$ref"@,
        "required"@ != "$id"@,
        "required"@ != "$schema"@,
        "required"@ != "description"@,
        "required"@ != "dependencies"@,
        "required"@ != "definitions"@,
        "required"@ != "null"@,
        "required"@ != "boolean"@,
        "required"@ != "string"@,
        "required"@ != "integer"@,
        "required"@ != "number"@,
        "required"@ != "object"@,
        "required"@ != "array"@,
        "items"@ != "exclusiveMinimum"@,
        "items"@ != "$ref"@,
        "items"@ != "$id"@,
        "items"@ != "$schema"@,
        "items"@ != "description"@,
        "items"@ != "dependencies"@,
        "items"@ != "definitions"@,
        "items"@ != "null"@,
        "items"@ != "boolean"@,
        "items"@ != "string"@,
        "items"@ != "integer"@,
        "items"@ != "number"@,
        "items"@ != "object"@,
        "items"@ != "array"@,
        "exclusiveMinimum"@ != "$ref"@,
        "exclusiveMinimum"@ != "$id"@,
        "exclusiveMinimum"@ != "$schema"@,
        "exclusiveMinimum"@ != "description"@,
        "exclusiveMinimum"@ != "dependencies"@,
        "exclusiveMinimum"@ != "definitions"@,
        "exclusiveMinimum"@ != "null"@,
        "exclusiveMinimum"@ != "boolean"@,
        "exclusiveMinimum"@ != "string"@,
        "exclusiveMinimum"@ != "integer"@,
        "exclusiveMinimum"@ != "number"@,
        "exclusiveMinimum"@ != "object"@,
        "exclusiveMinimum"@ != "array"@,
        "$ref"@ != "$id"@,
        "$ref"@ != "$schema"@,
        "$ref"@ != "description"@,
        "$ref"@ != "dependencies"@,
        "$ref"@ != "definitions"@,
        "$ref"@ != "null"@,
        "$ref"@ != "boolean"@,
        "$ref"@ != "string"@,
        "$ref"@ != "integer"@,
        "$ref"@ != "number"@,
        "$ref"@ != "object"@,
        "$ref"@ != "array"@,
        "$id"@ != "$schema"@,
        "$id"@ != "description"@,
        "$id"@ != "dependencies"@,
        "$id"@ != "definitions"@,
        "$id"@ != "null"@,
        "$id"@ != "boolean"@,
        "$id"@ != "string"@,
        "$id"@ != "integer"@,
        "$id"@ != "number"@,
        "$id"@ != "object"@,
        "$id"@ != "array"@,
        "$schema"@ != "description"@,
        "$schema"@ != "dependencies"@,
        "$schema"@ != "definitions"@,
        "$schema"@ != "null"@,
        "$schema"@ != "boolean"@,
        "$schema"@ != "string"@,
        "$schema"@ != "integer"@,
        "$schema"@ != "number"@,
        "$schema"@ != "object"@,
        "$schema"@ != "array"@,
        "description"@ != "dependencies"@,
        "description"@ != "definitions"@,
        "description"@ != "null"@,
        "description"@ != "boolean"@,
        "description"@ != "string"@,
        "description"@ != "integer"@,
        "description"@ != "number"@,
        "description"@ != "object"@,
        "description"@ != "array"@,
        "dependencies"@ != "definitions"@,
        "dependencies"@ != "null"@,
        "dependencies"@ != "boolean"@,
        "dependencies"@ != "string"@,
        "dependencies"@ != "integer"@,
        "dependencies"@ != "number"@,
        "dependencies"@ != "object"@,
        "dependencies"@ != "array"@,
        "definitions"@ != "null"@,
        "definitions"@ != "boolean"@,
        "definitions"@ != "string"@,
        "definitions"@ != "integer"@,
        "definitions"@ != "number"@,
        "definitions"@ != "object"@,
        "definitions"@ != "array"@,
        "null"@ != "boolean"@,
        "null"@ != "string"@,
        "null"@ != "integer"@,
        "null"@ != "number"@,
        "null"@ != "object"@,
        "null"@ != "array"@,
        "boolean"@ != "string"@,
        "boolean"@ != "integer"@,
        "boolean"@ != "number"@,
        "boolean"@ != "object"@,
        "boolean"@ != "array"@,
        "string"@ != "integer"@,
        "string"@ != "number"@,
        "string"@ != "object"@,
        "string"@ != "array"@,
        "integer"@ != "number"@,
        "integer"@ != "object"@,
        "integer"@ != "array"@,
        "number"@ != "object"@,
        "number"@ != "array"@,
        "object"@ != "array"@,
{
    reveal_strlit("type");
    reveal_strlit("properties");
    reveal_strlit("required");
    reveal_strlit("items");
    reveal_strlit("exclusiveMinimum");
    reveal_strlit("$ref");
    reveal_strlit("$id");
    reveal_strlit("$schema");
    reveal_strlit("description");
    reveal_strlit("dependencies");
    reveal_strlit("definitions");
    reveal_strlit("null");
    reveal_strlit("boolean");
    reveal_strlit("string");
    reveal_strlit("integer");
    reveal_strlit("number");
    reveal_strlit("object");
    reveal_strlit("array");
    assert("type"@.len() == 4);
    assert("properties"@.len() == 10);
    assert("required"@.len() == 8);
    assert("items"@.len() == 5);
    assert("exclusiveMinimum"@.len() == 16);
    assert("$ref"@.len() == 4);
    assert("$id"@.len() == 3);
    assert("$schema"@.len() == 7);
    assert("description"@.len() == 11);
    assert("dependencies"@.len() == 12);
    assert("definitions"@.len() == 11);
    assert("null"@.len() == 4);
    assert("boolean"@.len() == 7);
    assert("string"@.len() == 6);
    assert("integer"@.len() == 7);
    assert("number"@.len() == 6);
    assert("object"@.len() == 6);
    assert("array"@.len() == 5);
    assert("type"@[0] != "$ref"@[0]);
    assert("type"@[0] != "null"@[0]);
    assert("items"@[0] != "array"@[0]);
    assert("$ref"@[0] != "null"@[0]);
    assert("$schema"@[0] != "boolean"@[0]);
    assert("$schema"@[0] != "integer"@[0]);
    assert("description"@[2] != "definitions"@[2]);
    assert("boolean"@[0] != "integer"@[0]);
    assert("string"@[0] != "number"@[0]);
    assert("string"@[0] != "object"@[0]);
    assert("number"@[0] != "object"@[0]);
}

/// Mathematical model of a schema node.
pub enum PropModel {
    Value(InstModel),
    Ref(Seq<char>),
}

/// Mathematical model of an instance description.
pub enum InstModel {
    Null,
    Boolean,
    Integer { criteria: CriteriaModel },
    Object { properties: Seq<(Seq<char>, PropModel)>, required: Option<Seq<Seq<char>>> },
    Array { items: Seq<InstModel> },
    Number { criteria: CriteriaModel },
    Text,
}

/// A schema node: a concrete instance description, or a reference to
/// another node.
#[derive(Debug, PartialEq)]
pub enum Property {
    Value(PropertyInstance),
    Ref(RefProperty),
}

/// A reference to another schema node: a `$ref` string, expected to start
/// with `#/` for intra-document pointers. It is a lookup path into the
/// root document, re-resolved every time it is followed.
#[derive(Debug, Clone, PartialEq)]
pub struct RefProperty {
    pub reference: String,
}

/// One instance description: the shape a JSON value must have.
#[derive(Debug, PartialEq)]
pub enum PropertyInstance {
    Null,
    Boolean,
    Integer { criteria: NumberCriteria },
    Object { properties: Vec<(String, Property)>, required: Option<Vec<String>> },
    Array { items: Box<PropertyInstance> },
    Number { criteria: NumberCriteria },
    String,
}

/// The model of a property map's entry list.
pub open spec fn prop_entries_view(es: Seq<(String, Property)>) -> Seq<(Seq<char>, PropModel)>
    decreases es,
{
    Seq::new(
        es.len(),
        |i: int|
            if 0 <= i < es.len() {
                (es[i].0@, es[i].1@)
            } else {
                (Seq::empty(), PropModel::Ref(Seq::empty()))
            },
    )
}

/// The model of a list of key names.
pub open spec fn strings_view(ss: Seq<String>) -> Seq<Seq<char>> {
    Seq::new(
        ss.len(),
        |i: int|
            if 0 <= i < ss.len() {
                ss[i]@
            } else {
                Seq::empty()
            },
    )
}

impl View for Property {
    type V = PropModel;

    open spec fn view(&self) -> PropModel
        decreases self,
    {
        match self {
            Property::Value(inst) => PropModel::Value(inst@),
            Property::Ref(r) => PropModel::Ref(r.reference@),
        }
    }
}

impl View for PropertyInstance {
    type V = InstModel;

    open spec fn view(&self) -> InstModel
        decreases self,
    {
        match self {
            PropertyInstance::Null => InstModel::Null,
            PropertyInstance::Boolean => InstModel::Boolean,
            PropertyInstance::Integer { criteria } => InstModel::Integer { criteria: criteria@ },
            PropertyInstance::Object { properties, required } => InstModel::Object {
                properties: prop_entries_view(properties@),
                required: match required {
                    Some(ss) => Some(strings_view(ss@)),
                    None => None,
                },
            },
            PropertyInstance::Array { items } => InstModel::Array {
                items: seq![(&**items)@],
            },
            PropertyInstance::Number { criteria } => InstModel::Number { criteria: criteria@ },
            PropertyInstance::String => InstModel::Text,
        }
    }
}

/// The criteria carried by a numeric node: its `exclusiveMinimum` entry,
/// where an explicit `null` counts as absent.
pub open spec fn spec_criteria_of(es: Seq<(Seq<char>, Jv)>) -> CriteriaModel {
    let i = spec_lookup_idx(es, "exclusiveMinimum"@);
    CriteriaModel {
        exclusive_minimum: if i >= 0 {
            if es[i].1 is Null {
                None
            } else {
                Some(es[i].1)
            }
        } else {
            None
        },
    }
}

/// What an object's entries describe: a reference when a `$ref` entry is
/// present, an instance when a `type` entry is present, nothing when
/// neither is. The `$ref` entry wins when both appear.
pub open spec fn spec_prop_of_entries(es: Seq<(Seq<char>, Jv)>) -> Result<
    Option<PropModel>,
    ErrorKind,
>
    decreases es, 1int,
{
    let r = spec_lookup_idx(es, "$ref"@);
    if r >= 0 {
        match es[r].1 {
            Jv::Str(t) => Ok(Some(PropModel::Ref(t))),
            _ => Err(ErrorKind::InvalidShape),
        }
    } else {
        let t = spec_lookup_idx(es, "type"@);
        if t >= 0 {
            match es[t].1 {
                Jv::Str(word) => match spec_inst_of(es, word) {
                    Ok(m) => Ok(Some(PropModel::Value(m))),
                    Err(e) => Err(e),
                },
                _ => Err(ErrorKind::InvalidShape),
            }
        } else {
            Ok(None)
        }
    }
}

/// The instance description an object's entries give, for the shape its
/// `type` entry names.
pub open spec fn spec_inst_of(es: Seq<(Seq<char>, Jv)>, word: Seq<char>) -> Result<
    InstModel,
    ErrorKind,
>
    decreases es, 0int,
    via spec_inst_of_decreases
{
    if word == "null"@ {
        Ok(InstModel::Null)
    } else if word == "boolean"@ {
        Ok(InstModel::Boolean)
    } else if word == "string"@ {
        Ok(InstModel::Text)
    } else if word == "integer"@ {
        Ok(InstModel::Integer { criteria: spec_criteria_of(es) })
    } else if word == "number"@ {
        Ok(InstModel::Number { criteria: spec_criteria_of(es) })
    } else if word == "object"@ {
        let p = spec_lookup_idx(es, "properties"@);
        if p < 0 {
            Err(ErrorKind::InvalidShape)
        } else {
            match es[p].1 {
                Jv::Obj(pes) => match spec_props_of(pes) {
                    Ok(props) => {
                        let q = spec_lookup_idx(es, "required"@);
                        if q < 0 {
                            Ok(InstModel::Object { properties: props, required: None })
                        } else {
                            match es[q].1 {
                                Jv::Null => Ok(
                                    InstModel::Object { properties: props, required: None },
                                ),
                                Jv::Arr(xs) => match spec_strings_of(xs) {
                                    Ok(ss) => Ok(
                                        InstModel::Object {
                                            properties: props,
                                            required: Some(ss),
                                        },
                                    ),
                                    Err(e) => Err(e),
                                },
                                _ => Err(ErrorKind::InvalidShape),
                            }
                        }
                    },
                    Err(e) => Err(e),
                },
                _ => Err(ErrorKind::InvalidShape),
            }
        }
    } else if word == "array"@ {
        let p = spec_lookup_idx(es, "items"@);
        if p < 0 {
            Err(ErrorKind::InvalidShape)
        } else {
            match es[p].1 {
                Jv::Obj(ies) => {
                    let q = spec_lookup_idx(ies, "type"@);
                    if q < 0 {
                        Err(ErrorKind::InvalidShape)
                    } else {
                        match ies[q].1 {
                            Jv::Str(iword) => match spec_inst_of(ies, iword) {
                                Ok(m) => Ok(InstModel::Array { items: seq![m] }),
                                Err(e) => Err(e),
                            },
                            _ => Err(ErrorKind::InvalidShape),
                        }
                    }
                },
                _ => Err(ErrorKind::InvalidShape),
            }
        }
    } else {
        Err(ErrorKind::InvalidShape)
    }
}

#[via_fn]
proof fn spec_inst_of_decreases(es: Seq<(Seq<char>, Jv)>, word: Seq<char>) {
    let p = spec_lookup_idx(es, "properties"@);
    if p >= 0 {
        lemma_lookup_idx(es, "properties"@);
        lemma_entry_decreases(es, p);
        if es[p].1 matches Jv::Obj(pes) {
            assert(decreases_to!(es[p].1 => es[p].1->Obj_0));
            assert(decreases_to!(es => es[p].1->Obj_0));
        }
        let q = spec_lookup_idx(es, "required"@);
        if q >= 0 {
            lemma_lookup_idx(es, "required"@);
            lemma_entry_decreases(es, q);
            if es[q].1 matches Jv::Arr(xs) {
                assert(decreases_to!(es[q].1 => es[q].1->Arr_0));
                assert(decreases_to!(es => es[q].1->Arr_0));
            }
        }
    }
    let i = spec_lookup_idx(es, "items"@);
    if i >= 0 {
        lemma_lookup_idx(es, "items"@);
        lemma_entry_decreases(es, i);
        if es[i].1 matches Jv::Obj(ies) {
            assert(decreases_to!(es[i].1 => es[i].1->Obj_0));
            assert(decreases_to!(es => es[i].1->Obj_0));
        }
    }
}

/// The property map an object's entries give: each value must itself be a
/// reference or a typed instance.
pub open spec fn spec_props_of(pes: Seq<(Seq<char>, Jv)>) -> Result<
    Seq<(Seq<char>, PropModel)>,
    ErrorKind,
>
    decreases pes, 2int,
    via spec_props_of_decreases
{
    if pes.len() == 0 {
        Ok(Seq::empty())
    } else {
        match spec_prop_value_of(pes[0].1) {
            Ok(p) => match spec_props_of(pes.subrange(1, pes.len() as int)) {
                Ok(rest) => Ok(seq![(pes[0].0, p)] + rest),
                Err(e) => Err(e),
            },
            Err(e) => Err(e),
        }
    }
}

#[via_fn]
proof fn spec_props_of_decreases(pes: Seq<(Seq<char>, Jv)>) {
    if pes.len() > 0 {
        lemma_entry_decreases(pes, 0);
        assert(decreases_to!(pes => pes.subrange(1, pes.len() as int)));
    }
}

/// The node one value of a property map describes: it must be an object
/// that is a reference or a typed instance.
pub open spec fn spec_prop_value_of(v: Jv) -> Result<PropModel, ErrorKind>
    decreases v, 3int,
    via spec_prop_value_of_decreases
{
    match v {
        Jv::Obj(es) => match spec_prop_of_entries(es) {
            Ok(Some(p)) => Ok(p),
            Ok(None) => Err(ErrorKind::InvalidShape),
            Err(e) => Err(e),
        },
        _ => Err(ErrorKind::InvalidShape),
    }
}

#[via_fn]
proof fn spec_prop_value_of_decreases(v: Jv) {
    if v matches Jv::Obj(es) {
        assert(decreases_to!(v => v->Obj_0));
    }
}

/// The key names a `required` array gives: every element must be a string.
pub open spec fn spec_strings_of(xs: Seq<Jv>) -> Result<Seq<Seq<char>>, ErrorKind>
    decreases xs,
{
    if xs.len() == 0 {
        Ok(Seq::empty())
    } else {
        match xs[0] {
            Jv::Str(s) => match spec_strings_of(xs.subrange(1, xs.len() as int)) {
                Ok(rest) => Ok(seq![s] + rest),
                Err(e) => Err(e),
            },
            _ => Err(ErrorKind::InvalidShape),
        }
    }
}

/// The word the `type` entry of a serialized instance carries.
pub open spec fn spec_type_word(m: InstModel) -> Seq<char> {
    match m {
        InstModel::Null => "null"@,
        InstModel::Boolean => "boolean"@,
        InstModel::Integer { .. } => "integer"@,
        InstModel::Object { .. } => "object"@,
        InstModel::Array { .. } => "array"@,
        InstModel::Number { .. } => "number"@,
        InstModel::Text => "string"@,
    }
}

/// How an instance description serializes: the entries of its JSON object
/// form, `type` first.
pub open spec fn spec_inst_entries(m: InstModel) -> Seq<(Seq<char>, Jv)>
    decreases m,
    via spec_inst_entries_decreases
{
    match m {
        InstModel::Null => seq![("type"@, Jv::Str("null"@))],
        InstModel::Boolean => seq![("type"@, Jv::Str("boolean"@))],
        InstModel::Text => seq![("type"@, Jv::Str("string"@))],
        InstModel::Integer { criteria } => match criteria.exclusive_minimum {
            None => seq![("type"@, Jv::Str("integer"@))],
            Some(v) => seq![("type"@, Jv::Str("integer"@)), ("exclusiveMinimum"@, v)],
        },
        InstModel::Number { criteria } => match criteria.exclusive_minimum {
            None => seq![("type"@, Jv::Str("number"@))],
            Some(v) => seq![("type"@, Jv::Str("number"@)), ("exclusiveMinimum"@, v)],
        },
        InstModel::Object { properties, required } => match required {
            None => seq![
                ("type"@, Jv::Str("object"@)),
                ("properties"@, Jv::Obj(spec_props_ser(properties))),
            ],
            Some(ss) => seq![
                ("type"@, Jv::Str("object"@)),
                ("properties"@, Jv::Obj(spec_props_ser(properties))),
                ("required"@, Jv::Arr(spec_strings_ser(ss))),
            ],
        },
        InstModel::Array { items } => {
            if items.len() > 0 {
                seq![
                    ("type"@, Jv::Str("array"@)),
                    ("items"@, Jv::Obj(spec_inst_entries(items[0]))),
                ]
            } else {
                seq![("type"@, Jv::Str("array"@))]
            }
        },
    }
}

#[via_fn]
proof fn spec_inst_entries_decreases(m: InstModel) {
    match m {
        InstModel::Array { items } => {
            if items.len() > 0 {
                assert(decreases_to!(m => m->Array_items));
                assert(decreases_to!(items => items[0]));
                assert(decreases_to!(m => items[0]));
            }
        },
        _ => {},
    }
}

/// How a property map serializes: each node in place, keys kept in order.
pub open spec fn spec_props_ser(props: Seq<(Seq<char>, PropModel)>) -> Seq<(Seq<char>, Jv)>
    decreases props,
{
    Seq::new(
        props.len(),
        |i: int|
            if 0 <= i < props.len() {
                (props[i].0, spec_prop_value_ser(props[i].1))
            } else {
                (Seq::empty(), Jv::Null)
            },
    )
}

/// How one schema node serializes: an instance's entries, or a lone
/// `$ref` entry.
pub open spec fn spec_prop_value_ser(p: PropModel) -> Jv
    decreases p,
{
    match p {
        PropModel::Value(m) => Jv::Obj(spec_inst_entries(m)),
        PropModel::Ref(r) => Jv::Obj(seq![("$ref"@, Jv::Str(r))]),
    }
}

/// The criteria a parsed node carries never hold an explicit `null`: the
/// parser reads `null` as absence.
pub open spec fn wf_criteria(c: CriteriaModel) -> bool {
    c.exclusive_minimum != Some(Jv::Null)
}

/// The invariant a parsed instance description satisfies.
pub open spec fn wf_inst(m: InstModel) -> bool
    decreases m,
    via wf_inst_decreases
{
    match m {
        InstModel::Integer { criteria } => wf_criteria(criteria),
        InstModel::Number { criteria } => wf_criteria(criteria),
        InstModel::Object { properties, .. } => wf_props(properties),
        InstModel::Array { items } => items.len() == 1 && wf_inst(items[0]),
        _ => true,
    }
}

#[via_fn]
proof fn wf_inst_decreases(m: InstModel) {
    match m {
        InstModel::Array { items } => {
            if items.len() > 0 {
                assert(decreases_to!(m => m->Array_items));
                assert(decreases_to!(items => items[0]));
                assert(decreases_to!(m => items[0]));
            }
        },
        _ => {},
    }
}

/// The invariant every node of a parsed property map satisfies.
pub open spec fn wf_props(props: Seq<(Seq<char>, PropModel)>) -> bool
    decreases props, 1int,
    via wf_props_decreases
{
    if props.len() == 0 {
        true
    } else {
        wf_prop(props[0].1) && wf_props(props.subrange(1, props.len() as int))
    }
}

#[via_fn]
proof fn wf_props_decreases(props: Seq<(Seq<char>, PropModel)>) {
    if props.len() > 0 {
        assert(decreases_to!(props => props[0]));
        assert(decreases_to!(props[0] => props[0].1));
        assert(decreases_to!(props => props.subrange(1, props.len() as int)));
    }
}

/// The invariant a parsed schema node satisfies.
pub open spec fn wf_prop(p: PropModel) -> bool
    decreases p,
{
    match p {
        PropModel::Value(m) => wf_inst(m),
        PropModel::Ref(_) => true,
    }
}

/// The keys a serialized instance description can carry.
pub open spec fn is_node_key(k: Seq<char>) -> bool {
    k == "type"@ || k == "properties"@ || k == "required"@ || k == "items"@ || k
        == "exclusiveMinimum"@
}

/// A serialized instance description parses back to the instance.
#[verifier::rlimit(100)]
pub proof fn lemma_inst_rt(m: InstModel)
    requires
        wf_inst(m),
    ensures
        spec_inst_entries(m).len() > 0,
        spec_inst_entries(m)[0] == ("type"@, Jv::Str(spec_type_word(m))),
        forall|j: int|
            0 <= j < spec_inst_entries(m).len() ==> is_node_key(
                #[trigger] spec_inst_entries(m)[j].0,
            ),
        spec_inst_of(spec_inst_entries(m), spec_type_word(m)) == Ok::<InstModel, ErrorKind>(m),
    decreases m, 0int,
{
    reveal_strlit("type");
    reveal_strlit("properties");
    reveal_strlit("required");
    reveal_strlit("items");
    reveal_strlit("exclusiveMinimum");
    reveal_strlit("$ref");
    reveal_strlit("null");
    reveal_strlit("boolean");
    reveal_strlit("string");
    reveal_strlit("integer");
    reveal_strlit("number");
    reveal_strlit("object");
    reveal_strlit("array");
    lemma_keys();
    let es = spec_inst_entries(m);
    let w = spec_type_word(m);
    match m {
        InstModel::Null => {},
        InstModel::Boolean => {},
        InstModel::Text => {},
        InstModel::Integer { criteria } => {
            match criteria.exclusive_minimum {
                None => {
                    assert(es.len() == 1 && es[0].0 == "type"@);
                    assert forall|j: int| 0 <= j < es.len() implies es[j].0
                        != "exclusiveMinimum"@ by {
                        assert(j == 0);
                    }
                    lemma_idx_none(es, "exclusiveMinimum"@);
                },
                Some(v) => {
                    assert(es.len() == 2 && es[0].0 == "type"@ && es[1].0 == "exclusiveMinimum"@);
                    assert forall|j: int| 0 <= j < 1 implies es[j].0 != "exclusiveMinimum"@ by {
                        assert(j == 0);
                    }
                    lemma_idx_at(es, "exclusiveMinimum"@, 1);
                },
            }
            assert(spec_criteria_of(es) == criteria);
        },
        InstModel::Number { criteria } => {
            match criteria.exclusive_minimum {
                None => {
                    assert(es.len() == 1 && es[0].0 == "type"@);
                    assert forall|j: int| 0 <= j < es.len() implies es[j].0
                        != "exclusiveMinimum"@ by {
                        assert(j == 0);
                    }
                    lemma_idx_none(es, "exclusiveMinimum"@);
                },
                Some(v) => {
                    assert(es.len() == 2 && es[0].0 == "type"@ && es[1].0 == "exclusiveMinimum"@);
                    assert forall|j: int| 0 <= j < 1 implies es[j].0 != "exclusiveMinimum"@ by {
                        assert(j == 0);
                    }
                    lemma_idx_at(es, "exclusiveMinimum"@, 1);
                },
            }
            assert(spec_criteria_of(es) == criteria);
        },
        InstModel::Object { properties, required } => {
            assert(decreases_to!(m => m->Object_properties));
            lemma_props_rt(properties);
            assert(es[0].0 == "type"@ && es[1].0 == "properties"@);
            assert forall|j: int| 0 <= j < 1 implies es[j].0 != "properties"@ by {
                assert(j == 0);
            }
            lemma_idx_at(es, "properties"@, 1);
            match required {
                None => {
                    assert(es.len() == 2);
                    assert forall|j: int| 0 <= j < es.len() implies es[j].0 != "required"@ by {
                        assert(j == 0 || j == 1);
                    }
                    lemma_idx_none(es, "required"@);
                },
                Some(ss) => {
                    assert(es.len() == 3 && es[2].0 == "required"@);
                    assert forall|j: int| 0 <= j < 2 implies es[j].0 != "required"@ by {
                        assert(j == 0 || j == 1);
                    }
                    lemma_idx_at(es, "required"@, 2);
                    lemma_strings_rt(ss);
                },
            }
            assert(spec_inst_of(es, w) == Ok::<InstModel, ErrorKind>(m));
        },
        InstModel::Array { items } => {
            assert(decreases_to!(m => m->Array_items));
            assert(decreases_to!(items => items[0]));
            lemma_inst_rt(items[0]);
            assert(es.len() == 2 && es[0].0 == "type"@ && es[1].0 == "items"@);
            assert forall|j: int| 0 <= j < 1 implies es[j].0 != "items"@ by {
                assert(j == 0);
            }
            lemma_idx_at(es, "items"@, 1);
            let ies = spec_inst_entries(items[0]);
            lemma_idx_at(ies, "type"@, 0);
            assert(spec_inst_of(ies, spec_type_word(items[0])) == Ok::<InstModel, ErrorKind>(
                items[0],
            ));
            assert(seq![items[0]] =~= items);
            assert(spec_inst_of(es, w) == Ok::<InstModel, ErrorKind>(m));
        },
    }
}

/// A serialized property map parses back to the map.
pub proof fn lemma_props_rt(props: Seq<(Seq<char>, PropModel)>)
    requires
        wf_props(props),
    ensures
        spec_props_of(spec_props_ser(props)) == Ok::<Seq<(Seq<char>, PropModel)>, ErrorKind>(props),
    decreases props, 2int,
{
    let ser = spec_props_ser(props);
    if props.len() == 0 {
        assert(ser.len() == 0);
        assert(spec_props_of(ser) == Ok::<Seq<(Seq<char>, PropModel)>, ErrorKind>(Seq::empty()));
        assert(Seq::<(Seq<char>, PropModel)>::empty() =~= props);
    } else {
        assert(decreases_to!(props => props[0]));
        assert(decreases_to!(props[0] => props[0].1));
        lemma_prop_value_rt(props[0].1);
        assert(decreases_to!(props => props.subrange(1, props.len() as int)));
        lemma_props_rt(props.subrange(1, props.len() as int));
        assert(ser.subrange(1, ser.len() as int) =~= spec_props_ser(
            props.subrange(1, props.len() as int),
        ));
        assert(seq![(props[0].0, props[0].1)] + props.subrange(1, props.len() as int) =~= props);
    }
}

/// A serialized node parses back to the node.
#[verifier::rlimit(100)]
pub proof fn lemma_prop_value_rt(p: PropModel)
    requires
        wf_prop(p),
    ensures
        spec_prop_value_of(spec_prop_value_ser(p)) == Ok::<PropModel, ErrorKind>(p),
    decreases p, 1int,
{
    lemma_keys();
    match p {
        PropModel::Value(m) => {
            lemma_inst_rt(m);
            let es = spec_inst_entries(m);
            assert forall|j: int| 0 <= j < es.len() implies es[j].0 != "$ref"@ by {
                assert(is_node_key(es[j].0));
            }
            lemma_idx_none(es, "$ref"@);
            lemma_idx_at(es, "type"@, 0);
        },
        PropModel::Ref(r) => {
            let es = seq![("$ref"@, Jv::Str(r))];
            lemma_idx_at(es, "$ref"@, 0);
        },
    }
}

/// A serialized list of key names parses back to the list.
pub proof fn lemma_strings_rt(ss: Seq<Seq<char>>)
    ensures
        spec_strings_of(spec_strings_ser(ss)) == Ok::<Seq<Seq<char>>, ErrorKind>(ss),
    decreases ss.len(),
{
    let ser = spec_strings_ser(ss);
    if ss.len() == 0 {
        assert(Seq::<Seq<char>>::empty() =~= ss);
    } else {
        lemma_strings_rt(ss.subrange(1, ss.len() as int));
        assert(ser.subrange(1, ser.len() as int) =~= spec_strings_ser(
            ss.subrange(1, ss.len() as int),
        ));
        assert(seq![ss[0]] + ss.subrange(1, ss.len() as int) =~= ss);
    }
}

/// How a list of key names serializes.
pub open spec fn spec_strings_ser(ss: Seq<Seq<char>>) -> Seq<Jv> {
    Seq::new(
        ss.len(),
        |i: int|
            if 0 <= i < ss.len() {
                Jv::Str(ss[i])
            } else {
                Jv::Null
            },
    )
}




proof fn probe_obj(properties: Vec<(String, Property)>) {
    let m = (PropertyInstance::Object { properties, required: None })@;
    assert(m is Object);
}

proof fn probe_arr(items: Box<PropertyInstance>) {
    let m = (PropertyInstance::Array { items })@;
    assert(m is Array);
}

proof fn probe_int(criteria: NumberCriteria) {
    let m = (PropertyInstance::Integer { criteria })@;
    assert(m is Integer);
}

/// A property map's value is its model entry for entry.
pub proof fn lemma_pev_is_view(properties: Vec<(String, Property)>, required: Option<Vec<String>>)
    ensures
        (PropertyInstance::Object { properties, required })@ matches InstModel::Object {
            properties: ps,
            ..
        } && ps == prop_entries_view(properties@),
{
    let m = (PropertyInstance::Object { properties, required })@;
    assert(m->Object_properties =~= prop_entries_view(properties@));
}

/// An object node's model holds the map's model entry for entry.
pub proof fn lemma_pev_is_view_ref(inst: &PropertyInstance)
    requires
        inst is Object,
    ensures
        inst@ matches InstModel::Object { properties: ps, .. } && ps == prop_entries_view(
            inst->Object_properties@,
        ),
{
    assert(inst@->Object_properties =~= prop_entries_view(inst->Object_properties@));
}

/// Prepending an entry shifts a property map's model by one.
proof fn lemma_prop_entries_view_insert(pre: Seq<(String, Property)>, e: (String, Property))
    ensures
        prop_entries_view(pre.insert(0, e)) =~= seq![(e.0@, e.1@)] + prop_entries_view(pre),
{
    pre.insert_ensures(0, e);
    let ins = pre.insert(0, e);
    assert(ins[0] == e);
    assert forall|j: int| 0 <= j < ins.len() implies prop_entries_view(ins)[j] == (seq![
        (e.0@, e.1@),
    ] + prop_entries_view(pre))[j] by {
        if j >= 1 {
            assert(pre.insert(0, e)[(j - 1) + 1] == pre[j - 1]);
            assert(ins[j] == pre[j - 1]);
        }
    }
}

/// Prepending a name shifts a name list's model by one.
#[verifier::rlimit(100)]
proof fn lemma_strings_view_insert(pre: Seq<String>, e: String)
    ensures
        strings_view(pre.insert(0, e)) =~= seq![e@] + strings_view(pre),
{
    pre.insert_ensures(0, e);
    let ins = pre.insert(0, e);
    assert forall|j: int| 0 <= j < ins.len() implies strings_view(ins)[j] == (seq![e@]
        + strings_view(pre))[j] by {
        if j >= 1 {
            assert(pre.insert(0, e)[(j - 1) + 1] == pre[j - 1]);
            assert(ins[j] == pre[j - 1]);
        }
    }
}

/// Reads the numeric criteria out of a node's entries.
fn criteria_from(es: &Vec<(String, JsonValue)>) -> (r: NumberCriteria)
    ensures
        r@ == spec_criteria_of(entries_view(es@)),
        wf_criteria(r@),
{
    match lookup(es, &String::from_str("exclusiveMinimum")) {
        Some(v) => match v {
            JsonValue::Null => NumberCriteria { exclusive_minimum: None },
            _ => NumberCriteria { exclusive_minimum: Some(v.clone()) },
        },
        None => NumberCriteria { exclusive_minimum: None },
    }
}

impl Property {
    /// Reads the node an object's entries describe: a reference when a
    /// `$ref` entry is present, an instance when a `type` entry is
    /// present, nothing when neither is.
    pub fn from_entries(es: &Vec<(String, JsonValue)>) -> (r: Result<Option<Property>, Error>)
        ensures
            match r {
                Ok(None) => spec_prop_of_entries(entries_view(es@)) == Ok::<
                    Option<PropModel>,
                    ErrorKind,
                >(None),
                Ok(Some(p)) => spec_prop_of_entries(entries_view(es@)) == Ok::<
                    Option<PropModel>,
                    ErrorKind,
                >(Some(p@)) && wf_prop(p@),
                Err(e) => spec_prop_of_entries(entries_view(es@)) == Err::<
                    Option<PropModel>,
                    ErrorKind,
                >(e.kind),
            },
        decreases *es, 4int,
    {
        match lookup(es, &String::from_str("$ref")) {
            Some(v) => match v {
                JsonValue::Str(t) => Ok(
                    Some(Property::Ref(RefProperty { reference: t.clone() })),
                ),
                _ => Err(Error::new(ErrorKind::InvalidShape)),
            },
            None => {
                match lookup(es, &String::from_str("type")) {
                    Some(v) => match v {
                        JsonValue::Str(word) => {
                            match PropertyInstance::from_entries(es, word) {
                                Ok(m) => Ok(Some(Property::Value(m))),
                                Err(e) => Err(e),
                            }
                        },
                        _ => Err(Error::new(ErrorKind::InvalidShape)),
                    },
                    None => Ok(None),
                }
            },
        }
    }

    /// Reads the node one value of a property map describes: it must be an
    /// object that is a reference or a typed instance.
    pub fn from_json(v: &JsonValue) -> (r: Result<Property, Error>)
        ensures
            match r {
                Ok(p) => spec_prop_value_of(v@) == Ok::<PropModel, ErrorKind>(p@) && wf_prop(p@),
                Err(e) => spec_prop_value_of(v@) == Err::<PropModel, ErrorKind>(e.kind),
            },
        decreases *v, 5int,
    {
        match v {
            JsonValue::Object(es) => {
                proof {
                    assert(decreases_to!(*v => v->Object_0));
                }
                match Property::from_entries(es) {
                    Ok(Some(p)) => Ok(p),
                    Ok(None) => Err(Error::new(ErrorKind::InvalidShape)),
                    Err(e) => Err(e),
                }
            },
            _ => Err(Error::new(ErrorKind::InvalidShape)),
        }
    }

    /// Serializes the node back to its JSON object form.
    pub fn to_json(&self) -> (r: JsonValue)
        ensures
            r@ == spec_prop_value_ser(self@),
        decreases *self,
    {
        match self {
            Property::Value(inst) => JsonValue::Object(inst.to_entries()),
            Property::Ref(rp) => {
                let mut es: Vec<(String, JsonValue)> = Vec::new();
                es.push((String::from_str("$ref"), JsonValue::Str(rp.reference.clone())));
                let r = JsonValue::Object(es);
                proof {
                    assert(entries_view(es@) =~= seq![("$ref"@, Jv::Str(rp.reference@))]);
                }
                r
            },
        }
    }
}

impl PropertyInstance {
    /// Reads the instance description an object's entries give, for the
    /// shape its `type` entry names.
    #[verifier::rlimit(100)]
    #[verifier::spinoff_prover]
    pub fn from_entries(es: &Vec<(String, JsonValue)>, word: &String) -> (r: Result<
        PropertyInstance,
        Error,
    >)
        ensures
            match r {
                Ok(m) => spec_inst_of(entries_view(es@), word@) == Ok::<InstModel, ErrorKind>(m@)
                    && wf_inst(m@),
                Err(e) => spec_inst_of(entries_view(es@), word@) == Err::<InstModel, ErrorKind>(
                    e.kind,
                ),
            },
        decreases *es, 3int,
    {
        let ghost evs = entries_view(es@);
        if string_eq(word, &String::from_str("null")) {
            proof {
                assert(spec_inst_of(evs, word@) == Ok::<InstModel, ErrorKind>(InstModel::Null));
            }
            Ok(PropertyInstance::Null)
        } else if string_eq(word, &String::from_str("boolean")) {
            proof {
                assert(spec_inst_of(evs, word@) == Ok::<InstModel, ErrorKind>(InstModel::Boolean));
            }
            Ok(PropertyInstance::Boolean)
        } else if string_eq(word, &String::from_str("string")) {
            proof {
                assert(spec_inst_of(evs, word@) == Ok::<InstModel, ErrorKind>(InstModel::Text));
            }
            Ok(PropertyInstance::String)
        } else if string_eq(word, &String::from_str("integer")) {
            let c = criteria_from(es);
            proof {
                assert(spec_inst_of(evs, word@) == Ok::<InstModel, ErrorKind>(
                    InstModel::Integer { criteria: c@ },
                ));
            }
            Ok(PropertyInstance::Integer { criteria: c })
        } else if string_eq(word, &String::from_str("number")) {
            let c = criteria_from(es);
            proof {
                assert(spec_inst_of(evs, word@) == Ok::<InstModel, ErrorKind>(
                    InstModel::Number { criteria: c@ },
                ));
            }
            Ok(PropertyInstance::Number { criteria: c })
        } else if string_eq(word, &String::from_str("object")) {
            object_from(es)
        } else if string_eq(word, &String::from_str("array")) {
            array_from(es)
        } else {
            Err(Error::new(ErrorKind::InvalidShape))
        }
    }

    /// Serializes the instance back to the entries of its JSON object
    /// form, `type` first.
    pub fn to_entries(&self) -> (r: Vec<(String, JsonValue)>)
        ensures
            entries_view(r@) == spec_inst_entries(self@),
        decreases *self,
    {
        let mut out: Vec<(String, JsonValue)> = Vec::new();
        let tw: &str = match self {
            PropertyInstance::Null => "null",
            PropertyInstance::Boolean => "boolean",
            PropertyInstance::Integer { .. } => "integer",
            PropertyInstance::Object { .. } => "object",
            PropertyInstance::Array { .. } => "array",
            PropertyInstance::Number { .. } => "number",
            PropertyInstance::String => "string",
        };
        out.push((String::from_str("type"), JsonValue::Str(String::from_str(tw))));
        match self {
            PropertyInstance::Integer { criteria } | PropertyInstance::Number { criteria } => {
                match &criteria.exclusive_minimum {
                    Some(v) => {
                        out.push((String::from_str("exclusiveMinimum"), v.clone()));
                    },
                    None => {},
                }
            },
            PropertyInstance::Object { properties, required } => {
                out.push((String::from_str("properties"), JsonValue::Object(props_to(properties))));
                match required {
                    Some(ss) => {
                        out.push((String::from_str("required"), JsonValue::Array(strings_to(ss))));
                    },
                    None => {},
                }
            },
            PropertyInstance::Array { items } => {
                out.push((String::from_str("items"), JsonValue::Object((&**items).to_entries())));
            },
            _ => {},
        }
        proof {
            assert(entries_view(out@) =~= spec_inst_entries(self@));
        }
        out
    }
}


/// Reads an object-shaped instance: its `properties` map and optional
/// `required` names.
fn object_from(es: &Vec<(String, JsonValue)>) -> (r: Result<PropertyInstance, Error>)
    ensures
        match r {
            Ok(m) => spec_inst_of(entries_view(es@), "object"@) == Ok::<InstModel, ErrorKind>(m@)
                && wf_inst(m@),
            Err(e) => spec_inst_of(entries_view(es@), "object"@) == Err::<InstModel, ErrorKind>(
                e.kind,
            ),
        },
    decreases *es, 2int,
{
    let ghost evs = entries_view(es@);
    proof {
        lemma_keys();
    }
            match lookup(es, &String::from_str("properties")) {
                None => Err(Error::new(ErrorKind::InvalidShape)),
                Some(pv) => {
                    let ghost pi = spec_lookup_idx(evs, "properties"@);
                    proof {
                        assert(evs[pi] == (es@[pi].0@, es@[pi].1@));
                        assert(pv@ == evs[pi].1);
                    }
                    match pv {
                        JsonValue::Object(pes) => {
                            proof {
                                assert(decreases_to!(*es => es@[pi]));
                                assert(decreases_to!(es@[pi] => es@[pi].1));
                                assert(decreases_to!(es@[pi].1 => es@[pi].1->Object_0));
                                assert(decreases_to!(*es => *pes));
                                assert(entries_view(pes@).subrange(0, pes@.len() as int)
                                    =~= entries_view(pes@));
                            }
                            match props_from(pes, 0) {
                                Ok(props) => {
                                    match lookup(es, &String::from_str("required")) {
                                        None => {
                                            proof {
                                                lemma_pev_is_view(props, None);
                                                assert((PropertyInstance::Object {
                                                    properties: props,
                                                    required: None,
                                                })@ == InstModel::Object {
                                                    properties: prop_entries_view(props@),
                                                    required: None,
                                                });
                                                assert(spec_inst_of(evs, "object"@) == Ok::<
                                                    InstModel,
                                                    ErrorKind,
                                                >(
                                                    InstModel::Object {
                                                        properties: prop_entries_view(props@),
                                                        required: None,
                                                    },
                                                ));
                                            }
                                            Ok(
                                                PropertyInstance::Object {
                                                    properties: props,
                                                    required: None,
                                                },
                                            )
                                        },
                                        Some(rv) => {
                                            let ghost ri = spec_lookup_idx(evs, "required"@);
                                            proof {
                                                assert(evs[ri] == (es@[ri].0@, es@[ri].1@));
                                                assert(rv@ == evs[ri].1);
                                            }
                                            match rv {
                                                JsonValue::Null => {
                                                    proof {
                                                        lemma_pev_is_view(props, None);
                                                        assert(spec_inst_of(evs, "object"@) == Ok::<
                                                            InstModel,
                                                            ErrorKind,
                                                        >(
                                                            InstModel::Object {
                                                                properties: prop_entries_view(
                                                                    props@,
                                                                ),
                                                                required: None,
                                                            },
                                                        ));
                                                    }
                                                    Ok(
                                                        PropertyInstance::Object {
                                                            properties: props,
                                                            required: None,
                                                        },
                                                    )
                                                },
                                                JsonValue::Array(xs) => {
                                                    match strings_from(xs) {
                                                        Ok(ss) => {
                                                            proof {
                                                                lemma_pev_is_view(
                                                                    props,
                                                                    Some(ss),
                                                                );
                                                                assert(spec_inst_of(evs, "object"@)
                                                                    == Ok::<
                                                                    InstModel,
                                                                    ErrorKind,
                                                                >(
                                                                    InstModel::Object {
                                                                        properties:
                                                                            prop_entries_view(
                                                                            props@,
                                                                        ),
                                                                        required: Some(
                                                                            strings_view(ss@),
                                                                        ),
                                                                    },
                                                                ));
                                                            }
                                                            Ok(
                                                                PropertyInstance::Object {
                                                                    properties: props,
                                                                    required: Some(ss),
                                                                },
                                                            )
                                                        },
                                                        Err(e) => Err(e),
                                                    }
                                                },
                                                _ => Err(Error::new(ErrorKind::InvalidShape)),
                                            }
                                        },
                                    }
                                },
                                Err(e) => Err(e),
                            }
                        },
                        _ => Err(Error::new(ErrorKind::InvalidShape)),
                    }
                },
            }
}

/// Reads an array-shaped instance: its single `items` description.
fn array_from(es: &Vec<(String, JsonValue)>) -> (r: Result<PropertyInstance, Error>)
    ensures
        match r {
            Ok(m) => spec_inst_of(entries_view(es@), "array"@) == Ok::<InstModel, ErrorKind>(m@)
                && wf_inst(m@),
            Err(e) => spec_inst_of(entries_view(es@), "array"@) == Err::<InstModel, ErrorKind>(
                e.kind,
            ),
        },
    decreases *es, 2int,
{
    let ghost evs = entries_view(es@);
    proof {
        lemma_keys();
    }
            match lookup(es, &String::from_str("items")) {
                None => Err(Error::new(ErrorKind::InvalidShape)),
                Some(iv) => {
                    let ghost ii = spec_lookup_idx(evs, "items"@);
                    proof {
                        assert(evs[ii] == (es@[ii].0@, es@[ii].1@));
                        assert(iv@ == evs[ii].1);
                    }
                    match iv {
                        JsonValue::Object(ies) => {
                            let ghost ievs = entries_view(ies@);
                            match lookup(ies, &String::from_str("type")) {
                                None => Err(Error::new(ErrorKind::InvalidShape)),
                                Some(tv) => {
                                    let ghost ti = spec_lookup_idx(ievs, "type"@);
                                    proof {
                                        assert(ievs[ti] == (ies@[ti].0@, ies@[ti].1@));
                                        assert(tv@ == ievs[ti].1);
                                    }
                                    match tv {
                                    JsonValue::Str(iword) => {
                                        proof {
                                            assert(decreases_to!(*es => es@[ii]));
                                            assert(decreases_to!(es@[ii] => es@[ii].1));
                                            assert(decreases_to!(es@[ii].1 => es@[
                                                ii].1->Object_0));
                                            assert(decreases_to!(*es => *ies));
                                        }
                                        match PropertyInstance::from_entries(ies, iword) {
                                            Ok(m) => {
                                                let res = PropertyInstance::Array {
                                                    items: Box::new(m),
                                                };
                                                proof {
                                                    assert(res@ matches InstModel::Array {
                                                        items: it,
                                                    } && it =~= seq![m@]);
                                                    assert(spec_inst_of(evs, "array"@) == Ok::<
                                                        InstModel,
                                                        ErrorKind,
                                                    >(InstModel::Array { items: seq![m@] }));
                                                }
                                                Ok(res)
                                            },
                                            Err(e) => Err(e),
                                        }
                                    },
                                    _ => Err(Error::new(ErrorKind::InvalidShape)),
                                }
                                },
                            }
                        },
                        _ => Err(Error::new(ErrorKind::InvalidShape)),
                    }
                },
            }
}

/// Reads a property map out of an object's entries, each value a node.
fn props_from(pes: &Vec<(String, JsonValue)>, i: usize) -> (r: Result<Vec<(String, Property)>, Error>)
    requires
        i <= pes@.len(),
    ensures
        match r {
            Ok(props) => spec_props_of(entries_view(pes@).subrange(i as int, pes@.len() as int))
                == Ok::<Seq<(Seq<char>, PropModel)>, ErrorKind>(prop_entries_view(props@))
                && wf_props(prop_entries_view(props@)),
            Err(e) => spec_props_of(entries_view(pes@).subrange(i as int, pes@.len() as int))
                == Err::<Seq<(Seq<char>, PropModel)>, ErrorKind>(e.kind),
        },
    decreases *pes, 2int, pes@.len() - i,
{
    let ghost tail = entries_view(pes@).subrange(i as int, pes@.len() as int);
    if i == pes.len() {
        let props: Vec<(String, Property)> = Vec::new();
        proof {
            assert(tail.len() == 0);
            assert(prop_entries_view(props@) =~= Seq::<(Seq<char>, PropModel)>::empty());
            assert(wf_props(prop_entries_view(props@)));
        }
        Ok(props)
    } else {
        proof {
            assert(decreases_to!(*pes => pes@[i as int]));
            assert(decreases_to!(pes@[i as int] => pes@[i as int].1));
            assert(tail[0] == (pes@[i as int].0@, pes@[i as int].1@));
            assert(tail.subrange(1, tail.len() as int) =~= entries_view(pes@).subrange(
                i as int + 1,
                pes@.len() as int,
            ));
        }
        match Property::from_json(&pes[i].1) {
            Ok(p) => {
                match props_from(pes, i + 1) {
                    Ok(mut rest) => {
                        let ghost pre = rest@;
                        let key = pes[i].0.clone();
                        rest.insert(0, (key, p));
                        proof {
                            lemma_prop_entries_view_insert(pre, (key, p));
                            let t1 = tail.subrange(1, tail.len() as int);
                            assert(t1 =~= entries_view(pes@).subrange(
                                i as int + 1,
                                pes@.len() as int,
                            ));
                            assert(prop_entries_view(rest@) =~= seq![
                                (tail[0].0, spec_prop_value_of(tail[0].1)->Ok_0),
                            ] + spec_props_of(t1)->Ok_0);
                            assert(prop_entries_view(rest@)[0].1 == p@);
                            assert(prop_entries_view(rest@).subrange(
                                1,
                                prop_entries_view(rest@).len() as int,
                            ) =~= prop_entries_view(pre));
                            assert(wf_props(prop_entries_view(rest@)));
                        }
                        Ok(rest)
                    },
                    Err(e) => Err(e),
                }
            },
            Err(e) => Err(e),
        }
    }
}

/// Reads a list of key names out of a JSON array of strings.
pub(crate) fn strings_from(xs: &Vec<JsonValue>) -> (r: Result<Vec<String>, Error>)
    ensures
        match r {
            Ok(ss) => spec_strings_of(arr_elems(xs@)) == Ok::<Seq<Seq<char>>, ErrorKind>(
                strings_view(ss@),
            ),
            Err(e) => spec_strings_of(arr_elems(xs@)) == Err::<Seq<Seq<char>>, ErrorKind>(e.kind),
        },
{
    proof {
        assert(arr_elems(xs@).subrange(0, xs@.len() as int) =~= arr_elems(xs@));
    }
    strings_from_at(xs, 0)
}

fn strings_from_at(xs: &Vec<JsonValue>, i: usize) -> (r: Result<Vec<String>, Error>)
    requires
        i <= xs@.len(),
    ensures
        match r {
            Ok(ss) => spec_strings_of(arr_elems(xs@).subrange(i as int, xs@.len() as int)) == Ok::<
                Seq<Seq<char>>,
                ErrorKind,
            >(strings_view(ss@)),
            Err(e) => spec_strings_of(arr_elems(xs@).subrange(i as int, xs@.len() as int))
                == Err::<Seq<Seq<char>>, ErrorKind>(e.kind),
        },
    decreases xs@.len() - i,
{
    let ghost tail = arr_elems(xs@).subrange(i as int, xs@.len() as int);
    if i == xs.len() {
        let ss: Vec<String> = Vec::new();
        proof {
            assert(tail.len() == 0);
            assert(strings_view(ss@) =~= Seq::<Seq<char>>::empty());
        }
        Ok(ss)
    } else {
        proof {
            assert(tail[0] == xs@[i as int]@);
            assert(tail.subrange(1, tail.len() as int) =~= arr_elems(xs@).subrange(
                i as int + 1,
                xs@.len() as int,
            ));
        }
        match &xs[i] {
            JsonValue::Str(s) => {
                match strings_from_at(xs, i + 1) {
                    Ok(mut rest) => {
                        let ghost pre = rest@;
                        let c = s.clone();
                        rest.insert(0, c);
                        proof {
                            lemma_strings_view_insert(pre, c);
                            let t1 = tail.subrange(1, tail.len() as int);
                            assert(t1 =~= arr_elems(xs@).subrange(i as int + 1, xs@.len() as int));
                            assert(tail[0] == xs@[i as int]@);
                            assert(strings_view(rest@) =~= seq![s@] + spec_strings_of(t1)->Ok_0);
                        }
                        Ok(rest)
                    },
                    Err(e) => Err(e),
                }
            },
            _ => Err(Error::new(ErrorKind::InvalidShape)),
        }
    }
}

/// Serializes a property map, each node in place, keys kept in order.
fn props_to(props: &Vec<(String, Property)>) -> (r: Vec<(String, JsonValue)>)
    ensures
        entries_view(r@) == spec_props_ser(prop_entries_view(props@)),
    decreases *props,
{
    let mut out: Vec<(String, JsonValue)> = Vec::new();
    let mut i: usize = 0;
    while i < props.len()
        invariant
            0 <= i <= props.len(),
            out@.len() == i as int,
            forall|j: int|
                0 <= j < i ==> out@[j].0@ == props@[j].0@ && out@[j].1@ == spec_prop_value_ser(
                    props@[j].1@,
                ),
        decreases props.len() - i,
    {
        proof {
            assert(decreases_to!(*props => props@[i as int]));
            assert(decreases_to!(props@[i as int] => props@[i as int].1));
        }
        let key = props[i].0.clone();
        let v = props[i].1.to_json();
        out.push((key, v));
        i = i + 1;
    }
    proof {
        assert(entries_view(out@) =~= spec_props_ser(prop_entries_view(props@)));
    }
    out
}

/// Serializes a list of key names.
pub(crate) fn strings_to(ss: &Vec<String>) -> (r: Vec<JsonValue>)
    ensures
        arr_elems(r@) == spec_strings_ser(strings_view(ss@)),
{
    let mut out: Vec<JsonValue> = Vec::new();
    let mut i: usize = 0;
    while i < ss.len()
        invariant
            0 <= i <= ss.len(),
            out@.len() == i as int,
            forall|j: int| 0 <= j < i ==> out@[j]@ == Jv::Str(ss@[j]@),
        decreases ss.len() - i,
    {
        out.push(JsonValue::Str(ss[i].clone()));
        i = i + 1;
    }
    proof {
        assert(arr_elems(out@) =~= spec_strings_ser(strings_view(ss@)));
    }
    out
}


/// Index of the first separator in the text, or `-1` when there is none.
pub open spec fn spec_first_sep(s: Seq<char>, sep: char) -> int
    decreases s.len(),
{
    if s.len() == 0 {
        -1
    } else if s[0] == sep {
        0
    } else {
        let r = spec_first_sep(s.skip(1), sep);
        if r < 0 {
            -1
        } else {
            r + 1
        }
    }
}

/// A found separator index is in bounds and the first of its kind.
pub proof fn lemma_first_sep(s: Seq<char>, sep: char)
    ensures
        spec_first_sep(s, sep) >= 0 ==> 0 <= spec_first_sep(s, sep) < s.len() && s[spec_first_sep(
            s,
            sep,
        )] == sep,
        spec_first_sep(s, sep) >= 0 ==> forall|j: int|
            0 <= j < spec_first_sep(s, sep) ==> s[j] != sep,
        spec_first_sep(s, sep) < 0 ==> forall|j: int| 0 <= j < s.len() ==> s[j] != sep,
    decreases s.len(),
{
    if s.len() > 0 && s[0] != sep {
        lemma_first_sep(s.skip(1), sep);
        let r = spec_first_sep(s, sep);
        if r >= 0 {
            assert forall|j: int| 0 <= j < r implies s[j] != sep by {
                if j > 0 {
                    assert(s[j] == s.skip(1)[j - 1]);
                }
            }
        } else {
            assert forall|j: int| 0 <= j < s.len() implies s[j] != sep by {
                if j > 0 {
                    assert(s[j] == s.skip(1)[j - 1]);
                }
            }
        }
    }
}

/// Splitting text on a separator, the way `str::split` does it: the empty
/// text gives one empty piece, and a trailing separator gives a trailing
/// empty piece.
pub open spec fn spec_split(s: Seq<char>, sep: char) -> Seq<Seq<char>>
    decreases s.len(),
    via spec_split_decreases
{
    let i = spec_first_sep(s, sep);
    if i < 0 {
        seq![s]
    } else {
        seq![s.subrange(0, i)] + spec_split(s.subrange(i + 1, s.len() as int), sep)
    }
}

#[via_fn]
proof fn spec_split_decreases(s: Seq<char>, sep: char) {
    lemma_first_sep(s, sep);
}

/// Positions of the reference-resolution walk.
pub enum PosModel {
    /// At the whole document.
    AtRoot,
    /// At a map from names to nodes.
    AtMap(Seq<(Seq<char>, PropModel)>),
    /// At one node.
    AtProp(PropModel),
    /// At one instance description.
    AtInst(InstModel),
}

/// One step of the walk. The segment `properties` moves into a property
/// map, position-dependently; `items` moves into an array node's element
/// description; any other segment is a key looked up in the current map.
pub open spec fn spec_step(seg: Seq<char>, pos: PosModel, root: SchemaModel) -> Option<PosModel> {
    if seg == "properties"@ {
        match pos {
            PosModel::AtInst(im) => match im {
                InstModel::Object { properties, .. } => Some(PosModel::AtMap(properties)),
                _ => None,
            },
            PosModel::AtMap(m) => {
                let i = spec_lookup_idx(m, "properties"@);
                if i >= 0 {
                    match m[i].1 {
                        PropModel::Value(
                            InstModel::Object { properties, .. },
                        ) => Some(PosModel::AtMap(properties)),
                        _ => None,
                    }
                } else {
                    None
                }
            },
            PosModel::AtProp(p) => match p {
                PropModel::Value(InstModel::Object { properties, .. }) => Some(
                    PosModel::AtMap(properties),
                ),
                _ => None,
            },
            PosModel::AtRoot => match crate::spec_root_object(root) {
                Some(im) => Some(PosModel::AtMap(im->Object_properties)),
                None => None,
            },
        }
    } else {
        match pos {
            PosModel::AtProp(p) => if seg == "items"@ {
                match p {
                    PropModel::Value(InstModel::Array { items }) => if items.len() > 0 {
                        Some(PosModel::AtInst(items[0]))
                    } else {
                        None
                    },
                    _ => None,
                }
            } else {
                None
            },
            PosModel::AtMap(m) => {
                let i = spec_lookup_idx(m, seg);
                if i >= 0 {
                    Some(PosModel::AtProp(m[i].1))
                } else {
                    None
                }
            },
            _ => None,
        }
    }
}

/// The walk over all remaining segments.
pub open spec fn spec_walk(segs: Seq<Seq<char>>, i: int, pos: PosModel, root: SchemaModel) -> Option<
    PosModel,
>
    decreases segs.len() - i,
{
    if i < 0 || i >= segs.len() {
        Some(pos)
    } else {
        match spec_step(segs[i], pos, root) {
            Some(next) => spec_walk(segs, i + 1, next, root),
            None => None,
        }
    }
}

/// What a reference resolves to against the document root: the reference
/// must start with `#/`; its path is walked from the root, and a chain of
/// references is followed while fuel remains.
pub open spec fn spec_resolve(reference: Seq<char>, root: SchemaModel, fuel: nat) -> Option<
    InstModel,
>
    decreases fuel,
{
    if !(reference.len() >= 2 && reference[0] == '#' && reference[1] == '/') {
        None
    } else {
        let segs = spec_split(reference.subrange(2, reference.len() as int), '/');
        match spec_walk(segs, 0, PosModel::AtRoot, root) {
            Some(PosModel::AtProp(PropModel::Value(im))) => Some(im),
            Some(PosModel::AtProp(PropModel::Ref(r2))) => if fuel == 0 {
                None
            } else {
                spec_resolve(r2, root, (fuel - 1) as nat)
            },
            Some(PosModel::AtInst(im)) => Some(im),
            _ => None,
        }
    }
}

/// Whether a list of names carries the given name.
pub open spec fn spec_has_name(ss: Seq<Seq<char>>, k: Seq<char>) -> bool {
    exists|i: int| 0 <= i < ss.len() && ss[i] == k
}

/// The errors matching one instance description against a JSON value.
pub open spec fn spec_validate_inst(
    node: InstModel,
    v: Jv,
    root: SchemaModel,
    fuel: nat,
) -> Seq<crate::validation::ErrModel>
    decreases fuel, node, 0int,
{
    match node {
        InstModel::Null => if v is Null {
            Seq::empty()
        } else {
            seq![
                crate::validation::ErrModel::Mismatch {
                    expected: crate::validation::JsonKind::Null,
                    found: v,
                },
            ]
        },
        InstModel::Boolean => if v is Bool {
            Seq::empty()
        } else {
            seq![
                crate::validation::ErrModel::Mismatch {
                    expected: crate::validation::JsonKind::Boolean,
                    found: v,
                },
            ]
        },
        InstModel::Text => if v is Str {
            Seq::empty()
        } else {
            seq![
                crate::validation::ErrModel::Mismatch {
                    expected: crate::validation::JsonKind::Text,
                    found: v,
                },
            ]
        },
        InstModel::Number { .. } => if v is Num {
            Seq::empty()
        } else {
            seq![
                crate::validation::ErrModel::Mismatch {
                    expected: crate::validation::JsonKind::Number,
                    found: v,
                },
            ]
        },
        InstModel::Integer { .. } => if v matches Jv::Num(n) && (n is Int || n is UInt) {
            Seq::empty()
        } else {
            seq![
                crate::validation::ErrModel::Mismatch {
                    expected: crate::validation::JsonKind::Integer,
                    found: v,
                },
            ]
        },
        InstModel::Array { items } => match v {
            Jv::Arr(xs) => if items.len() > 0 {
                spec_validate_elems(items[0], xs, root, fuel)
            } else {
                Seq::empty()
            },
            _ => seq![
                crate::validation::ErrModel::Mismatch {
                    expected: crate::validation::JsonKind::Array,
                    found: v,
                },
            ],
        },
        InstModel::Object { properties, required } => match v {
            Jv::Obj(es) => spec_validate_props(properties, required, es, root, fuel),
            _ => seq![
                crate::validation::ErrModel::Mismatch {
                    expected: crate::validation::JsonKind::Object,
                    found: v,
                },
            ],
        },
    }
}

/// The errors matching an array's elements against the element
/// description, all elements checked, in order.
pub open spec fn spec_validate_elems(
    item: InstModel,
    xs: Seq<Jv>,
    root: SchemaModel,
    fuel: nat,
) -> Seq<crate::validation::ErrModel>
    decreases fuel, item, xs.len() + 1,
{
    if xs.len() == 0 {
        Seq::empty()
    } else {
        spec_validate_inst(item, xs[0], root, fuel) + spec_validate_elems(
            item,
            xs.subrange(1, xs.len() as int),
            root,
            fuel,
        )
    }
}

/// The errors one declared property contributes: its sub-errors when the
/// key is present, a missing-required report when an absent key is
/// required, nothing otherwise. Undeclared keys of the input contribute
/// nothing.
pub open spec fn spec_validate_entry(
    key: Seq<char>,
    p: PropModel,
    required: Option<Seq<Seq<char>>>,
    es: Seq<(Seq<char>, Jv)>,
    root: SchemaModel,
    fuel: nat,
) -> Seq<crate::validation::ErrModel>
    decreases fuel, p, 0int,
{
    let j = spec_lookup_idx(es, key);
    if j >= 0 {
        match p {
            PropModel::Value(im) => spec_validate_inst(im, es[j].1, root, fuel),
            PropModel::Ref(r) => if fuel == 0 {
                seq![crate::validation::ErrModel::UnresolvedRef { reference: r }]
            } else {
                match spec_resolve(r, root, fuel) {
                    Some(im) => spec_validate_inst(im, es[j].1, root, (fuel - 1) as nat),
                    None => seq![crate::validation::ErrModel::UnresolvedRef { reference: r }],
                }
            },
        }
    } else {
        if required matches Some(ss) && spec_has_name(ss, key) {
            seq![crate::validation::ErrModel::MissingRequired { key }]
        } else {
            Seq::empty()
        }
    }
}

/// The errors of all declared properties, in declaration order.
pub open spec fn spec_validate_props(
    props: Seq<(Seq<char>, PropModel)>,
    required: Option<Seq<Seq<char>>>,
    es: Seq<(Seq<char>, Jv)>,
    root: SchemaModel,
    fuel: nat,
) -> Seq<crate::validation::ErrModel>
    decreases fuel, props, 1int,
    via spec_validate_props_decreases
{
    if props.len() == 0 {
        Seq::empty()
    } else {
        spec_validate_entry(props[0].0, props[0].1, required, es, root, fuel)
            + spec_validate_props(
            props.subrange(1, props.len() as int),
            required,
            es,
            root,
            fuel,
        )
    }
}

#[via_fn]
proof fn spec_validate_props_decreases(
    props: Seq<(Seq<char>, PropModel)>,
    required: Option<Seq<Seq<char>>>,
    es: Seq<(Seq<char>, Jv)>,
    root: SchemaModel,
    fuel: nat,
) {
    if props.len() > 0 {
        lemma_entry_decreases(props, 0);
        assert(decreases_to!(props => props.subrange(1, props.len() as int)));
    }
}

/// How deeply chained references are followed before resolution gives up.
pub const REF_FUEL: u64 = 64;

/// The errors validating a whole document: `true` accepts everything,
/// `false` rejects everything with one report, a definition validates
/// through its root node, a reference at the root is unsupported, and a
/// definition without a root node accepts everything.
pub open spec fn spec_validate_schema(m: SchemaModel, v: Jv, fuel: nat) -> Seq<
    crate::validation::ErrModel,
> {
    match m {
        SchemaModel::BooleanLiteral(b) => if b {
            Seq::empty()
        } else {
            seq![crate::validation::ErrModel::FalseSchema]
        },
        SchemaModel::Definition(d) => match d.specification {
            Some(PropModel::Value(im)) => spec_validate_inst(im, v, m, fuel),
            Some(PropModel::Ref(_)) => seq![crate::validation::ErrModel::UnsupportedRef],
            None => Seq::empty(),
        },
    }
}


/// A separator found at a position, with none before it, is the first.
pub proof fn lemma_first_sep_at(s: Seq<char>, sep: char, i: int)
    requires
        0 <= i < s.len(),
        s[i] == sep,
        forall|j: int| 0 <= j < i ==> s[j] != sep,
    ensures
        spec_first_sep(s, sep) == i,
    decreases i,
{
    if i > 0 {
        lemma_first_sep_at(s.skip(1), sep, i - 1);
    }
}

/// Text without the separator has no first occurrence of it.
pub proof fn lemma_first_sep_none(s: Seq<char>, sep: char)
    requires
        forall|j: int| 0 <= j < s.len() ==> s[j] != sep,
    ensures
        spec_first_sep(s, sep) == -1,
    decreases s.len(),
{
    if s.len() > 0 {
        lemma_first_sep_none(s.skip(1), sep);
    }
}

/// Finds the first `/` in the text.
fn find_slash(s: &str) -> (r: Option<usize>)
    ensures
        match r {
            Some(i) => spec_first_sep(s@, '/') == i as int,
            None => spec_first_sep(s@, '/') == -1,
        },
{
    let n = s.unicode_len();
    let mut i: usize = 0;
    while i < n
        invariant
            0 <= i <= n,
            n == s@.len(),
            forall|j: int| 0 <= j < i ==> s@[j] != '/',
        decreases n - i,
    {
        if s.get_char(i) == '/' {
            proof {
                lemma_first_sep_at(s@, '/', i as int);
            }
            return Some(i);
        }
        i = i + 1;
    }
    proof {
        lemma_first_sep_none(s@, '/');
    }
    None
}

/// Splits text on `/`, the way `str::split` does it.
fn split_slashes(s: &str) -> (r: Vec<String>)
    ensures
        strings_view(r@) == spec_split(s@, '/'),
    decreases s@.len(),
{
    let n = s.unicode_len();
    match find_slash(s) {
        None => {
            let mut out: Vec<String> = Vec::new();
            out.push(String::from_str(s));
            proof {
                assert(strings_view(out@) =~= seq![s@]);
            }
            out
        },
        Some(i) => {
            proof {
                lemma_first_sep(s@, '/');
            }
            let head = s.substring_char(0, i);
            let rest = s.substring_char(i + 1, n);
            let mut out = split_slashes(rest);
            let ghost pre = out@;
            let h = String::from_str(head);
            out.insert(0, h);
            proof {
                lemma_strings_view_insert(pre, h);
                assert(head@ =~= s@.subrange(0, i as int));
                assert(rest@ =~= s@.subrange(i as int + 1, s@.len() as int));
                assert(strings_view(out@) =~= seq![s@.subrange(0, i as int)] + spec_split(
                    s@.subrange(i as int + 1, s@.len() as int),
                    '/',
                ));
            }
            out
        },
    }
}

/// A position of the walk, borrowing from the document root.
enum Pos<'a> {
    AtRoot,
    AtMap(&'a Vec<(String, Property)>),
    AtProp(&'a Property),
    AtInst(&'a PropertyInstance),
}

/// The model of a walk position.
spec fn pos_view(p: Pos<'_>) -> PosModel {
    match p {
        Pos::AtRoot => PosModel::AtRoot,
        Pos::AtMap(m) => PosModel::AtMap(prop_entries_view(m@)),
        Pos::AtProp(q) => PosModel::AtProp(q@),
        Pos::AtInst(im) => PosModel::AtInst(im@),
    }
}

/// Looks up the first node with the given name in a property map.
fn lookup_prop<'a>(entries: &'a Vec<(String, Property)>, key: &String) -> (r: Option<
    &'a Property,
>)
    ensures
        match r {
            Some(p) => {
                let i = spec_lookup_idx(prop_entries_view(entries@), key@);
                0 <= i < entries@.len() && *p == entries@[i].1 && prop_entries_view(entries@)[i].1
                    == p@
            },
            None => spec_lookup_idx(prop_entries_view(entries@), key@) == -1,
        },
{
    let ghost evs = prop_entries_view(entries@);
    let mut i: usize = 0;
    while i < entries.len()
        invariant
            0 <= i <= entries.len(),
            evs == prop_entries_view(entries@),
            forall|j: int| 0 <= j < i ==> evs[j].0 != key@,
        decreases entries.len() - i,
    {
        if string_eq(&entries[i].0, key) {
            proof {
                lemma_idx_at(evs, key@, i as int);
            }
            return Some(&entries[i].1);
        }
        i = i + 1;
    }
    proof {
        lemma_idx_none(evs, key@);
    }
    None
}

/// One step of the reference walk.
fn walk_step<'a>(seg: &String, pos: Pos<'a>, root: &'a crate::Schema) -> (r: Option<Pos<'a>>)
    ensures
        match r {
            Some(next) => spec_step(seg@, pos_view(pos), root@) == Some(pos_view(next)),
            None => spec_step(seg@, pos_view(pos), root@) is None,
        },
{
    if string_eq(seg, &String::from_str("properties")) {
        match pos {
            Pos::AtInst(im) => match im {
                PropertyInstance::Object { properties, .. } => {
                    proof {
                        lemma_pev_is_view_ref(im);
                    }
                    Some(Pos::AtMap(properties))
                },
                _ => None,
            },
            Pos::AtMap(m) => {
                match lookup_prop(m, &String::from_str("properties")) {
                    Some(p) => match p {
                        Property::Value(inner) => match inner {
                            PropertyInstance::Object { properties, .. } => {
                                proof {
                                    lemma_pev_is_view_ref(inner);
                                }
                                Some(Pos::AtMap(properties))
                            },
                            _ => None,
                        },
                        _ => None,
                    },
                    None => None,
                }
            },
            Pos::AtProp(p) => match p {
                Property::Value(inner) => match inner {
                    PropertyInstance::Object { properties, .. } => {
                        proof {
                            lemma_pev_is_view_ref(inner);
                        }
                        Some(Pos::AtMap(properties))
                    },
                    _ => None,
                },
                _ => None,
            },
            Pos::AtRoot => match root.properties() {
                Some(properties) => Some(Pos::AtMap(properties)),
                None => None,
            },
        }
    } else if string_eq(seg, &String::from_str("items")) {
        match pos {
            Pos::AtProp(p) => match p {
                Property::Value(inner) => match inner {
                    PropertyInstance::Array { items } => {
                        proof {
                            assert(inner@ matches InstModel::Array { items: it } && it
                                == seq![(&**items)@]);
                        }
                        Some(Pos::AtInst(&**items))
                    },
                    _ => None,
                },
                _ => None,
            },
            Pos::AtMap(m) => {
                match lookup_prop(m, seg) {
                    Some(p) => Some(Pos::AtProp(p)),
                    None => None,
                }
            },
            _ => None,
        }
    } else {
        match pos {
            Pos::AtMap(m) => {
                match lookup_prop(m, seg) {
                    Some(p) => Some(Pos::AtProp(p)),
                    None => None,
                }
            },
            _ => None,
        }
    }
}

/// Resolves a reference against the root, following chained references
/// while fuel remains.
pub(crate) fn deref_fuel<'a>(reference: &String, root: &'a crate::Schema, fuel: u64) -> (r: Option<
    &'a PropertyInstance,
>)
    ensures
        match r {
            Some(im) => spec_resolve(reference@, root@, fuel as nat) == Some(im@),
            None => spec_resolve(reference@, root@, fuel as nat) is None,
        },
    decreases fuel,
{
    let s = reference.as_str();
    let n = s.unicode_len();
    if !(n >= 2 && s.get_char(0) == '#' && s.get_char(1) == '/') {
        return None;
    }
    let rest = s.substring_char(2, n);
    proof {
        assert(rest@ =~= reference@.subrange(2, reference@.len() as int));
    }
    let segs = split_slashes(rest);
    let ghost sv = spec_split(reference@.subrange(2, reference@.len() as int), '/');
    let mut pos = Pos::AtRoot;
    let mut i: usize = 0;
    proof {
        assert(strings_view(segs@) == sv);
    }
    while i < segs.len()
        invariant
            0 <= i <= segs.len(),
            segs@.len() == sv.len(),
            strings_view(segs@) == sv,
            reference@.len() >= 2 && reference@[0] == '#' && reference@[1] == '/',
            sv == spec_split(reference@.subrange(2, reference@.len() as int), '/'),
            spec_walk(sv, 0, PosModel::AtRoot, root@) == spec_walk(
                sv,
                i as int,
                pos_view(pos),
                root@,
            ),
        decreases segs.len() - i,
    {
        proof {
            assert(sv[i as int] == segs@[i as int]@);
        }
        match walk_step(&segs[i], pos, root) {
            Some(next) => {
                pos = next;
                i = i + 1;
            },
            None => {
                return None;
            },
        }
    }
    match pos {
        Pos::AtProp(p) => match p {
            Property::Value(im) => Some(im),
            Property::Ref(rp) => {
                if fuel == 0 {
                    None
                } else {
                    deref_fuel(&rp.reference, root, fuel - 1)
                }
            },
        },
        Pos::AtInst(im) => Some(im),
        _ => None,
    }
}

impl RefProperty {
    /// Resolves this reference against the document root: the path after
    /// `#/` is walked from the root, and a chain of references is followed
    /// up to a fixed depth.
    pub fn deref<'a>(&self, schema: &'a crate::Schema) -> (r: Option<&'a PropertyInstance>)
        ensures
            match r {
                Some(im) => spec_resolve(self.reference@, schema@, REF_FUEL as nat) == Some(im@),
                None => spec_resolve(self.reference@, schema@, REF_FUEL as nat) is None,
            },
    {
        deref_fuel(&self.reference, schema, REF_FUEL)
    }
}


/// Whether the list of names carries the given name.
fn has_name(ss: &Vec<String>, k: &String) -> (r: bool)
    ensures
        r == spec_has_name(strings_view(ss@), k@),
{
    let mut i: usize = 0;
    while i < ss.len()
        invariant
            0 <= i <= ss.len(),
            forall|j: int| 0 <= j < i ==> strings_view(ss@)[j] != k@,
        decreases ss.len() - i,
    {
        if string_eq(&ss[i], k) {
            proof {
                assert(strings_view(ss@)[i as int] == k@);
            }
            return true;
        }
        i = i + 1;
    }
    false
}

/// The model of an optional list of names.
pub open spec fn opt_strings_view(o: Option<Vec<String>>) -> Option<Seq<Seq<char>>> {
    match o {
        Some(ss) => Some(strings_view(ss@)),
        None => None,
    }
}

/// Matches one instance description against a JSON value, collecting every
/// mismatch.
pub fn validate_node(
    node: &PropertyInstance,
    v: &JsonValue,
    root: &crate::Schema,
    fuel: u64,
) -> (errs: Vec<crate::validation::ValidationError>)
    ensures
        crate::validation::errs_view(errs@) == spec_validate_inst(node@, v@, root@, fuel as nat),
    decreases fuel, *node, 0int,
{
    let ghost goal = spec_validate_inst(node@, v@, root@, fuel as nat);
    match node {
        PropertyInstance::Null => match v {
            JsonValue::Null => {
                let errs: Vec<crate::validation::ValidationError> = Vec::new();
                proof {
                    assert(crate::validation::errs_view(errs@) =~= goal);
                }
                errs
            },
            _ => mismatch(crate::validation::JsonKind::Null, v),
        },
        PropertyInstance::Boolean => match v {
            JsonValue::Bool(_) => {
                let errs: Vec<crate::validation::ValidationError> = Vec::new();
                proof {
                    assert(crate::validation::errs_view(errs@) =~= goal);
                }
                errs
            },
            _ => mismatch(crate::validation::JsonKind::Boolean, v),
        },
        PropertyInstance::String => match v {
            JsonValue::Str(_) => {
                let errs: Vec<crate::validation::ValidationError> = Vec::new();
                proof {
                    assert(crate::validation::errs_view(errs@) =~= goal);
                }
                errs
            },
            _ => mismatch(crate::validation::JsonKind::Text, v),
        },
        PropertyInstance::Number { .. } => match v {
            JsonValue::Number(_) => {
                let errs: Vec<crate::validation::ValidationError> = Vec::new();
                proof {
                    assert(crate::validation::errs_view(errs@) =~= goal);
                }
                errs
            },
            _ => mismatch(crate::validation::JsonKind::Number, v),
        },
        PropertyInstance::Integer { .. } => match v {
            JsonValue::Number(n) => {
                if n.is_integer() {
                    let errs: Vec<crate::validation::ValidationError> = Vec::new();
                    proof {
                        assert(crate::validation::errs_view(errs@) =~= goal);
                    }
                    errs
                } else {
                    mismatch(crate::validation::JsonKind::Integer, v)
                }
            },
            _ => mismatch(crate::validation::JsonKind::Integer, v),
        },
        PropertyInstance::Array { items } => match v {
            JsonValue::Array(xs) => {
                proof {
                    assert(node@ matches InstModel::Array { items: it } && it == seq![
                        (&**items)@,
                    ]);
                    assert(arr_elems(xs@).subrange(0, xs@.len() as int) =~= arr_elems(xs@));
                }
                validate_elems(&**items, xs, root, fuel, 0)
            },
            _ => mismatch(crate::validation::JsonKind::Array, v),
        },
        PropertyInstance::Object { properties, required } => match v {
            JsonValue::Object(es) => {
                proof {
                    lemma_pev_is_view_ref(node);
                    assert(prop_entries_view(properties@).subrange(
                        0,
                        properties@.len() as int,
                    ) =~= prop_entries_view(properties@));
                }
                validate_props(properties, required, es, root, fuel, 0)
            },
            _ => mismatch(crate::validation::JsonKind::Object, v),
        },
    }
}

/// One mismatch report, carrying the found value.
fn mismatch(expected: crate::validation::JsonKind, v: &JsonValue) -> (errs: Vec<
    crate::validation::ValidationError,
>)
    ensures
        crate::validation::errs_view(errs@) == seq![
            crate::validation::ErrModel::Mismatch { expected, found: v@ },
        ],
{
    let mut errs: Vec<crate::validation::ValidationError> = Vec::new();
    errs.push(crate::validation::ValidationError::Mismatch { expected, found: v.clone() });
    proof {
        assert(crate::validation::errs_view(errs@) =~= seq![
            crate::validation::ErrModel::Mismatch { expected, found: v@ },
        ]);
    }
    errs
}

/// Matches every array element against the element description, from the
/// given position on.
fn validate_elems(
    item: &PropertyInstance,
    xs: &Vec<JsonValue>,
    root: &crate::Schema,
    fuel: u64,
    i: usize,
) -> (errs: Vec<crate::validation::ValidationError>)
    requires
        i <= xs@.len(),
    ensures
        crate::validation::errs_view(errs@) == spec_validate_elems(
            item@,
            arr_elems(xs@).subrange(i as int, xs@.len() as int),
            root@,
            fuel as nat,
        ),
    decreases fuel, *item, xs@.len() - i + 1,
{
    let ghost tail = arr_elems(xs@).subrange(i as int, xs@.len() as int);
    if i == xs.len() {
        let errs: Vec<crate::validation::ValidationError> = Vec::new();
        proof {
            assert(tail.len() == 0);
            assert(crate::validation::errs_view(errs@) =~= Seq::<
                crate::validation::ErrModel,
            >::empty());
        }
        errs
    } else {
        proof {
            assert(tail[0] == xs@[i as int]@);
            assert(tail.subrange(1, tail.len() as int) =~= arr_elems(xs@).subrange(
                i as int + 1,
                xs@.len() as int,
            ));
        }
        let mut errs = validate_node(item, &xs[i], root, fuel);
        let ghost head_errs = errs@;
        let mut rest = validate_elems(item, xs, root, fuel, i + 1);
        let ghost rest_errs = rest@;
        errs.append(&mut rest);
        proof {
            crate::validation::lemma_errs_view_concat(head_errs, rest_errs);
        }
        errs
    }
}

/// The reports one declared property contributes against the input object.
fn validate_entry(
    key: &String,
    p: &Property,
    required: &Option<Vec<String>>,
    es: &Vec<(String, JsonValue)>,
    root: &crate::Schema,
    fuel: u64,
) -> (errs: Vec<crate::validation::ValidationError>)
    ensures
        crate::validation::errs_view(errs@) == spec_validate_entry(
            key@,
            p@,
            opt_strings_view(*required),
            entries_view(es@),
            root@,
            fuel as nat,
        ),
    decreases fuel, *p, 0int,
{
    let ghost goal = spec_validate_entry(
        key@,
        p@,
        opt_strings_view(*required),
        entries_view(es@),
        root@,
        fuel as nat,
    );
    match lookup(es, key) {
        Some(v) => {
            let ghost j = spec_lookup_idx(entries_view(es@), key@);
            proof {
                assert(entries_view(es@)[j] == (es@[j].0@, es@[j].1@));
                assert(v@ == entries_view(es@)[j].1);
            }
            match p {
                Property::Value(im) => validate_node(im, v, root, fuel),
                Property::Ref(rp) => {
                    if fuel == 0 {
                        let mut errs: Vec<crate::validation::ValidationError> = Vec::new();
                        errs.push(
                            crate::validation::ValidationError::UnresolvedRef {
                                reference: rp.reference.clone(),
                            },
                        );
                        proof {
                            assert(crate::validation::errs_view(errs@) =~= goal);
                        }
                        errs
                    } else {
                        match deref_fuel(&rp.reference, root, fuel) {
                            Some(im) => validate_node(im, v, root, fuel - 1),
                            None => {
                                let mut errs: Vec<crate::validation::ValidationError> = Vec::new();
                                errs.push(
                                    crate::validation::ValidationError::UnresolvedRef {
                                        reference: rp.reference.clone(),
                                    },
                                );
                                proof {
                                    assert(crate::validation::errs_view(errs@) =~= goal);
                                }
                                errs
                            },
                        }
                    }
                },
            }
        },
        None => {
            let miss = match required {
                Some(ss) => has_name(ss, key),
                None => false,
            };
            if miss {
                let mut errs: Vec<crate::validation::ValidationError> = Vec::new();
                errs.push(
                    crate::validation::ValidationError::MissingRequired { key: key.clone() },
                );
                proof {
                    assert(crate::validation::errs_view(errs@) =~= goal);
                }
                errs
            } else {
                let errs: Vec<crate::validation::ValidationError> = Vec::new();
                proof {
                    assert(crate::validation::errs_view(errs@) =~= goal);
                }
                errs
            }
        },
    }
}

/// The reports of all declared properties, from the given position on.
fn validate_props(
    props: &Vec<(String, Property)>,
    required: &Option<Vec<String>>,
    es: &Vec<(String, JsonValue)>,
    root: &crate::Schema,
    fuel: u64,
    i: usize,
) -> (errs: Vec<crate::validation::ValidationError>)
    requires
        i <= props@.len(),
    ensures
        crate::validation::errs_view(errs@) == spec_validate_props(
            prop_entries_view(props@).subrange(i as int, props@.len() as int),
            opt_strings_view(*required),
            entries_view(es@),
            root@,
            fuel as nat,
        ),
    decreases fuel, *props, props@.len() - i + 1,
{
    let ghost tail = prop_entries_view(props@).subrange(i as int, props@.len() as int);
    if i == props.len() {
        let errs: Vec<crate::validation::ValidationError> = Vec::new();
        proof {
            assert(tail.len() == 0);
            assert(crate::validation::errs_view(errs@) =~= Seq::<
                crate::validation::ErrModel,
            >::empty());
        }
        errs
    } else {
        proof {
            assert(tail[0] == (props@[i as int].0@, props@[i as int].1@));
            assert(tail.subrange(1, tail.len() as int) =~= prop_entries_view(props@).subrange(
                i as int + 1,
                props@.len() as int,
            ));
            assert(decreases_to!(*props => props@[i as int]));
            assert(decreases_to!(props@[i as int] => props@[i as int].1));
        }
        let mut errs = validate_entry(&props[i].0, &props[i].1, required, es, root, fuel);
        let ghost head_errs = errs@;
        let mut rest = validate_props(props, required, es, root, fuel, i + 1);
        let ghost rest_errs = rest@;
        errs.append(&mut rest);
        proof {
            crate::validation::lemma_errs_view_concat(head_errs, rest_errs);
        }
        errs
    }
}

impl PropertyInstance {
    /// Matches a JSON value against this node alone: with no document to
    /// resolve against, any reference reached reports as unresolved.
    pub fn validate(&self, json: &JsonValue) -> (r: Result<
        (),
        Vec<crate::validation::ValidationError>,
    >)
        ensures
            r is Ok <==> spec_validate_inst(
                self@,
                json@,
                SchemaModel::BooleanLiteral(true),
                REF_FUEL as nat,
            ) == Seq::<crate::validation::ErrModel>::empty(),
            r matches Err(es) ==> crate::validation::errs_view(es@) == spec_validate_inst(
                self@,
                json@,
                SchemaModel::BooleanLiteral(true),
                REF_FUEL as nat,
            ) && es@.len() > 0,
    {
        let root = crate::Schema::BooleanLiteral(true);
        let errs = validate_node(self, json, &root, REF_FUEL);
        let ghost goal = spec_validate_inst(
            self@,
            json@,
            SchemaModel::BooleanLiteral(true),
            REF_FUEL as nat,
        );
        if errs.len() == 0 {
            proof {
                assert(crate::validation::errs_view(errs@) =~= Seq::<
                    crate::validation::ErrModel,
                >::empty());
            }
            Ok(())
        } else {
            proof {
                assert(goal.len() == errs@.len());
            }
            Err(errs)
        }
    }
}


/// Whether a node is a plain, non-nesting description: nothing inside it
/// can itself require keys.
pub open spec fn spec_flat_prop(p: PropModel) -> bool {
    p matches PropModel::Value(im) && (im is Null || im is Boolean || im is Integer || im is Number
        || im is Text)
}

/// A plain node's reports are never missing-key reports.
proof fn lemma_flat_validate_no_missing(
    im: InstModel,
    v: Jv,
    root: SchemaModel,
    fuel: nat,
    k: Seq<char>,
)
    requires
        im is Null || im is Boolean || im is Integer || im is Number || im is Text,
    ensures
        forall|j: int|
            0 <= j < spec_validate_inst(im, v, root, fuel).len()
                ==> spec_validate_inst(im, v, root, fuel)[j]
                != (crate::validation::ErrModel::MissingRequired { key: k }),
{
}

/// Validating an object that lacks a declared, required key reports that
/// key as missing.
pub proof fn lemma_missing_required_reported(
    props: Seq<(Seq<char>, PropModel)>,
    ss: Seq<Seq<char>>,
    es: Seq<(Seq<char>, Jv)>,
    root: SchemaModel,
    fuel: nat,
    k: Seq<char>,
)
    requires
        spec_lookup_idx(props, k) >= 0,
        spec_has_name(ss, k),
        spec_lookup_idx(es, k) == -1,
    ensures
        spec_validate_props(props, Some(ss), es, root, fuel).contains(
            crate::validation::ErrModel::MissingRequired { key: k },
        ),
    decreases props.len(),
{
    lemma_lookup_idx(props, k);
    let head = spec_validate_entry(props[0].0, props[0].1, Some(ss), es, root, fuel);
    let rest = spec_validate_props(
        props.subrange(1, props.len() as int),
        Some(ss),
        es,
        root,
        fuel,
    );
    let miss = crate::validation::ErrModel::MissingRequired { key: k };
    if props[0].0 == k {
        assert(head == seq![miss]);
        assert((head + rest)[0] == miss);
        assert(spec_validate_props(props, Some(ss), es, root, fuel).contains(miss));
    } else {
        assert(spec_lookup_idx(props.subrange(1, props.len() as int), k) >= 0) by {
            assert(props.subrange(1, props.len() as int) =~= props.skip(1));
        }
        lemma_missing_required_reported(
            props.subrange(1, props.len() as int),
            ss,
            es,
            root,
            fuel,
            k,
        );
        let j = choose|j: int| 0 <= j < rest.len() && rest[j] == miss;
        assert((head + rest)[head.len() + j] == miss);
        assert(spec_validate_props(props, Some(ss), es, root, fuel).contains(miss));
    }
}

/// Validating an object that carries a key never reports that key as
/// missing, as long as every declared node is plain.
pub proof fn lemma_present_key_not_missing(
    props: Seq<(Seq<char>, PropModel)>,
    required: Option<Seq<Seq<char>>>,
    es: Seq<(Seq<char>, Jv)>,
    root: SchemaModel,
    fuel: nat,
    k: Seq<char>,
)
    requires
        forall|i: int| 0 <= i < props.len() ==> spec_flat_prop(#[trigger] props[i].1),
        spec_lookup_idx(es, k) >= 0,
    ensures
        forall|j: int|
            0 <= j < spec_validate_props(props, required, es, root, fuel).len()
                ==> spec_validate_props(props, required, es, root, fuel)[j]
                != (crate::validation::ErrModel::MissingRequired { key: k }),
    decreases props.len(),
{
    lemma_lookup_idx(es, k);
    if props.len() > 0 {
        let head = spec_validate_entry(props[0].0, props[0].1, required, es, root, fuel);
        let rest = spec_validate_props(props.subrange(1, props.len() as int), required, es, root, fuel);
        let miss = crate::validation::ErrModel::MissingRequired { key: k };
        assert(spec_flat_prop(props[0].1));
        let im = props[0].1->Value_0;
        let j0 = spec_lookup_idx(es, props[0].0);
        if j0 >= 0 {
            lemma_flat_validate_no_missing(im, es[j0].1, root, fuel, k);
            assert(forall|j: int| 0 <= j < head.len() ==> head[j] != miss);
        } else {
            assert(props[0].0 != k);
            assert(forall|j: int| 0 <= j < head.len() ==> head[j] != miss);
        }
        lemma_present_key_not_missing(
            props.subrange(1, props.len() as int),
            required,
            es,
            root,
            fuel,
            k,
        );
        assert(forall|j: int|
            0 <= j < (head + rest).len() ==> (head + rest)[j] != miss) by {
            assert(forall|j: int| 0 <= j < rest.len() ==> rest[j] != miss);
        }
    }
}

/// Keys of the input that no property declares never change the reports:
/// adding such a key to the input validates to the same list.
pub proof fn lemma_undeclared_key_ignored(
    props: Seq<(Seq<char>, PropModel)>,
    required: Option<Seq<Seq<char>>>,
    es: Seq<(Seq<char>, Jv)>,
    root: SchemaModel,
    fuel: nat,
    k: Seq<char>,
    v: Jv,
)
    requires
        spec_lookup_idx(props, k) == -1,
    ensures
        spec_validate_props(props, required, es + seq![(k, v)], root, fuel) == spec_validate_props(
            props,
            required,
            es,
            root,
            fuel,
        ),
    decreases props.len(),
{
    lemma_lookup_idx(props, k);
    if props.len() > 0 {
        let key = props[0].0;
        assert(key != k);
        let j = spec_lookup_idx(es, key);
        lemma_lookup_idx(es, key);
        if j >= 0 {
            lemma_idx_concat_left(es, seq![(k, v)], key);
        } else {
            lemma_idx_concat_right(es, seq![(k, v)], key);
            lemma_lookup_idx(seq![(k, v)], key);
            assert(spec_lookup_idx(seq![(k, v)], key) == -1) by {
                lemma_idx_none(seq![(k, v)], key);
            }
        }
        assert(spec_validate_entry(key, props[0].1, required, es + seq![(k, v)], root, fuel)
            == spec_validate_entry(key, props[0].1, required, es, root, fuel));
        assert(spec_lookup_idx(props.subrange(1, props.len() as int), k) == -1) by {
            assert(props.subrange(1, props.len() as int) =~= props.skip(1));
        }
        lemma_undeclared_key_ignored(
            props.subrange(1, props.len() as int),
            required,
            es,
            root,
            fuel,
            k,
            v,
        );
    }
}


/// An object node whose declared, required key is absent from the input
/// reports that key as missing.
pub proof fn lemma_object_missing_required(
    properties: Seq<(Seq<char>, PropModel)>,
    ss: Seq<Seq<char>>,
    es: Seq<(Seq<char>, Jv)>,
    root: SchemaModel,
    fuel: nat,
    k: Seq<char>,
)
    requires
        spec_lookup_idx(properties, k) >= 0,
        spec_has_name(ss, k),
        spec_lookup_idx(es, k) == -1,
    ensures
        spec_validate_inst(
            InstModel::Object { properties, required: Some(ss) },
            Jv::Obj(es),
            root,
            fuel,
        ).contains(crate::validation::ErrModel::MissingRequired { key: k }),
        spec_validate_inst(
            InstModel::Object { properties, required: Some(ss) },
            Jv::Obj(es),
            root,
            fuel,
        ).len() > 0,
{
    lemma_missing_required_reported(properties, ss, es, root, fuel, k);
}

/// An object node never reports a key the input carries as missing, as
/// long as every declared node is plain.
pub proof fn lemma_object_present_not_missing(
    properties: Seq<(Seq<char>, PropModel)>,
    required: Option<Seq<Seq<char>>>,
    es: Seq<(Seq<char>, Jv)>,
    root: SchemaModel,
    fuel: nat,
    k: Seq<char>,
)
    requires
        forall|i: int| 0 <= i < properties.len() ==> spec_flat_prop(#[trigger] properties[i].1),
        spec_lookup_idx(es, k) >= 0,
    ensures
        forall|j: int|
            0 <= j < spec_validate_inst(
                InstModel::Object { properties, required },
                Jv::Obj(es),
                root,
                fuel,
            ).len() ==> spec_validate_inst(
                InstModel::Object { properties, required },
                Jv::Obj(es),
                root,
                fuel,
            )[j] != (crate::validation::ErrModel::MissingRequired { key: k }),
{
    lemma_present_key_not_missing(properties, required, es, root, fuel, k);
}

/// An object node ignores input keys that no property declares: appending
/// such a key to the input leaves the reports unchanged.
pub proof fn lemma_object_ignores_undeclared(
    properties: Seq<(Seq<char>, PropModel)>,
    required: Option<Seq<Seq<char>>>,
    es: Seq<(Seq<char>, Jv)>,
    root: SchemaModel,
    fuel: nat,
    k: Seq<char>,
    v: Jv,
)
    requires
        spec_lookup_idx(properties, k) == -1,
    ensures
        spec_validate_inst(
            InstModel::Object { properties, required },
            Jv::Obj(es + seq![(k, v)]),
            root,
            fuel,
        ) == spec_validate_inst(InstModel::Object { properties, required }, Jv::Obj(es), root, fuel),
{
    lemma_undeclared_key_ignored(properties, required, es, root, fuel, k, v);
}

} // verus!
