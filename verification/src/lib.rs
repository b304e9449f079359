//! A typed, immutable model of JSON Schema documents (a draft-07 subset),
//! together with a structural validator.
//!
//! A document is parsed once into a [`Schema`] — either a full definition or
//! a bare boolean — and never mutated afterwards. Validation matches JSON
//! values against the schema tree and accumulates structured mismatch
//! reports instead of stopping at the first one. `$ref` strings are lookup
//! paths into the root document, resolved anew every time they are followed.
pub mod error;
pub mod id;
pub mod json;
pub mod property;
pub mod validation;

use vstd::prelude::*;

use crate::error::{Error, ErrorKind};
use crate::id::{IdModel, SchemaId, spec_parse_id, spec_id_text, url_normal};
use crate::json::{
    Jv, JsonValue, entries_view, spec_lookup_idx, lemma_lookup_idx, lemma_entry_decreases, lookup,
};
use crate::property::{
    PropModel, InstModel, Property, PropertyInstance, spec_prop_of_entries, spec_inst_entries,
    spec_strings_ser, strings_view, spec_strings_of, spec_inst_of, spec_type_word, wf_inst,
    wf_prop, wf_props, wf_criteria, is_node_key, lemma_keys, lemma_inst_rt, lemma_props_rt,
    lemma_strings_rt, spec_criteria_of,
};
use crate::json::{lemma_idx_none, lemma_idx_at, lemma_idx_concat_left, lemma_idx_concat_right};

verus! {

/// Mathematical model of a full schema definition.
pub struct DefModel {
    pub id: Option<IdModel>,
    pub dialect: Option<Seq<char>>,
    pub description: Option<Seq<char>>,
    pub dependencies: Option<Seq<(Seq<char>, Seq<Seq<char>>)>>,
    pub specification: Option<PropModel>,
    pub definitions: Option<Seq<(Seq<char>, DefModel)>>,
}

/// Mathematical model of a schema document.
pub enum SchemaModel {
    Definition(DefModel),
    BooleanLiteral(bool),
}

/// A full schema definition: the document's identifying fields and its
/// flattened root-level type description.
#[derive(Debug, PartialEq)]
pub struct SchemaDefinition {
    /// The `$id` value.
    pub id: Option<SchemaId>,
    /// The `$schema` value: the dialect URL in normalized text form.
    pub schema: Option<String>,
    /// The `description` value.
    pub description: Option<String>,
    /// The `dependencies` map: key names to lists of key names.
    pub dependencies: Option<Vec<(String, Vec<String>)>>,
    /// The flattened root-level type description, when the document carries
    /// a `type` or `$ref` entry.
    pub specification: Option<Property>,
    /// Named sub-schemas, each an independent definition tree.
    pub definitions: Option<Vec<(String, SchemaDefinition)>>,
}

/// A schema document: a full definition, or the literal `true` / `false`.
/// `true` matches every instance; `false` matches none.
#[derive(Debug, PartialEq)]
pub enum Schema {
    Definition(SchemaDefinition),
    BooleanLiteral(bool),
}

/// The model of a definitions map.
pub open spec fn defs_view(es: Seq<(String, SchemaDefinition)>) -> Seq<(Seq<char>, DefModel)>
    decreases es,
{
    Seq::new(
        es.len(),
        |i: int|
            if 0 <= i < es.len() {
                (es[i].0@, es[i].1@)
            } else {
                (
                    Seq::empty(),
                    DefModel {
                        id: None,
                        dialect: None,
                        description: None,
                        dependencies: None,
                        specification: None,
                        definitions: None,
                    },
                )
            },
    )
}

/// The model of a dependencies map.
pub open spec fn deps_view(ds: Seq<(String, Vec<String>)>) -> Seq<(Seq<char>, Seq<Seq<char>>)> {
    Seq::new(
        ds.len(),
        |i: int|
            if 0 <= i < ds.len() {
                (ds[i].0@, strings_view(ds[i].1@))
            } else {
                (Seq::empty(), Seq::empty())
            },
    )
}

/// The model of an optional string.
pub open spec fn opt_str_view(o: Option<String>) -> Option<Seq<char>> {
    match o {
        Some(s) => Some(s@),
        None => None,
    }
}

impl View for SchemaDefinition {
    type V = DefModel;

    open spec fn view(&self) -> DefModel
        decreases self,
    {
        DefModel {
            id: match &self.id {
                Some(m) => Some(m@),
                None => None,
            },
            dialect: opt_str_view(self.schema),
            description: opt_str_view(self.description),
            dependencies: match &self.dependencies {
                Some(ds) => Some(deps_view(ds@)),
                None => None,
            },
            specification: match &self.specification {
                Some(p) => Some(p@),
                None => None,
            },
            definitions: match &self.definitions {
                Some(ds) => Some(defs_view(ds@)),
                None => None,
            },
        }
    }
}

impl View for Schema {
    type V = SchemaModel;

    open spec fn view(&self) -> SchemaModel {
        match self {
            Schema::Definition(d) => SchemaModel::Definition(d@),
            Schema::BooleanLiteral(b) => SchemaModel::BooleanLiteral(*b),
        }
    }
}

/// What a `$id` entry yields: an identifier, nothing for `null` or absence,
/// an error for any other shape.
pub open spec fn spec_id_field(es: Seq<(Seq<char>, Jv)>) -> Result<Option<IdModel>, ErrorKind> {
    let i = spec_lookup_idx(es, "$id"@);
    if i < 0 {
        Ok(None)
    } else {
        match es[i].1 {
            Jv::Null => Ok(None),
            Jv::Str(s) => match spec_parse_id(s) {
                Some(m) => Ok(Some(m)),
                None => Err(ErrorKind::InvalidIdentifier),
            },
            _ => Err(ErrorKind::InvalidShape),
        }
    }
}

/// What a `$schema` entry yields: the dialect URL's normalized text,
/// nothing for `null` or absence, an error for any other shape or a string
/// that is not an absolute URL.
pub open spec fn spec_dialect_field(es: Seq<(Seq<char>, Jv)>) -> Result<
    Option<Seq<char>>,
    ErrorKind,
> {
    let i = spec_lookup_idx(es, "$schema"@);
    if i < 0 {
        Ok(None)
    } else {
        match es[i].1 {
            Jv::Null => Ok(None),
            Jv::Str(s) => match url_normal(s) {
                Some(t) => Ok(Some(t)),
                None => Err(ErrorKind::InvalidIdentifier),
            },
            _ => Err(ErrorKind::InvalidShape),
        }
    }
}

/// What a `description` entry yields.
pub open spec fn spec_description_field(es: Seq<(Seq<char>, Jv)>) -> Result<
    Option<Seq<char>>,
    ErrorKind,
> {
    let i = spec_lookup_idx(es, "description"@);
    if i < 0 {
        Ok(None)
    } else {
        match es[i].1 {
            Jv::Null => Ok(None),
            Jv::Str(s) => Ok(Some(s)),
            _ => Err(ErrorKind::InvalidShape),
        }
    }
}

/// The map a `dependencies` object gives: each value a list of key names.
pub open spec fn spec_string_map_of(des: Seq<(Seq<char>, Jv)>) -> Result<
    Seq<(Seq<char>, Seq<Seq<char>>)>,
    ErrorKind,
>
    decreases des,
{
    if des.len() == 0 {
        Ok(Seq::empty())
    } else {
        match des[0].1 {
            Jv::Arr(xs) => match spec_strings_of(xs) {
                Ok(ss) => match spec_string_map_of(des.subrange(1, des.len() as int)) {
                    Ok(rest) => Ok(seq![(des[0].0, ss)] + rest),
                    Err(e) => Err(e),
                },
                Err(e) => Err(e),
            },
            _ => Err(ErrorKind::InvalidShape),
        }
    }
}

/// What a `dependencies` entry yields.
pub open spec fn spec_dependencies_field(es: Seq<(Seq<char>, Jv)>) -> Result<
    Option<Seq<(Seq<char>, Seq<Seq<char>>)>>,
    ErrorKind,
> {
    let i = spec_lookup_idx(es, "dependencies"@);
    if i < 0 {
        Ok(None)
    } else {
        match es[i].1 {
            Jv::Null => Ok(None),
            Jv::Obj(des) => match spec_string_map_of(des) {
                Ok(m) => Ok(Some(m)),
                Err(e) => Err(e),
            },
            _ => Err(ErrorKind::InvalidShape),
        }
    }
}

/// The definition a schema object's entries give.
pub open spec fn spec_def_of(es: Seq<(Seq<char>, Jv)>) -> Result<DefModel, ErrorKind>
    decreases es, 1int,
    via spec_def_of_decreases
{
    match spec_id_field(es) {
        Err(e) => Err(e),
        Ok(id) => match spec_dialect_field(es) {
            Err(e) => Err(e),
            Ok(dialect) => match spec_description_field(es) {
                Err(e) => Err(e),
                Ok(description) => match spec_dependencies_field(es) {
                    Err(e) => Err(e),
                    Ok(dependencies) => match spec_prop_of_entries(es) {
                        Err(e) => Err(e),
                        Ok(specification) => {
                            let i = spec_lookup_idx(es, "definitions"@);
                            if i < 0 {
                                Ok(
                                    DefModel {
                                        id,
                                        dialect,
                                        description,
                                        dependencies,
                                        specification,
                                        definitions: None,
                                    },
                                )
                            } else {
                                match es[i].1 {
                                    Jv::Null => Ok(
                                        DefModel {
                                            id,
                                            dialect,
                                            description,
                                            dependencies,
                                            specification,
                                            definitions: None,
                                        },
                                    ),
                                    Jv::Obj(ds) => match spec_defs_of(ds) {
                                        Ok(defs) => Ok(
                                            DefModel {
                                                id,
                                                dialect,
                                                description,
                                                dependencies,
                                                specification,
                                                definitions: Some(defs),
                                            },
                                        ),
                                        Err(e) => Err(e),
                                    },
                                    _ => Err(ErrorKind::InvalidShape),
                                }
                            }
                        },
                    },
                },
            },
        },
    }
}

#[via_fn]
proof fn spec_def_of_decreases(es: Seq<(Seq<char>, Jv)>) {
    let i = spec_lookup_idx(es, "definitions"@);
    if i >= 0 {
        lemma_lookup_idx(es, "definitions"@);
        lemma_entry_decreases(es, i);
        if es[i].1 matches Jv::Obj(ds) {
            assert(decreases_to!(es[i].1 => es[i].1->Obj_0));
            assert(decreases_to!(es => es[i].1->Obj_0));
        }
    }
}

/// The named sub-schemas a `definitions` object gives: each value must be
/// an object holding a definition.
pub open spec fn spec_defs_of(ds: Seq<(Seq<char>, Jv)>) -> Result<
    Seq<(Seq<char>, DefModel)>,
    ErrorKind,
>
    decreases ds, 2int,
    via spec_defs_of_decreases
{
    if ds.len() == 0 {
        Ok(Seq::empty())
    } else {
        match ds[0].1 {
            Jv::Obj(des) => match spec_def_of(des) {
                Ok(d) => match spec_defs_of(ds.subrange(1, ds.len() as int)) {
                    Ok(rest) => Ok(seq![(ds[0].0, d)] + rest),
                    Err(e) => Err(e),
                },
                Err(e) => Err(e),
            },
            _ => Err(ErrorKind::InvalidShape),
        }
    }
}

#[via_fn]
proof fn spec_defs_of_decreases(ds: Seq<(Seq<char>, Jv)>) {
    if ds.len() > 0 {
        lemma_entry_decreases(ds, 0);
        if ds[0].1 matches Jv::Obj(des) {
            assert(decreases_to!(ds[0].1 => ds[0].1->Obj_0));
            assert(decreases_to!(ds => ds[0].1->Obj_0));
        }
        assert(decreases_to!(ds => ds.subrange(1, ds.len() as int)));
    }
}

/// The schema a JSON value gives: a boolean literal, or an object holding
/// a definition. Anything else is a shape error.
pub open spec fn spec_schema_of(v: Jv) -> Result<SchemaModel, ErrorKind> {
    match v {
        Jv::Bool(b) => Ok(SchemaModel::BooleanLiteral(b)),
        Jv::Obj(es) => match spec_def_of(es) {
            Ok(d) => Ok(SchemaModel::Definition(d)),
            Err(e) => Err(e),
        },
        _ => Err(ErrorKind::InvalidShape),
    }
}

/// One optional textual entry of a serialized definition.
pub open spec fn spec_opt_entry(key: Seq<char>, v: Option<Seq<char>>) -> Seq<(Seq<char>, Jv)> {
    match v {
        None => Seq::empty(),
        Some(s) => seq![(key, Jv::Str(s))],
    }
}

/// How the root node serializes inside its parent object: an instance's
/// entries, or a lone `$ref` entry.
pub open spec fn spec_prop_entries_ser(p: PropModel) -> Seq<(Seq<char>, Jv)> {
    match p {
        PropModel::Value(m) => spec_inst_entries(m),
        PropModel::Ref(r) => seq![("$ref"@, Jv::Str(r))],
    }
}

/// How a dependencies map serializes.
pub open spec fn spec_ser_string_map(ds: Seq<(Seq<char>, Seq<Seq<char>>)>) -> Seq<
    (Seq<char>, Jv),
> {
    Seq::new(
        ds.len(),
        |i: int|
            if 0 <= i < ds.len() {
                (ds[i].0, Jv::Arr(spec_strings_ser(ds[i].1)))
            } else {
                (Seq::empty(), Jv::Null)
            },
    )
}

/// How a definition serializes: its JSON object entries, identifying
/// fields first, then the flattened type description, then definitions.
pub open spec fn spec_ser_def(d: DefModel) -> Seq<(Seq<char>, Jv)>
    decreases d, 1int,
    via spec_ser_def_decreases
{
    (match d.id {
        None => Seq::empty(),
        Some(m) => seq![("$id"@, Jv::Str(spec_id_text(m)))],
    }) + spec_opt_entry("$schema"@, d.dialect) + spec_opt_entry("description"@, d.description) + (
    match d.dependencies {
        None => Seq::empty(),
        Some(ds) => seq![("dependencies"@, Jv::Obj(spec_ser_string_map(ds)))],
    }) + (match d.specification {
        None => Seq::empty(),
        Some(p) => spec_prop_entries_ser(p),
    }) + (match d.definitions {
        None => Seq::empty(),
        Some(ds) => seq![("definitions"@, Jv::Obj(spec_ser_defs(ds)))],
    })
}

#[via_fn]
proof fn spec_ser_def_decreases(d: DefModel) {
    match d.definitions {
        Some(ds) => {
            assert(decreases_to!(d => d.definitions));
            assert(decreases_to!(d.definitions => ds));
            assert(decreases_to!(d => ds));
        },
        None => {},
    }
}

/// How a definitions map serializes.
pub open spec fn spec_ser_defs(ds: Seq<(Seq<char>, DefModel)>) -> Seq<(Seq<char>, Jv)>
    decreases ds, 2int,
    via spec_ser_defs_decreases
{
    if ds.len() == 0 {
        Seq::empty()
    } else {
        seq![(ds[0].0, Jv::Obj(spec_ser_def(ds[0].1)))] + spec_ser_defs(
            ds.subrange(1, ds.len() as int),
        )
    }
}

#[via_fn]
proof fn spec_ser_defs_decreases(ds: Seq<(Seq<char>, DefModel)>) {
    if ds.len() > 0 {
        lemma_entry_decreases(ds, 0);
        assert(decreases_to!(ds => ds.subrange(1, ds.len() as int)));
    }
}

/// How a schema serializes back to a JSON value.
pub open spec fn spec_ser_schema(m: SchemaModel) -> Jv {
    match m {
        SchemaModel::BooleanLiteral(b) => Jv::Bool(b),
        SchemaModel::Definition(d) => Jv::Obj(spec_ser_def(d)),
    }
}


/// Prepending an entry shifts a dependencies map's model by one.
proof fn lemma_deps_view_insert(pre: Seq<(String, Vec<String>)>, e: (String, Vec<String>))
    ensures
        deps_view(pre.insert(0, e)) =~= seq![(e.0@, strings_view(e.1@))] + deps_view(pre),
{
    pre.insert_ensures(0, e);
    let ins = pre.insert(0, e);
    assert forall|j: int| 0 <= j < ins.len() implies deps_view(ins)[j] == (seq![
        (e.0@, strings_view(e.1@)),
    ] + deps_view(pre))[j] by {
        if j >= 1 {
            assert(pre.insert(0, e)[(j - 1) + 1] == pre[j - 1]);
            assert(ins[j] == pre[j - 1]);
        }
    }
}

/// Prepending an entry shifts a definitions map's model by one.
proof fn lemma_defs_view_insert(pre: Seq<(String, SchemaDefinition)>, e: (String, SchemaDefinition))
    ensures
        defs_view(pre.insert(0, e)) =~= seq![(e.0@, e.1@)] + defs_view(pre),
{
    pre.insert_ensures(0, e);
    let ins = pre.insert(0, e);
    assert forall|j: int| 0 <= j < ins.len() implies defs_view(ins)[j] == (seq![(e.0@, e.1@)]
        + defs_view(pre))[j] by {
        if j >= 1 {
            assert(pre.insert(0, e)[(j - 1) + 1] == pre[j - 1]);
            assert(ins[j] == pre[j - 1]);
        }
    }
}

/// Reads the `$id` field of a schema object.
fn id_field_from(es: &Vec<(String, JsonValue)>) -> (r: Result<Option<SchemaId>, Error>)
    ensures
        match r {
            Ok(None) => spec_id_field(entries_view(es@)) == Ok::<Option<IdModel>, ErrorKind>(None),
            Ok(Some(id)) => spec_id_field(entries_view(es@)) == Ok::<Option<IdModel>, ErrorKind>(
                Some(id@),
            ) && crate::id::wf_id(id@),
            Err(e) => spec_id_field(entries_view(es@)) == Err::<Option<IdModel>, ErrorKind>(e.kind),
        },
{
    let ghost evs = entries_view(es@);
    match lookup(es, &String::from_str("$id")) {
        None => Ok(None),
        Some(v) => {
            let ghost i = spec_lookup_idx(evs, "$id"@);
            proof {
                assert(evs[i] == (es@[i].0@, es@[i].1@));
                assert(v@ == evs[i].1);
            }
            match v {
                JsonValue::Null => Ok(None),
                JsonValue::Str(s) => match SchemaId::parse(s.as_str()) {
                    Ok(id) => Ok(Some(id)),
                    Err(_) => Err(Error::new(ErrorKind::InvalidIdentifier)),
                },
                _ => Err(Error::new(ErrorKind::InvalidShape)),
            }
        },
    }
}

/// Reads the `$schema` field of a schema object: it must be an absolute
/// URL, kept in normalized text form.
fn dialect_field_from(es: &Vec<(String, JsonValue)>) -> (r: Result<Option<String>, Error>)
    ensures
        match r {
            Ok(o) => spec_dialect_field(entries_view(es@)) == Ok::<Option<Seq<char>>, ErrorKind>(
                opt_str_view(o),
            ) && (o matches Some(t) ==> url_normal(t@) == Some(t@)),
            Err(e) => spec_dialect_field(entries_view(es@)) == Err::<Option<Seq<char>>, ErrorKind>(
                e.kind,
            ),
        },
{
    let ghost evs = entries_view(es@);
    match lookup(es, &String::from_str("$schema")) {
        None => Ok(None),
        Some(v) => {
            let ghost i = spec_lookup_idx(evs, "$schema"@);
            proof {
                assert(evs[i] == (es@[i].0@, es@[i].1@));
                assert(v@ == evs[i].1);
            }
            match v {
                JsonValue::Null => Ok(None),
                JsonValue::Str(s) => match crate::id::url_parse_normalize(s.as_str()) {
                    Some(t) => Ok(Some(t)),
                    None => Err(Error::new(ErrorKind::InvalidIdentifier)),
                },
                _ => Err(Error::new(ErrorKind::InvalidShape)),
            }
        },
    }
}

/// Reads the `description` field of a schema object.
fn description_field_from(es: &Vec<(String, JsonValue)>) -> (r: Result<Option<String>, Error>)
    ensures
        match r {
            Ok(o) => spec_description_field(entries_view(es@)) == Ok::<
                Option<Seq<char>>,
                ErrorKind,
            >(opt_str_view(o)),
            Err(e) => spec_description_field(entries_view(es@)) == Err::<
                Option<Seq<char>>,
                ErrorKind,
            >(e.kind),
        },
{
    let ghost evs = entries_view(es@);
    match lookup(es, &String::from_str("description")) {
        None => Ok(None),
        Some(v) => {
            let ghost i = spec_lookup_idx(evs, "description"@);
            proof {
                assert(evs[i] == (es@[i].0@, es@[i].1@));
                assert(v@ == evs[i].1);
            }
            match v {
                JsonValue::Null => Ok(None),
                JsonValue::Str(s) => Ok(Some(s.clone())),
                _ => Err(Error::new(ErrorKind::InvalidShape)),
            }
        },
    }
}

/// Reads a map of key names to lists of key names, entry by entry.
fn string_map_from(des: &Vec<(String, JsonValue)>, i: usize) -> (r: Result<
    Vec<(String, Vec<String>)>,
    Error,
>)
    requires
        i <= des@.len(),
    ensures
        match r {
            Ok(ds) => spec_string_map_of(entries_view(des@).subrange(i as int, des@.len() as int))
                == Ok::<Seq<(Seq<char>, Seq<Seq<char>>)>, ErrorKind>(deps_view(ds@)),
            Err(e) => spec_string_map_of(entries_view(des@).subrange(i as int, des@.len() as int))
                == Err::<Seq<(Seq<char>, Seq<Seq<char>>)>, ErrorKind>(e.kind),
        },
    decreases des@.len() - i,
{
    let ghost tail = entries_view(des@).subrange(i as int, des@.len() as int);
    if i == des.len() {
        let ds: Vec<(String, Vec<String>)> = Vec::new();
        proof {
            assert(tail.len() == 0);
            assert(deps_view(ds@) =~= Seq::<(Seq<char>, Seq<Seq<char>>)>::empty());
        }
        Ok(ds)
    } else {
        proof {
            assert(tail[0] == (des@[i as int].0@, des@[i as int].1@));
            assert(tail.subrange(1, tail.len() as int) =~= entries_view(des@).subrange(
                i as int + 1,
                des@.len() as int,
            ));
        }
        match &des[i].1 {
            JsonValue::Array(xs) => {
                match crate::property::strings_from(xs) {
                    Ok(ss) => {
                        match string_map_from(des, i + 1) {
                            Ok(mut rest) => {
                                let ghost pre = rest@;
                                let key = des[i].0.clone();
                                rest.insert(0, (key, ss));
                                proof {
                                    lemma_deps_view_insert(pre, rest@[0]);
                                    assert(deps_view(rest@) =~= seq![
                                        (tail[0].0, spec_strings_of(tail[0].1->Arr_0)->Ok_0),
                                    ] + spec_string_map_of(tail.subrange(1, tail.len() as int))->Ok_0);
                                }
                                Ok(rest)
                            },
                            Err(e) => Err(e),
                        }
                    },
                    Err(e) => Err(e),
                }
            },
            _ => Err(Error::new(ErrorKind::InvalidShape)),
        }
    }
}

/// Reads the `dependencies` field of a schema object.
fn dependencies_field_from(es: &Vec<(String, JsonValue)>) -> (r: Result<
    Option<Vec<(String, Vec<String>)>>,
    Error,
>)
    ensures
        match r {
            Ok(None) => spec_dependencies_field(entries_view(es@)) == Ok::<
                Option<Seq<(Seq<char>, Seq<Seq<char>>)>>,
                ErrorKind,
            >(None),
            Ok(Some(ds)) => spec_dependencies_field(entries_view(es@)) == Ok::<
                Option<Seq<(Seq<char>, Seq<Seq<char>>)>>,
                ErrorKind,
            >(Some(deps_view(ds@))),
            Err(e) => spec_dependencies_field(entries_view(es@)) == Err::<
                Option<Seq<(Seq<char>, Seq<Seq<char>>)>>,
                ErrorKind,
            >(e.kind),
        },
{
    let ghost evs = entries_view(es@);
    match lookup(es, &String::from_str("dependencies")) {
        None => Ok(None),
        Some(v) => {
            let ghost i = spec_lookup_idx(evs, "dependencies"@);
            proof {
                assert(evs[i] == (es@[i].0@, es@[i].1@));
                assert(v@ == evs[i].1);
            }
            match v {
                JsonValue::Null => Ok(None),
                JsonValue::Object(des) => {
                    proof {
                        assert(entries_view(des@).subrange(0, des@.len() as int) =~= entries_view(
                            des@,
                        ));
                    }
                    match string_map_from(des, 0) {
                        Ok(ds) => Ok(Some(ds)),
                        Err(e) => Err(e),
                    }
                },
                _ => Err(Error::new(ErrorKind::InvalidShape)),
            }
        },
    }
}

impl SchemaDefinition {
    /// Reads a full definition out of a schema object's entries.
    pub fn from_entries(es: &Vec<(String, JsonValue)>) -> (r: Result<SchemaDefinition, Error>)
        ensures
            match r {
                Ok(d) => spec_def_of(entries_view(es@)) == Ok::<DefModel, ErrorKind>(d@)
                    && wf_def(d@),
                Err(e) => spec_def_of(entries_view(es@)) == Err::<DefModel, ErrorKind>(e.kind),
            },
        decreases *es, 1int, 0int,
    {
        let ghost evs = entries_view(es@);
        let id = match id_field_from(es) {
            Ok(o) => o,
            Err(e) => {
                return Err(e);
            },
        };
        let schema = match dialect_field_from(es) {
            Ok(o) => o,
            Err(e) => {
                return Err(e);
            },
        };
        let description = match description_field_from(es) {
            Ok(o) => o,
            Err(e) => {
                return Err(e);
            },
        };
        let dependencies = match dependencies_field_from(es) {
            Ok(o) => o,
            Err(e) => {
                return Err(e);
            },
        };
        let specification = match Property::from_entries(es) {
            Ok(o) => o,
            Err(e) => {
                return Err(e);
            },
        };
        match lookup(es, &String::from_str("definitions")) {
            None => Ok(
                SchemaDefinition {
                    id,
                    schema,
                    description,
                    dependencies,
                    specification,
                    definitions: None,
                },
            ),
            Some(v) => {
                let ghost i = spec_lookup_idx(evs, "definitions"@);
                proof {
                    assert(evs[i] == (es@[i].0@, es@[i].1@));
                    assert(v@ == evs[i].1);
                }
                match v {
                    JsonValue::Null => Ok(
                        SchemaDefinition {
                            id,
                            schema,
                            description,
                            dependencies,
                            specification,
                            definitions: None,
                        },
                    ),
                    JsonValue::Object(ds) => {
                        proof {
                            assert(decreases_to!(*es => es@[i]));
                            assert(decreases_to!(es@[i] => es@[i].1));
                            assert(decreases_to!(es@[i].1 => es@[i].1->Object_0));
                            assert(decreases_to!(*es => *ds));
                            assert(entries_view(ds@).subrange(0, ds@.len() as int) =~= entries_view(
                                ds@,
                            ));
                        }
                        match defs_from(ds, 0) {
                            Ok(defs) => Ok(
                                SchemaDefinition {
                                    id,
                                    schema,
                                    description,
                                    dependencies,
                                    specification,
                                    definitions: Some(defs),
                                },
                            ),
                            Err(e) => Err(e),
                        }
                    },
                    _ => Err(Error::new(ErrorKind::InvalidShape)),
                }
            },
        }
    }
}

/// Reads a definitions map, each value a full definition.
fn defs_from(ds: &Vec<(String, JsonValue)>, i: usize) -> (r: Result<
    Vec<(String, SchemaDefinition)>,
    Error,
>)
    requires
        i <= ds@.len(),
    ensures
        match r {
            Ok(defs) => spec_defs_of(entries_view(ds@).subrange(i as int, ds@.len() as int))
                == Ok::<Seq<(Seq<char>, DefModel)>, ErrorKind>(defs_view(defs@)) && wf_defs(
                defs_view(defs@),
            ),
            Err(e) => spec_defs_of(entries_view(ds@).subrange(i as int, ds@.len() as int)) == Err::<
                Seq<(Seq<char>, DefModel)>,
                ErrorKind,
            >(e.kind),
        },
    decreases *ds, 2int, ds@.len() - i,
{
    let ghost tail = entries_view(ds@).subrange(i as int, ds@.len() as int);
    if i == ds.len() {
        let defs: Vec<(String, SchemaDefinition)> = Vec::new();
        proof {
            assert(tail.len() == 0);
            assert(defs_view(defs@) =~= Seq::<(Seq<char>, DefModel)>::empty());
            assert(wf_defs(defs_view(defs@)));
        }
        Ok(defs)
    } else {
        proof {
            assert(tail[0] == (ds@[i as int].0@, ds@[i as int].1@));
            assert(tail.subrange(1, tail.len() as int) =~= entries_view(ds@).subrange(
                i as int + 1,
                ds@.len() as int,
            ));
            assert(decreases_to!(*ds => ds@[i as int]));
            assert(decreases_to!(ds@[i as int] => ds@[i as int].1));
        }
        match &ds[i].1 {
            JsonValue::Object(des) => {
                proof {
                    assert(decreases_to!(ds@[i as int].1 => ds@[i as int].1->Object_0));
                    assert(decreases_to!(*ds => *des));
                }
                match SchemaDefinition::from_entries(des) {
                    Ok(d) => {
                        match defs_from(ds, i + 1) {
                            Ok(mut rest) => {
                                let ghost pre = rest@;
                                let key = ds[i].0.clone();
                                rest.insert(0, (key, d));
                                proof {
                                    lemma_defs_view_insert(pre, rest@[0]);
                                    assert(defs_view(rest@) =~= seq![
                                        (tail[0].0, spec_def_of(tail[0].1->Obj_0)->Ok_0),
                                    ] + spec_defs_of(tail.subrange(1, tail.len() as int))->Ok_0);
                                    assert(defs_view(rest@)[0].1 == d@);
                                    assert(defs_view(rest@).subrange(
                                        1,
                                        defs_view(rest@).len() as int,
                                    ) =~= defs_view(pre));
                                    assert(wf_defs(defs_view(rest@)));
                                }
                                Ok(rest)
                            },
                            Err(e) => Err(e),
                        }
                    },
                    Err(e) => Err(e),
                }
            },
            _ => Err(Error::new(ErrorKind::InvalidShape)),
        }
    }
}

impl Schema {
    /// Builds a schema from a JSON value: a boolean literal, or an object
    /// holding a definition.
    pub fn from_json(v: &JsonValue) -> (r: Result<Schema, Error>)
        ensures
            match r {
                Ok(s) => spec_schema_of(v@) == Ok::<SchemaModel, ErrorKind>(s@) && wf_schema(s@),
                Err(e) => spec_schema_of(v@) == Err::<SchemaModel, ErrorKind>(e.kind),
            },
    {
        match v {
            JsonValue::Bool(b) => Ok(Schema::BooleanLiteral(*b)),
            JsonValue::Object(es) => match SchemaDefinition::from_entries(es) {
                Ok(d) => Ok(Schema::Definition(d)),
                Err(e) => Err(e),
            },
            _ => Err(Error::new(ErrorKind::InvalidShape)),
        }
    }

    /// Builds a schema from an owned JSON value.
    pub fn from_value(value: JsonValue) -> (r: Result<Schema, Error>)
        ensures
            match r {
                Ok(s) => spec_schema_of(value@) == Ok::<SchemaModel, ErrorKind>(s@) && wf_schema(
                    s@,
                ),
                Err(e) => spec_schema_of(value@) == Err::<SchemaModel, ErrorKind>(e.kind),
            },
    {
        Schema::from_json(&value)
    }

    /// Parses a schema from JSON text: the text must be valid JSON whose
    /// value fits the schema grammar.
    pub fn parse(text: &str) -> (r: Result<Schema, Error>)
        ensures
            match crate::json::json_decode(text@) {
                None => r matches Err(e) && e.kind is MalformedJson,
                Some(v) => match r {
                    Ok(s) => spec_schema_of(v) == Ok::<SchemaModel, ErrorKind>(s@) && wf_schema(
                        s@,
                    ),
                    Err(e) => spec_schema_of(v) == Err::<SchemaModel, ErrorKind>(e.kind),
                },
            },
    {
        match JsonValue::parse(text) {
            None => Err(Error::new(ErrorKind::MalformedJson)),
            Some(v) => Schema::from_json(&v),
        }
    }
}


/// An object's model splits over a joined entry list.
proof fn lemma_entries_view_concat(a: Seq<(String, JsonValue)>, b: Seq<(String, JsonValue)>)
    ensures
        entries_view(a + b) =~= entries_view(a) + entries_view(b),
{
    assert forall|j: int| 0 <= j < (a + b).len() implies entries_view(a + b)[j] == (entries_view(a)
        + entries_view(b))[j] by {
        if j < a.len() {
            assert((a + b)[j] == a[j]);
        } else {
            assert((a + b)[j] == b[j - a.len()]);
        }
    }
}

/// Serializes a dependencies map.
fn string_map_to(ds: &Vec<(String, Vec<String>)>) -> (r: Vec<(String, JsonValue)>)
    ensures
        entries_view(r@) == spec_ser_string_map(deps_view(ds@)),
{
    let mut out: Vec<(String, JsonValue)> = Vec::new();
    let mut i: usize = 0;
    while i < ds.len()
        invariant
            0 <= i <= ds.len(),
            out@.len() == i as int,
            forall|j: int|
                0 <= j < i ==> out@[j].0@ == ds@[j].0@ && out@[j].1@ == Jv::Arr(
                    spec_strings_ser(strings_view(ds@[j].1@)),
                ),
        decreases ds.len() - i,
    {
        let key = ds[i].0.clone();
        let names = crate::property::strings_to(&ds[i].1);
        out.push((key, JsonValue::Array(names)));
        i = i + 1;
    }
    proof {
        assert(entries_view(out@) =~= spec_ser_string_map(deps_view(ds@)));
    }
    out
}

/// Serializes a definitions map, each definition in place.
fn defs_to(ds: &Vec<(String, SchemaDefinition)>, i: usize) -> (r: Vec<(String, JsonValue)>)
    requires
        i <= ds@.len(),
    ensures
        entries_view(r@) == spec_ser_defs(defs_view(ds@).subrange(i as int, ds@.len() as int)),
    decreases *ds, 2int, ds@.len() - i,
{
    let ghost tail = defs_view(ds@).subrange(i as int, ds@.len() as int);
    if i == ds.len() {
        let out: Vec<(String, JsonValue)> = Vec::new();
        proof {
            assert(tail.len() == 0);
            assert(entries_view(out@) =~= Seq::<(Seq<char>, Jv)>::empty());
        }
        out
    } else {
        proof {
            assert(tail[0] == (ds@[i as int].0@, ds@[i as int].1@));
            assert(tail.subrange(1, tail.len() as int) =~= defs_view(ds@).subrange(
                i as int + 1,
                ds@.len() as int,
            ));
            assert(decreases_to!(*ds => ds@[i as int]));
            assert(decreases_to!(ds@[i as int] => ds@[i as int].1));
        }
        let key = ds[i].0.clone();
        let body = ds[i].1.to_entries();
        let mut rest = defs_to(ds, i + 1);
        let ghost pre = rest@;
        rest.insert(0, (key, JsonValue::Object(body)));
        proof {
            pre.insert_ensures(0, rest@[0]);
            assert forall|j: int| 0 <= j < rest@.len() implies entries_view(rest@)[j] == (seq![
                (tail[0].0, Jv::Obj(spec_ser_def(tail[0].1))),
            ] + spec_ser_defs(tail.subrange(1, tail.len() as int)))[j] by {
                if j >= 1 {
                    assert(pre.insert(0, rest@[0])[(j - 1) + 1] == pre[j - 1]);
                    assert(rest@[j] == pre[j - 1]);
                    assert(entries_view(pre)[j - 1] == (pre[j - 1].0@, pre[j - 1].1@));
                }
            }
            assert(entries_view(rest@) =~= seq![(tail[0].0, Jv::Obj(spec_ser_def(tail[0].1)))]
                + spec_ser_defs(tail.subrange(1, tail.len() as int)));
        }
        rest
    }
}

impl SchemaDefinition {
    /// Serializes the definition back to its JSON object entries.
    #[verifier::rlimit(100)]
    #[verifier::spinoff_prover]
    pub fn to_entries(&self) -> (r: Vec<(String, JsonValue)>)
        ensures
            entries_view(r@) == spec_ser_def(self@),
        decreases *self, 1int, 0int,
    {
        let mut out: Vec<(String, JsonValue)> = Vec::new();
        let ghost p1: Seq<(Seq<char>, Jv)> = match self@.id {
            None => Seq::empty(),
            Some(m) => seq![("$id"@, Jv::Str(spec_id_text(m)))],
        };
        match &self.id {
            Some(id) => {
                out.push((String::from_str("$id"), JsonValue::Str(id.to_string())));
            },
            None => {},
        }
        proof {
            assert(entries_view(out@) =~= p1);
        }
        let ghost p2 = spec_opt_entry("$schema"@, self@.dialect);
        match &self.schema {
            Some(t) => {
                out.push((String::from_str("$schema"), JsonValue::Str(t.clone())));
            },
            None => {},
        }
        proof {
            assert(entries_view(out@) =~= p1 + p2);
        }
        let ghost p3 = spec_opt_entry("description"@, self@.description);
        match &self.description {
            Some(t) => {
                out.push((String::from_str("description"), JsonValue::Str(t.clone())));
            },
            None => {},
        }
        proof {
            assert(entries_view(out@) =~= p1 + p2 + p3);
        }
        let ghost p4: Seq<(Seq<char>, Jv)> = match self@.dependencies {
            None => Seq::empty(),
            Some(ds) => seq![("dependencies"@, Jv::Obj(spec_ser_string_map(ds)))],
        };
        match &self.dependencies {
            Some(ds) => {
                out.push((String::from_str("dependencies"), JsonValue::Object(string_map_to(ds))));
            },
            None => {},
        }
        proof {
            assert(entries_view(out@) =~= p1 + p2 + p3 + p4);
        }
        let ghost p5: Seq<(Seq<char>, Jv)> = match self@.specification {
            None => Seq::empty(),
            Some(p) => spec_prop_entries_ser(p),
        };
        match &self.specification {
            Some(Property::Value(inst)) => {
                let mut piece = inst.to_entries();
                let ghost before = out@;
                out.append(&mut piece);
                proof {
                    lemma_entries_view_concat(before, out@.subrange(
                        before.len() as int,
                        out@.len() as int,
                    ));
                    assert(out@ =~= before + out@.subrange(before.len() as int, out@.len() as int));
                    assert(entries_view(out@) =~= p1 + p2 + p3 + p4 + p5);
                }
            },
            Some(Property::Ref(rp)) => {
                out.push((String::from_str("$ref"), JsonValue::Str(rp.reference.clone())));
                proof {
                    assert(entries_view(out@) =~= p1 + p2 + p3 + p4 + p5);
                }
            },
            None => {
                proof {
                    assert(entries_view(out@) =~= p1 + p2 + p3 + p4 + p5);
                }
            },
        }
        let ghost p6: Seq<(Seq<char>, Jv)> = match self@.definitions {
            None => Seq::empty(),
            Some(ds) => seq![("definitions"@, Jv::Obj(spec_ser_defs(ds)))],
        };
        match &self.definitions {
            Some(ds) => {
                proof {
                    assert(defs_view(ds@).subrange(0, ds@.len() as int) =~= defs_view(ds@));
                }
                let body = defs_to(ds, 0);
                out.push((String::from_str("definitions"), JsonValue::Object(body)));
            },
            None => {},
        }
        proof {
            assert(entries_view(out@) =~= p1 + p2 + p3 + p4 + p5 + p6);
        }
        out
    }
}

impl Schema {
    /// Serializes the schema back to the JSON value it was built from.
    pub fn to_value(&self) -> (r: JsonValue)
        ensures
            r@ == spec_ser_schema(self@),
    {
        match self {
            Schema::BooleanLiteral(b) => JsonValue::Bool(*b),
            Schema::Definition(d) => {
                let es = d.to_entries();
                let r = JsonValue::Object(es);
                proof {
                    assert(r@ matches Jv::Obj(m) && m =~= spec_ser_def(d@));
                }
                r
            },
        }
    }
}


/// The root node of a schema: the instance description its definition
/// carries, whatever its shape.
pub open spec fn spec_root_node(m: SchemaModel) -> Option<InstModel> {
    match m {
        SchemaModel::Definition(d) => match d.specification {
            Some(PropModel::Value(im)) => Some(im),
            _ => None,
        },
        SchemaModel::BooleanLiteral(_) => None,
    }
}

/// The root node of a schema, only when it is an object description.
pub open spec fn spec_root_object(m: SchemaModel) -> Option<InstModel> {
    match spec_root_node(m) {
        Some(im) => if im is Object {
            Some(im)
        } else {
            None
        },
        None => None,
    }
}

/// The dialect a schema declares, when it is a definition.
pub open spec fn spec_dialect_of(m: SchemaModel) -> Option<Seq<char>> {
    match m {
        SchemaModel::Definition(d) => d.dialect,
        SchemaModel::BooleanLiteral(_) => None,
    }
}

impl Schema {
    /// The definition, when the document is not a bare boolean.
    fn as_definition(&self) -> (r: Option<&SchemaDefinition>)
        ensures
            match r {
                Some(d) => self@ == SchemaModel::Definition(d@),
                None => self@ is BooleanLiteral,
            },
    {
        match self {
            Schema::Definition(d) => Some(d),
            Schema::BooleanLiteral(_) => None,
        }
    }

    /// The declared `$id`, when present.
    pub fn id(&self) -> (r: Option<&SchemaId>)
        ensures
            match r {
                Some(id) => self@ matches SchemaModel::Definition(d) && d.id == Some(id@),
                None => match self@ {
                    SchemaModel::Definition(d) => d.id is None,
                    SchemaModel::BooleanLiteral(_) => true,
                },
            },
    {
        match self {
            Schema::Definition(d) => match &d.id {
                Some(id) => Some(id),
                None => None,
            },
            Schema::BooleanLiteral(_) => None,
        }
    }

    /// The declared `$schema` dialect URL, in normalized text form.
    pub fn schema(&self) -> (r: Option<&String>)
        ensures
            match r {
                Some(t) => spec_dialect_of(self@) == Some(t@),
                None => spec_dialect_of(self@) is None,
            },
    {
        match self {
            Schema::Definition(d) => match &d.schema {
                Some(t) => Some(t),
                None => None,
            },
            Schema::BooleanLiteral(_) => None,
        }
    }

    /// The declared `description`, when present.
    pub fn description(&self) -> (r: Option<&str>)
        ensures
            match r {
                Some(t) => self@ matches SchemaModel::Definition(d) && d.description == Some(t@),
                None => match self@ {
                    SchemaModel::Definition(d) => d.description is None,
                    SchemaModel::BooleanLiteral(_) => true,
                },
            },
    {
        match self {
            Schema::Definition(d) => match &d.description {
                Some(t) => Some(t.as_str()),
                None => None,
            },
            Schema::BooleanLiteral(_) => None,
        }
    }

    /// The first path segment of the dialect URL: the draft name the
    /// document declares.
    pub fn draft_version(&self) -> (r: Option<String>)
        ensures
            match r {
                Some(t) => spec_dialect_of(self@) matches Some(u)
                    && crate::id::url_first_segment(u) == Some(t@),
                None => match spec_dialect_of(self@) {
                    Some(u) => crate::id::url_first_segment(u) is None,
                    None => true,
                },
            },
    {
        match self {
            Schema::Definition(d) => match &d.schema {
                Some(t) => crate::id::url_path_first_segment(t.as_str()),
                None => None,
            },
            Schema::BooleanLiteral(_) => None,
        }
    }

    /// The root node, only when it is an object description.
    pub fn specification(&self) -> (r: Option<&PropertyInstance>)
        ensures
            match r {
                Some(inst) => spec_root_object(self@) == Some(inst@),
                None => spec_root_object(self@) is None,
            },
    {
        match self {
            Schema::Definition(d) => match &d.specification {
                Some(Property::Value(inst)) => match inst {
                    PropertyInstance::Object { .. } => Some(inst),
                    _ => None,
                },
                _ => None,
            },
            Schema::BooleanLiteral(_) => None,
        }
    }

    /// The root object's property map, when the root is an object.
    pub fn properties(&self) -> (r: Option<&Vec<(String, Property)>>)
        ensures
            match r {
                Some(ps) => spec_root_object(self@) matches Some(im) && im matches
                    InstModel::Object { properties, .. } && properties == crate::property::prop_entries_view(ps@),
                None => spec_root_object(self@) is None,
            },
    {
        match self.specification() {
            Some(inst) => match inst {
                PropertyInstance::Object { properties, .. } => {
                    proof {
                        crate::property::lemma_pev_is_view_ref(inst);
                    }
                    Some(properties)
                },
                _ => None,
            },
            None => None,
        }
    }

    /// The root object's required keys, when declared.
    pub fn required_properties(&self) -> (r: Option<&Vec<String>>)
        ensures
            match r {
                Some(ss) => spec_root_object(self@) matches Some(im) && im matches
                    InstModel::Object { required, .. } && required == Some(strings_view(ss@)),
                None => match spec_root_object(self@) {
                    Some(im) => im matches InstModel::Object { required, .. } && required is None,
                    None => true,
                },
            },
    {
        match self.specification() {
            Some(inst) => match inst {
                PropertyInstance::Object { required, .. } => match required {
                    Some(ss) => Some(ss),
                    None => None,
                },
                _ => None,
            },
            None => None,
        }
    }

    /// The root node, when it describes `null` values.
    pub fn as_null(&self) -> (r: Option<&PropertyInstance>)
        ensures
            match r {
                Some(inst) => spec_root_node(self@) == Some(inst@) && inst@ is Null,
                None => !(spec_root_node(self@) matches Some(im) && im is Null),
            },
    {
        match self {
            Schema::Definition(d) => match &d.specification {
                Some(Property::Value(inst)) => match inst {
                    PropertyInstance::Null => Some(inst),
                    _ => None,
                },
                _ => None,
            },
            Schema::BooleanLiteral(_) => None,
        }
    }

    /// The root node, when it describes booleans.
    pub fn as_boolean(&self) -> (r: Option<&PropertyInstance>)
        ensures
            match r {
                Some(inst) => spec_root_node(self@) == Some(inst@) && inst@ is Boolean,
                None => !(spec_root_node(self@) matches Some(im) && im is Boolean),
            },
    {
        match self {
            Schema::Definition(d) => match &d.specification {
                Some(Property::Value(inst)) => match inst {
                    PropertyInstance::Boolean => Some(inst),
                    _ => None,
                },
                _ => None,
            },
            Schema::BooleanLiteral(_) => None,
        }
    }

    /// The root node, when it describes integers.
    pub fn as_integer(&self) -> (r: Option<&PropertyInstance>)
        ensures
            match r {
                Some(inst) => spec_root_node(self@) == Some(inst@) && inst@ is Integer,
                None => !(spec_root_node(self@) matches Some(im) && im is Integer),
            },
    {
        match self {
            Schema::Definition(d) => match &d.specification {
                Some(Property::Value(inst)) => match inst {
                    PropertyInstance::Integer { .. } => Some(inst),
                    _ => None,
                },
                _ => None,
            },
            Schema::BooleanLiteral(_) => None,
        }
    }

    /// The root node, when it describes objects.
    pub fn as_object(&self) -> (r: Option<&PropertyInstance>)
        ensures
            match r {
                Some(inst) => spec_root_node(self@) == Some(inst@) && inst@ is Object,
                None => !(spec_root_node(self@) matches Some(im) && im is Object),
            },
    {
        match self {
            Schema::Definition(d) => match &d.specification {
                Some(Property::Value(inst)) => match inst {
                    PropertyInstance::Object { .. } => Some(inst),
                    _ => None,
                },
                _ => None,
            },
            Schema::BooleanLiteral(_) => None,
        }
    }

    /// The root node, when it describes arrays.
    pub fn as_array(&self) -> (r: Option<&PropertyInstance>)
        ensures
            match r {
                Some(inst) => spec_root_node(self@) == Some(inst@) && inst@ is Array,
                None => !(spec_root_node(self@) matches Some(im) && im is Array),
            },
    {
        match self {
            Schema::Definition(d) => match &d.specification {
                Some(Property::Value(inst)) => match inst {
                    PropertyInstance::Array { .. } => Some(inst),
                    _ => None,
                },
                _ => None,
            },
            Schema::BooleanLiteral(_) => None,
        }
    }

    /// The root node, when it describes numbers.
    pub fn as_number(&self) -> (r: Option<&PropertyInstance>)
        ensures
            match r {
                Some(inst) => spec_root_node(self@) == Some(inst@) && inst@ is Number,
                None => !(spec_root_node(self@) matches Some(im) && im is Number),
            },
    {
        match self {
            Schema::Definition(d) => match &d.specification {
                Some(Property::Value(inst)) => match inst {
                    PropertyInstance::Number { .. } => Some(inst),
                    _ => None,
                },
                _ => None,
            },
            Schema::BooleanLiteral(_) => None,
        }
    }
}


impl Schema {
    /// Matches a JSON value against the whole document: the literal `true`
    /// accepts everything, the literal `false` rejects everything with one
    /// report, and a definition validates through its root node, resolving
    /// references against this document.
    pub fn validate(&self, json: &JsonValue) -> (r: Result<
        (),
        Vec<crate::validation::ValidationError>,
    >)
        ensures
            r is Ok <==> crate::property::spec_validate_schema(
                self@,
                json@,
                crate::property::REF_FUEL as nat,
            ) == Seq::<crate::validation::ErrModel>::empty(),
            r matches Err(es) ==> crate::validation::errs_view(es@)
                == crate::property::spec_validate_schema(
                self@,
                json@,
                crate::property::REF_FUEL as nat,
            ) && es@.len() > 0,
    {
        let ghost goal = crate::property::spec_validate_schema(
            self@,
            json@,
            crate::property::REF_FUEL as nat,
        );
        match self {
            Schema::BooleanLiteral(b) => {
                if *b {
                    proof {
                        assert(goal =~= Seq::<crate::validation::ErrModel>::empty());
                    }
                    Ok(())
                } else {
                    let mut errs: Vec<crate::validation::ValidationError> = Vec::new();
                    errs.push(crate::validation::ValidationError::FalseSchema);
                    proof {
                        assert(crate::validation::errs_view(errs@) =~= goal);
                    }
                    Err(errs)
                }
            },
            Schema::Definition(d) => {
                match &d.specification {
                    Some(Property::Value(im)) => {
                        let errs = crate::property::validate_node(
                            im,
                            json,
                            self,
                            crate::property::REF_FUEL,
                        );
                        if errs.len() == 0 {
                            proof {
                                assert(crate::validation::errs_view(errs@) =~= Seq::<
                                    crate::validation::ErrModel,
                                >::empty());
                            }
                            Ok(())
                        } else {
                            proof {
                                assert(goal.len() == errs@.len());
                            }
                            Err(errs)
                        }
                    },
                    Some(Property::Ref(_)) => {
                        let mut errs: Vec<crate::validation::ValidationError> = Vec::new();
                        errs.push(crate::validation::ValidationError::UnsupportedRef);
                        proof {
                            assert(crate::validation::errs_view(errs@) =~= goal);
                        }
                        Err(errs)
                    },
                    None => {
                        proof {
                            assert(goal =~= Seq::<crate::validation::ErrModel>::empty());
                        }
                        Ok(())
                    },
                }
            },
        }
    }
}

/// Validating any value against the schema literal `true` reports nothing.
pub proof fn lemma_true_schema_accepts_all(v: Jv, fuel: nat)
    ensures
        crate::property::spec_validate_schema(SchemaModel::BooleanLiteral(true), v, fuel)
            == Seq::<crate::validation::ErrModel>::empty(),
{
}

/// Validating any value against the schema literal `false` reports exactly
/// one error.
pub proof fn lemma_false_schema_rejects_all(v: Jv, fuel: nat)
    ensures
        crate::property::spec_validate_schema(SchemaModel::BooleanLiteral(false), v, fuel) == seq![
            crate::validation::ErrModel::FalseSchema,
        ],
{
}

/// An integer node accepts a number exactly when the number carries no
/// decimal rendering; any other value is one mismatch report.
pub proof fn lemma_integer_node_accepts_integers(
    criteria: crate::validation::CriteriaModel,
    v: Jv,
    root: SchemaModel,
    fuel: nat,
)
    ensures
        crate::property::spec_validate_inst(InstModel::Integer { criteria }, v, root, fuel)
            == Seq::<crate::validation::ErrModel>::empty() <==> (v matches Jv::Num(n) && (n is Int
            || n is UInt)),
        !(v matches Jv::Num(n) && (n is Int || n is UInt))
            ==> crate::property::spec_validate_inst(InstModel::Integer { criteria }, v, root, fuel)
            == seq![
            crate::validation::ErrModel::Mismatch {
                expected: crate::validation::JsonKind::Integer,
                found: v,
            },
        ],
{
}


/// Entries that cannot be mistaken for the node grammar's own keys.
pub open spec fn no_grammar_keys(es: Seq<(Seq<char>, Jv)>) -> bool {
    forall|j: int|
        0 <= j < es.len() ==> !is_node_key(#[trigger] es[j].0) && es[j].0 != "$ref"@
}

/// Helper: a grammar key is absent from surrounding clean entries and
/// found inside the serialized instance exactly where it stands there.
proof fn lemma_embedded_idx(
    a: Seq<(Seq<char>, Jv)>,
    ie: Seq<(Seq<char>, Jv)>,
    b: Seq<(Seq<char>, Jv)>,
    k: Seq<char>,
)
    requires
        no_grammar_keys(a),
        no_grammar_keys(b),
        is_node_key(k) || k == "$ref"@,
    ensures
        spec_lookup_idx(ie, k) >= 0 ==> spec_lookup_idx(a + ie + b, k) == a.len()
            + spec_lookup_idx(ie, k) && (a + ie + b)[spec_lookup_idx(a + ie + b, k)] == ie[spec_lookup_idx(ie, k)],
        spec_lookup_idx(ie, k) < 0 ==> spec_lookup_idx(a + ie + b, k) == -1,
{
    lemma_lookup_idx(ie, k);
    if spec_lookup_idx(ie, k) >= 0 {
        lemma_idx_concat_right(a, ie, k);
        lemma_idx_concat_left(a + ie, b, k);
    } else {
        lemma_idx_concat_right(a, ie, k);
        assert(spec_lookup_idx(a + ie, k) == -1);
        lemma_lookup_idx(a + ie, k);
        lemma_idx_concat_right(a + ie, b, k);
        lemma_idx_none(b, k);
    }
}

/// A serialized instance parses back to the instance even when other,
/// non-grammar entries surround it in the same object.
#[verifier::rlimit(100)]
pub proof fn lemma_inst_of_embedded(
    m: InstModel,
    a: Seq<(Seq<char>, Jv)>,
    b: Seq<(Seq<char>, Jv)>,
)
    requires
        wf_inst(m),
        no_grammar_keys(a),
        no_grammar_keys(b),
    ensures
        spec_inst_of(a + spec_inst_entries(m) + b, spec_type_word(m)) == Ok::<
            InstModel,
            ErrorKind,
        >(m),
{
    lemma_keys();
    lemma_inst_rt(m);
    let ie = spec_inst_entries(m);
    let full = a + ie + b;
    let w = spec_type_word(m);
    match m {
        InstModel::Null => {},
        InstModel::Boolean => {},
        InstModel::Text => {},
        InstModel::Integer { criteria } => {
            lemma_embedded_idx(a, ie, b, "exclusiveMinimum"@);
            match criteria.exclusive_minimum {
                None => {
                    assert(ie.len() == 1 && ie[0].0 == "type"@);
                    assert forall|j: int| 0 <= j < ie.len() implies ie[j].0
                        != "exclusiveMinimum"@ by {
                        assert(j == 0);
                    }
                    lemma_idx_none(ie, "exclusiveMinimum"@);
                    assert(spec_criteria_of(full) == criteria);
                },
                Some(v) => {
                    assert(ie[1].0 == "exclusiveMinimum"@);
                    assert forall|j: int| 0 <= j < 1 implies ie[j].0 != "exclusiveMinimum"@ by {
                        assert(j == 0);
                    }
                    lemma_idx_at(ie, "exclusiveMinimum"@, 1);
                    assert(spec_criteria_of(full) == criteria);
                },
            }
            assert(spec_inst_of(full, w) == Ok::<InstModel, ErrorKind>(m));
        },
        InstModel::Number { criteria } => {
            lemma_embedded_idx(a, ie, b, "exclusiveMinimum"@);
            match criteria.exclusive_minimum {
                None => {
                    assert(ie.len() == 1 && ie[0].0 == "type"@);
                    assert forall|j: int| 0 <= j < ie.len() implies ie[j].0
                        != "exclusiveMinimum"@ by {
                        assert(j == 0);
                    }
                    lemma_idx_none(ie, "exclusiveMinimum"@);
                    assert(spec_criteria_of(full) == criteria);
                },
                Some(v) => {
                    assert(ie[1].0 == "exclusiveMinimum"@);
                    assert forall|j: int| 0 <= j < 1 implies ie[j].0 != "exclusiveMinimum"@ by {
                        assert(j == 0);
                    }
                    lemma_idx_at(ie, "exclusiveMinimum"@, 1);
                    assert(spec_criteria_of(full) == criteria);
                },
            }
            assert(spec_inst_of(full, w) == Ok::<InstModel, ErrorKind>(m));
        },
        InstModel::Object { properties, required } => {
            lemma_embedded_idx(a, ie, b, "properties"@);
            lemma_embedded_idx(a, ie, b, "required"@);
            assert(ie[0].0 == "type"@ && ie[1].0 == "properties"@);
            assert forall|j: int| 0 <= j < 1 implies ie[j].0 != "properties"@ by {
                assert(j == 0);
            }
            lemma_idx_at(ie, "properties"@, 1);
            lemma_props_rt(properties);
            match required {
                None => {
                    assert(ie.len() == 2);
                    assert forall|j: int| 0 <= j < ie.len() implies ie[j].0 != "required"@ by {
                        assert(j == 0 || j == 1);
                    }
                    lemma_idx_none(ie, "required"@);
                },
                Some(ss) => {
                    assert(ie.len() == 3 && ie[2].0 == "required"@);
                    assert forall|j: int| 0 <= j < 2 implies ie[j].0 != "required"@ by {
                        assert(j == 0 || j == 1);
                    }
                    lemma_idx_at(ie, "required"@, 2);
                    lemma_strings_rt(ss);
                },
            }
            assert(spec_inst_of(full, w) == Ok::<InstModel, ErrorKind>(m));
        },
        InstModel::Array { items } => {
            lemma_embedded_idx(a, ie, b, "items"@);
            assert(ie.len() == 2 && ie[0].0 == "type"@ && ie[1].0 == "items"@);
            assert forall|j: int| 0 <= j < 1 implies ie[j].0 != "items"@ by {
                assert(j == 0);
            }
            lemma_idx_at(ie, "items"@, 1);
            assert(spec_inst_of(full, w) == Ok::<InstModel, ErrorKind>(m));
        },
    }
}

/// A serialized node parses back to the node even when other, non-grammar
/// entries surround it: a `$ref` entry stays a reference, instance entries
/// stay the instance, and no entries at all stay nothing.
pub proof fn lemma_prop_of_embedded(
    sp: Option<PropModel>,
    a: Seq<(Seq<char>, Jv)>,
    b: Seq<(Seq<char>, Jv)>,
)
    requires
        no_grammar_keys(a),
        no_grammar_keys(b),
        sp matches Some(p) ==> wf_prop(p),
    ensures
        spec_prop_of_entries(
            a + (match sp {
                None => Seq::<(Seq<char>, Jv)>::empty(),
                Some(p) => spec_prop_entries_ser(p),
            }) + b,
        ) == Ok::<Option<PropModel>, ErrorKind>(sp),
{
    lemma_keys();
    match sp {
        None => {
            let full = a + Seq::<(Seq<char>, Jv)>::empty() + b;
            assert(full =~= a + b);
            lemma_idx_none(a, "$ref"@);
            lemma_idx_none(b, "$ref"@);
            lemma_idx_concat_right(a, b, "$ref"@);
            lemma_idx_none(a, "type"@);
            lemma_idx_none(b, "type"@);
            lemma_idx_concat_right(a, b, "type"@);
        },
        Some(PropModel::Ref(r)) => {
            let ie = seq![("$ref"@, Jv::Str(r))];
            lemma_idx_at(ie, "$ref"@, 0);
            lemma_embedded_idx(a, ie, b, "$ref"@);
        },
        Some(PropModel::Value(m)) => {
            let ie = spec_inst_entries(m);
            lemma_inst_rt(m);
            assert forall|j: int| 0 <= j < ie.len() implies ie[j].0 != "$ref"@ by {
                assert(is_node_key(ie[j].0));
            }
            lemma_idx_none(ie, "$ref"@);
            lemma_embedded_idx(a, ie, b, "$ref"@);
            lemma_embedded_idx(a, ie, b, "type"@);
            assert forall|j: int| 0 <= j < 0 implies ie[j].0 != "type"@ by {}
            lemma_idx_at(ie, "type"@, 0);
            lemma_inst_of_embedded(m, a, b);
        },
    }
}


/// The invariant a parsed definition satisfies: each identifier-like field
/// reparses to itself, and nested parts satisfy their own invariants.
pub open spec fn wf_def(d: DefModel) -> bool
    decreases d, 1int,
    via wf_def_decreases
{
    &&& (d.id matches Some(m) ==> crate::id::wf_id(m))
    &&& (d.dialect matches Some(t) ==> url_normal(t) == Some(t))
    &&& (d.specification matches Some(p) ==> wf_prop(p))
    &&& (d.definitions matches Some(ds) ==> wf_defs(ds))
}

#[via_fn]
proof fn wf_def_decreases(d: DefModel) {
    match d.definitions {
        Some(ds) => {
            assert(decreases_to!(d => d.definitions));
            assert(decreases_to!(d.definitions => ds));
            assert(decreases_to!(d => ds));
        },
        None => {},
    }
}

/// The invariant every entry of a parsed definitions map satisfies.
pub open spec fn wf_defs(ds: Seq<(Seq<char>, DefModel)>) -> bool
    decreases ds, 2int,
    via wf_defs_decreases
{
    if ds.len() == 0 {
        true
    } else {
        wf_def(ds[0].1) && wf_defs(ds.subrange(1, ds.len() as int))
    }
}

#[via_fn]
proof fn wf_defs_decreases(ds: Seq<(Seq<char>, DefModel)>) {
    if ds.len() > 0 {
        lemma_entry_decreases(ds, 0);
        assert(decreases_to!(ds => ds.subrange(1, ds.len() as int)));
    }
}

/// The invariant a parsed schema satisfies.
pub open spec fn wf_schema(m: SchemaModel) -> bool {
    match m {
        SchemaModel::Definition(d) => wf_def(d),
        SchemaModel::BooleanLiteral(_) => true,
    }
}

/// Joining two entry lists that both lack a key gives a list lacking it.
proof fn lemma_nk(x: Seq<(Seq<char>, Jv)>, y: Seq<(Seq<char>, Jv)>, k: Seq<char>)
    requires
        forall|j: int| 0 <= j < x.len() ==> x[j].0 != k,
        forall|j: int| 0 <= j < y.len() ==> y[j].0 != k,
    ensures
        forall|j: int| 0 <= j < (x + y).len() ==> (x + y)[j].0 != k,
{
    assert forall|j: int| 0 <= j < (x + y).len() implies (x + y)[j].0 != k by {
        if j < x.len() {
            assert((x + y)[j] == x[j]);
        } else {
            assert((x + y)[j] == y[j - x.len()]);
        }
    }
}

/// Finding a key in the middle piece of a three-way join, when the outer
/// pieces lack it.
proof fn lemma_idx_mid(
    a: Seq<(Seq<char>, Jv)>,
    ie: Seq<(Seq<char>, Jv)>,
    b: Seq<(Seq<char>, Jv)>,
    k: Seq<char>,
)
    requires
        forall|j: int| 0 <= j < a.len() ==> a[j].0 != k,
        forall|j: int| 0 <= j < b.len() ==> b[j].0 != k,
    ensures
        spec_lookup_idx(ie, k) >= 0 ==> spec_lookup_idx(a + ie + b, k) == a.len()
            + spec_lookup_idx(ie, k) && (a + ie + b)[spec_lookup_idx(a + ie + b, k)]
            == ie[spec_lookup_idx(ie, k)],
        spec_lookup_idx(ie, k) < 0 ==> spec_lookup_idx(a + ie + b, k) == -1,
{
    lemma_lookup_idx(ie, k);
    if spec_lookup_idx(ie, k) >= 0 {
        lemma_idx_concat_right(a, ie, k);
        lemma_idx_concat_left(a + ie, b, k);
    } else {
        lemma_idx_concat_right(a, ie, k);
        lemma_lookup_idx(a + ie, k);
        lemma_idx_concat_right(a + ie, b, k);
        lemma_idx_none(b, k);
    }
}

/// A serialized dependencies map parses back to the map.
proof fn lemma_string_map_rt(ds: Seq<(Seq<char>, Seq<Seq<char>>)>)
    ensures
        spec_string_map_of(spec_ser_string_map(ds)) == Ok::<
            Seq<(Seq<char>, Seq<Seq<char>>)>,
            ErrorKind,
        >(ds),
    decreases ds.len(),
{
    let ser = spec_ser_string_map(ds);
    if ds.len() == 0 {
        assert(Seq::<(Seq<char>, Seq<Seq<char>>)>::empty() =~= ds);
    } else {
        lemma_strings_rt(ds[0].1);
        lemma_string_map_rt(ds.subrange(1, ds.len() as int));
        assert(ser.subrange(1, ser.len() as int) =~= spec_ser_string_map(
            ds.subrange(1, ds.len() as int),
        ));
        assert(seq![(ds[0].0, ds[0].1)] + ds.subrange(1, ds.len() as int) =~= ds);
    }
}

/// The serialized pieces of a definition, by field.
pub open spec fn ser_p1(d: DefModel) -> Seq<(Seq<char>, Jv)> {
    match d.id {
        None => Seq::empty(),
        Some(m) => seq![("$id"@, Jv::Str(spec_id_text(m)))],
    }
}

/// The serialized `dependencies` piece.
pub open spec fn ser_p4(d: DefModel) -> Seq<(Seq<char>, Jv)> {
    match d.dependencies {
        None => Seq::empty(),
        Some(ds) => seq![("dependencies"@, Jv::Obj(spec_ser_string_map(ds)))],
    }
}

/// The serialized specification piece.
pub open spec fn ser_p5(d: DefModel) -> Seq<(Seq<char>, Jv)> {
    match d.specification {
        None => Seq::empty(),
        Some(p) => spec_prop_entries_ser(p),
    }
}

/// The serialized `definitions` piece.
pub open spec fn ser_p6(d: DefModel) -> Seq<(Seq<char>, Jv)> {
    match d.definitions {
        None => Seq::empty(),
        Some(ds) => seq![("definitions"@, Jv::Obj(spec_ser_defs(ds)))],
    }
}

/// Each piece of a serialized definition only carries its own key; the
/// specification piece only carries node-grammar keys.
proof fn lemma_piece_keys(d: DefModel)
    requires
        wf_def(d),
    ensures
        forall|j: int| 0 <= j < ser_p1(d).len() ==> (#[trigger] ser_p1(d)[j].0) == "$id"@,
        forall|j: int|
            0 <= j < ser_p4(d).len() ==> (#[trigger] ser_p4(d)[j].0) == "dependencies"@,
        forall|j: int|
            0 <= j < ser_p6(d).len() ==> (#[trigger] ser_p6(d)[j].0) == "definitions"@,
        forall|j: int|
            0 <= j < spec_opt_entry("$schema"@, d.dialect).len() ==> (#[trigger] spec_opt_entry(
                "$schema"@,
                d.dialect,
            )[j].0) == "$schema"@,
        forall|j: int|
            0 <= j < spec_opt_entry("description"@, d.description).len() ==> (
            #[trigger] spec_opt_entry("description"@, d.description)[j].0) == "description"@,
        forall|j: int|
            0 <= j < ser_p5(d).len() ==> is_node_key(#[trigger] ser_p5(d)[j].0) || ser_p5(d)[j].0
                == "$ref"@,
{
    match d.specification {
        Some(PropModel::Value(m)) => {
            lemma_inst_rt(m);
            assert forall|j: int| 0 <= j < ser_p5(d).len() implies is_node_key(
                #[trigger] ser_p5(d)[j].0,
            ) || ser_p5(d)[j].0 == "$ref"@ by {
                assert(is_node_key(spec_inst_entries(m)[j].0));
            }
        },
        _ => {},
    }
}

/// Locates one identifying field inside a serialized definition: the
/// field's own piece decides the lookup.
#[verifier::rlimit(100)]
proof fn lemma_def_field_idx(d: DefModel, k: Seq<char>, piece: Seq<(Seq<char>, Jv)>)
    requires
        wf_def(d),
        is_def_key(k),
        k == "$id"@ ==> piece == ser_p1(d),
        k == "$schema"@ ==> piece == spec_opt_entry("$schema"@, d.dialect),
        k == "description"@ ==> piece == spec_opt_entry("description"@, d.description),
        k == "dependencies"@ ==> piece == ser_p4(d),
        k == "definitions"@ ==> piece == ser_p6(d),
    ensures
        piece.len() == 0 ==> spec_lookup_idx(spec_ser_def(d), k) < 0,
        piece.len() > 0 ==> spec_lookup_idx(spec_ser_def(d), k) >= 0 && spec_ser_def(
            d,
        )[spec_lookup_idx(spec_ser_def(d), k)] == piece[0],
{
    lemma_keys();
    lemma_piece_keys(d);
    let p1 = ser_p1(d);
    let p2 = spec_opt_entry("$schema"@, d.dialect);
    let p3 = spec_opt_entry("description"@, d.description);
    let p4 = ser_p4(d);
    let p5 = ser_p5(d);
    let p6 = ser_p6(d);
    let full = spec_ser_def(d);
    assert(full == p1 + p2 + p3 + p4 + p5 + p6);
    if k == "$id"@ {
        let b = p2 + p3 + p4 + p5 + p6;
        lemma_nk(p2, p3, k);
        lemma_nk(p2 + p3, p4, k);
        lemma_nk(p2 + p3 + p4, p5, k);
        lemma_nk(p2 + p3 + p4 + p5, p6, k);
        assert(full =~= Seq::<(Seq<char>, Jv)>::empty() + p1 + b);
        lemma_idx_mid(Seq::empty(), p1, b, k);
        if piece.len() > 0 {
            lemma_idx_at(p1, k, 0);
        } else {
            lemma_idx_none(p1, k);
        }
    } else if k == "$schema"@ {
        let b = p3 + p4 + p5 + p6;
        lemma_nk(p3, p4, k);
        lemma_nk(p3 + p4, p5, k);
        lemma_nk(p3 + p4 + p5, p6, k);
        assert(full =~= p1 + p2 + b);
        lemma_idx_mid(p1, p2, b, k);
        if piece.len() > 0 {
            lemma_idx_at(p2, k, 0);
        } else {
            lemma_idx_none(p2, k);
        }
    } else if k == "description"@ {
        let a = p1 + p2;
        let b = p4 + p5 + p6;
        lemma_nk(p1, p2, k);
        lemma_nk(p4, p5, k);
        lemma_nk(p4 + p5, p6, k);
        assert(full =~= a + p3 + b);
        lemma_idx_mid(a, p3, b, k);
        if piece.len() > 0 {
            lemma_idx_at(p3, k, 0);
        } else {
            lemma_idx_none(p3, k);
        }
    } else if k == "dependencies"@ {
        let a = p1 + p2 + p3;
        let b = p5 + p6;
        lemma_nk(p1, p2, k);
        lemma_nk(p1 + p2, p3, k);
        lemma_nk(p5, p6, k);
        assert(full =~= a + p4 + b);
        lemma_idx_mid(a, p4, b, k);
        if piece.len() > 0 {
            lemma_idx_at(p4, k, 0);
        } else {
            lemma_idx_none(p4, k);
        }
    } else {
        let a = p1 + p2 + p3 + p4 + p5;
        lemma_nk(p1, p2, k);
        lemma_nk(p1 + p2, p3, k);
        lemma_nk(p1 + p2 + p3, p4, k);
        lemma_nk(p1 + p2 + p3 + p4, p5, k);
        assert(full =~= a + p6 + Seq::<(Seq<char>, Jv)>::empty());
        lemma_idx_mid(a, p6, Seq::empty(), k);
        if piece.len() > 0 {
            lemma_idx_at(p6, k, 0);
        } else {
            lemma_idx_none(p6, k);
        }
    }
}

/// The flattened specification of a serialized definition parses back.
#[verifier::rlimit(100)]
proof fn lemma_def_rt_spec(d: DefModel)
    requires
        wf_def(d),
    ensures
        spec_prop_of_entries(spec_ser_def(d)) == Ok::<Option<PropModel>, ErrorKind>(
            d.specification,
        ),
{
    lemma_keys();
    lemma_piece_keys(d);
    let p1 = ser_p1(d);
    let p2 = spec_opt_entry("$schema"@, d.dialect);
    let p3 = spec_opt_entry("description"@, d.description);
    let p4 = ser_p4(d);
    let p5 = ser_p5(d);
    let p6 = ser_p6(d);
    let full = spec_ser_def(d);
    assert(full == p1 + p2 + p3 + p4 + p5 + p6);
    let a5 = p1 + p2 + p3 + p4;
    assert forall|j: int| 0 <= j < a5.len() implies !is_node_key(#[trigger] a5[j].0) && a5[j].0
        != "$ref"@ by {
        if j < (p1 + p2 + p3).len() {
            if j < (p1 + p2).len() {
                if j < p1.len() {
                    assert(a5[j] == p1[j]);
                } else {
                    assert(a5[j] == p2[j - p1.len()]);
                }
            } else {
                assert(a5[j] == p3[j - (p1 + p2).len()]);
            }
        } else {
            assert(a5[j] == p4[j - (p1 + p2 + p3).len()]);
        }
    }
    assert(no_grammar_keys(a5));
    assert(no_grammar_keys(p6));
    assert(full =~= a5 + p5 + p6);
    lemma_prop_of_embedded(d.specification, a5, p6);
}

/// A serialized definition parses back to the definition.
#[verifier::rlimit(100)]
pub proof fn lemma_def_rt(d: DefModel)
    requires
        wf_def(d),
    ensures
        spec_def_of(spec_ser_def(d)) == Ok::<DefModel, ErrorKind>(d),
    decreases d, 3int,
{
    lemma_keys();
    let full = spec_ser_def(d);
    lemma_def_field_idx(d, "$id"@, ser_p1(d));
    match d.id {
        None => {
            assert(spec_id_field(full) == Ok::<Option<IdModel>, ErrorKind>(None));
        },
        Some(m) => {
            crate::id::lemma_id_round_trip(m);
            assert(spec_id_field(full) == Ok::<Option<IdModel>, ErrorKind>(Some(m)));
        },
    }
    lemma_def_field_idx(d, "$schema"@, spec_opt_entry("$schema"@, d.dialect));
    assert(spec_dialect_field(full) == Ok::<Option<Seq<char>>, ErrorKind>(d.dialect));
    lemma_def_field_idx(d, "description"@, spec_opt_entry("description"@, d.description));
    assert(spec_description_field(full) == Ok::<Option<Seq<char>>, ErrorKind>(d.description));
    lemma_def_field_idx(d, "dependencies"@, ser_p4(d));
    match d.dependencies {
        None => {
            assert(spec_dependencies_field(full) == Ok::<
                Option<Seq<(Seq<char>, Seq<Seq<char>>)>>,
                ErrorKind,
            >(None));
        },
        Some(ds) => {
            lemma_string_map_rt(ds);
            assert(spec_dependencies_field(full) == Ok::<
                Option<Seq<(Seq<char>, Seq<Seq<char>>)>>,
                ErrorKind,
            >(Some(ds)));
        },
    }
    lemma_def_rt_spec(d);
    lemma_def_field_idx(d, "definitions"@, ser_p6(d));
    match d.definitions {
        None => {
            assert(spec_def_of(full) == Ok::<DefModel, ErrorKind>(d));
        },
        Some(ds) => {
            assert(decreases_to!(d => d.definitions));
            assert(decreases_to!(d.definitions => ds));
            lemma_defs_rt(ds);
            assert(spec_def_of(full) == Ok::<DefModel, ErrorKind>(d));
        },
    }
}

/// The identifying keys of a schema definition.
pub open spec fn is_def_key(k: Seq<char>) -> bool {
    k == "$id"@ || k == "$schema"@ || k == "description"@ || k == "dependencies"@ || k
        == "definitions"@
}

/// A serialized definitions map parses back to the map.
pub proof fn lemma_defs_rt(ds: Seq<(Seq<char>, DefModel)>)
    requires
        wf_defs(ds),
    ensures
        spec_defs_of(spec_ser_defs(ds)) == Ok::<Seq<(Seq<char>, DefModel)>, ErrorKind>(ds),
    decreases ds, 4int,
{
    let ser = spec_ser_defs(ds);
    if ds.len() == 0 {
        assert(Seq::<(Seq<char>, DefModel)>::empty() =~= ds);
    } else {
        assert(decreases_to!(ds => ds[0]));
        assert(decreases_to!(ds[0] => ds[0].1));
        lemma_def_rt(ds[0].1);
        assert(decreases_to!(ds => ds.subrange(1, ds.len() as int)));
        lemma_defs_rt(ds.subrange(1, ds.len() as int));
        assert(ser.subrange(1, ser.len() as int) =~= spec_ser_defs(
            ds.subrange(1, ds.len() as int),
        ));
        assert(seq![(ds[0].0, ds[0].1)] + ds.subrange(1, ds.len() as int) =~= ds);
    }
}

/// Round trip: serializing a well-formed schema and parsing the result
/// yields the schema back, unchanged.
pub proof fn lemma_schema_round_trip(m: SchemaModel)
    requires
        wf_schema(m),
    ensures
        spec_schema_of(spec_ser_schema(m)) == Ok::<SchemaModel, ErrorKind>(m),
{
    match m {
        SchemaModel::BooleanLiteral(_) => {},
        SchemaModel::Definition(d) => {
            lemma_def_rt(d);
        },
    }
}

} // verus!
