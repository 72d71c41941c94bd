//! Type resolution: introspected declared types and named types to schemas.
use vstd::prelude::*;
use crate::error::ParseError;
use crate::help::{DataType, Field, Type, Value};
use crate::json::{Json, Tree, view_entries};
use crate::openapi::{
    AdditionalProperties, ArraySchema, EnumKey, EnumVariant, Extra, Key, ObjectSchema, Schema,
    SchemaObject, Ty, TypedSchema, Variant, item_type_spec, object_spec, schema_of, view_props, view_extra, view_ty,
    variants_view,
};
use crate::order::{sort_enum_variants, sorted_variants};
use crate::text::{owned, str_eq, views};

verus! {

broadcast use vstd::std_specs::vec::group_vec_axioms;

/// The schema of a declared type, from its type name and element type name.
pub open spec fn data_type_spec(ty: Seq<char>, elem: Seq<char>) -> Result<Schema, ParseError> {
    if ty == "object"@ && elem.len() == 0 {
        Ok(object_spec(Extra::Bool(true)))
    } else {
        match item_type_spec(ty) {
            Err(ParseError::VectorTypesShouldBeParsed) => match item_type_spec(elem) {
                Ok(s) => Ok(schema_of(Ty::Array(Box::new(s)))),
                Err(ParseError::ObjectTypesShouldBeParsed) => Ok(
                    schema_of(Ty::Array(Box::new(object_spec(Extra::Bool(true))))),
                ),
                Err(e) => Err(e),
            },
            Err(ParseError::ObjectTypesShouldBeParsed) => match item_type_spec(elem) {
                Ok(s) => Ok(object_spec(Extra::Schema(Box::new(s)))),
                Err(ParseError::ObjectTypesShouldBeParsed) => Ok(
                    object_spec(Extra::Schema(Box::new(object_spec(Extra::Bool(true))))),
                ),
                Err(e) => Err(e),
            },
            res => res,
        }
    }
}

pub open spec fn dt_spec(dt: DataType) -> Result<Schema, ParseError> {
    data_type_spec(dt.ty@, dt.element_type@)
}

pub open spec fn schema_result(r: Result<SchemaObject, ParseError>, s: Result<Schema, ParseError>) -> bool {
    match s {
        Ok(x) => r matches Ok(o) && o@ == x,
        Err(e) => r matches Err(x) && x == e,
    }
}

/// `props` has an entry named `k`.
pub open spec fn has_prop(props: Seq<(Seq<char>, Schema)>, k: Seq<char>) -> bool {
    exists|i: int| 0 <= i < props.len() && props[i].0 == k
}

/// The properties and required names of an object type's fields: a repeated
/// name keeps its first field, a field of a private type is left out.
pub open spec fn fields_spec(fs: Seq<Field>) -> Result<(Seq<(Seq<char>, Schema)>, Seq<Seq<char>>), ParseError>
    decreases fs.len(),
{
    if fs.len() == 0 {
        Ok((Seq::empty(), Seq::empty()))
    } else {
        match fields_spec(fs.drop_last()) {
            Err(e) => Err(e),
            Ok((props, req)) => {
                let f = fs.last();
                let name = f.info.name@;
                if has_prop(props, name) {
                    Ok((props, req))
                } else {
                    match dt_spec(f.ty) {
                        Ok(s) => Ok(
                            (
                                props.push((name, s)),
                                if f.is_optional {
                                    req
                                } else {
                                    req.push(name)
                                },
                            ),
                        ),
                        Err(ParseError::PrivateApiTypeNotSupported) => Ok((props, req)),
                        Err(e) => Err(e),
                    }
                }
            },
        }
    }
}

/// The key of an enumeration value, when it is a scalar.
pub open spec fn key_of(t: Tree) -> Option<Key> {
    match t {
        Tree::Null => Some(Key::Null),
        Tree::Bool(b) => Some(Key::Bool(b)),
        Tree::Number(n) => Some(Key::Num(n)),
        Tree::Str(s) => Some(Key::Str(s)),
        _ => None,
    }
}

pub open spec fn nonempty(s: Seq<char>) -> Option<Seq<char>> {
    if s.len() == 0 {
        None
    } else {
        Some(s)
    }
}

/// The variants of an enumeration type, in declaration order.
pub open spec fn values_spec(vs: Seq<Value>) -> Option<Seq<Variant>>
    decreases vs.len(),
{
    if vs.len() == 0 {
        Some(Seq::empty())
    } else {
        match (values_spec(vs.drop_last()), key_of(vs.last().value@)) {
            (Some(r), Some(k)) => Some(
                r.push(
                    Variant {
                        name: nonempty(vs.last().name@),
                        key: k,
                        description: nonempty(vs.last().description@),
                    },
                ),
            ),
            _ => None,
        }
    }
}

/// A type is well formed when it is not both an object and an enumeration.
pub open spec fn type_wf(ty: Type) -> bool {
    !(ty.fields@.len() > 0 && ty.values@.len() > 0)
}

/// The error that resolving `ty` gives, if any.
pub open spec fn type_error(ty: Type) -> Option<ParseError> {
    match fields_spec(ty.fields@) {
        Err(e) => Some(e),
        Ok(_) => if ty.fields@.len() > 0 {
            None
        } else if ty.values@.len() > 0 {
            match values_spec(ty.values@) {
                Some(_) => None,
                None => Some(ParseError::UnsupportedEnumValue),
            }
        } else {
            Some(ParseError::PrivateApiTypeNotSupported)
        },
    }
}

/// The schema that resolving `ty` gives: an object schema from its fields,
/// or a string enumeration of its values sorted as `sort_enum_variants` does.
pub open spec fn type_schema(ty: Type) -> Result<Schema, ParseError> {
    match type_error(ty) {
        Some(e) => Err(e),
        None => if ty.fields@.len() > 0 {
            match fields_spec(ty.fields@) {
                Ok((props, req)) => Ok(schema_of(Ty::Object(props, Extra::Bool(false), req))),
                Err(e) => Err(e),
            }
        } else {
            match values_spec(ty.values@) {
                Some(vs) => Ok(schema_of(Ty::Str(sorted_variants(vs)))),
                None => Err(ParseError::UnsupportedEnumValue),
            }
        },
    }
}

pub open spec fn type_result(ty: Type, r: Result<SchemaObject, ParseError>) -> bool {
    schema_result(r, type_schema(ty))
}

impl SchemaObject {
    /// The schema of a declared type. A generic `object` takes any additional
    /// properties; `array`/`vector` and `map`/`object` wrap the schema of the
    /// element type.
    pub fn try_from_data_type(data_type: &DataType) -> (r: Result<SchemaObject, ParseError>)
        ensures
            schema_result(r, dt_spec(*data_type)),
    {
        if data_type.is_generic_object() {
            return Ok(SchemaObject::object_of(AdditionalProperties::Bool(true)));
        }
        match SchemaObject::try_parse_item_type(data_type.ty.as_str()) {
            Err(ParseError::VectorTypesShouldBeParsed) => {
                let items = match SchemaObject::try_parse_item_type(data_type.element_type.as_str()) {
                    Ok(s) => s,
                    Err(ParseError::ObjectTypesShouldBeParsed) => SchemaObject::object_of(
                        AdditionalProperties::Bool(true),
                    ),
                    Err(e) => {
                        return Err(e);
                    },
                };
                let out = SchemaObject { ty: TypedSchema::Array(ArraySchema::of(items)), additional_fields: Vec::new() };
                assert(view_entries(out.additional_fields@) =~= Seq::empty());
                Ok(out)
            },
            Err(ParseError::ObjectTypesShouldBeParsed) => {
                let values = match SchemaObject::try_parse_item_type(data_type.element_type.as_str()) {
                    Ok(s) => s,
                    Err(ParseError::ObjectTypesShouldBeParsed) => SchemaObject::object_of(
                        AdditionalProperties::Bool(true),
                    ),
                    Err(e) => {
                        return Err(e);
                    },
                };
                Ok(SchemaObject::object_of(AdditionalProperties::from(values)))
            },
            res => res,
        }
    }

    /// The schema of a named type: an object schema of its fields, or a
    /// string enumeration of its values, sorted.
    #[verifier::loop_isolation(false)]
    pub fn try_from_type(ty: &Type) -> (r: Result<SchemaObject, ParseError>)
        requires
            type_wf(*ty),
        ensures
            type_result(*ty, r),
    {
        let is_object = ty.fields.len() > 0;
        let is_enum = ty.values.len() > 0;
        let mut required: Vec<String> = Vec::new();
        let mut properties: Vec<(String, Box<SchemaObject>)> = Vec::new();
        let mut i: usize = 0;
        assert(ty.fields@.subrange(0, 0) =~= Seq::<Field>::empty());
        assert(view_props(properties@) =~= Seq::empty());
        assert(views(required@) =~= Seq::empty());
        while i < ty.fields.len()
            invariant
                i <= ty.fields@.len(),
                fields_spec(ty.fields@.subrange(0, i as int)) matches Ok((props, req)) && props
                    == view_props(properties@) && req == views(required@),
            decreases ty.fields@.len() - i,
        {
            let field = &ty.fields[i];
            let ghost pre = ty.fields@.subrange(0, i as int);
            let ghost post = ty.fields@.subrange(0, i + 1);
            assert(post.drop_last() =~= pre);
            assert(post.last() == *field);
            if contains_prop(&properties, field.info.name.as_str()) {
            } else {
                match SchemaObject::try_from_data_type(&field.ty) {
                    Ok(schema) => {
                        let ghost old_props = properties@;
                        let ghost old_req = required@;
                        let e = (owned(field.info.name.as_str()), Box::new(schema));
                        properties.push(e);
                        assert(properties@.drop_last() =~= old_props);
                        if !field.is_optional {
                            required.push(owned(field.info.name.as_str()));
                            assert(views(required@) =~= views(old_req).push(field.info.name@));
                        }
                    },
                    Err(ParseError::PrivateApiTypeNotSupported) => {},
                    Err(e) => {
                        proof {
                            lemma_fields_prefix_err(ty.fields@, i + 1);
                        }
                        return Err(e);
                    },
                }
            }
            i = i + 1;
        }
        assert(ty.fields@.subrange(0, i as int) =~= ty.fields@);
        assert(fields_spec(ty.fields@) matches Ok((p, q)) && p == view_props(properties@) && q
            == views(required@));
        if is_object {
            let ghost pv = view_props(properties@);
            let ghost rv = views(required@);
            let out = SchemaObject {
                ty: TypedSchema::Object(
                    ObjectSchema {
                        properties,
                        required,
                        additional_properties: AdditionalProperties::Bool(false),
                    },
                ),
                additional_fields: Vec::new(),
            };
            assert(view_entries(out.additional_fields@) =~= Seq::empty());
            assert(view_extra(AdditionalProperties::Bool(false)) == Extra::Bool(false));
            assert(out.ty matches TypedSchema::Object(o) && view_props(o.properties@) == pv);
            assert(out.ty matches TypedSchema::Object(o) && views(o.required@) == rv);
            assert(view_ty(out.ty) == Ty::Object(pv, Extra::Bool(false), rv));
            assert(out@.ty == Ty::Object(pv, Extra::Bool(false), rv));
            Ok(out)
        } else if is_enum {
            let mut variants: Vec<EnumVariant> = Vec::new();
            let mut j: usize = 0;
            assert(ty.values@.subrange(0, 0) =~= Seq::<Value>::empty());
            assert(variants_view(variants@) =~= Seq::empty());
            while j < ty.values.len()
                invariant
                    j <= ty.values@.len(),
                    values_spec(ty.values@.subrange(0, j as int)) == Some(variants_view(variants@)),
                decreases ty.values@.len() - j,
            {
                let v = &ty.values[j];
                let ghost pre = ty.values@.subrange(0, j as int);
                let ghost post = ty.values@.subrange(0, j + 1);
                assert(post.drop_last() =~= pre);
                assert(post.last() == *v);
                let key = match &v.value {
                    Json::Null => EnumKey::Null,
                    Json::Bool(b) => EnumKey::Bool(*b),
                    Json::Number(n) => EnumKey::Number(owned(n.as_str())),
                    Json::String(s) => EnumKey::String(owned(s.as_str())),
                    _ => {
                        proof {
                            lemma_values_prefix_none(ty.values@, j + 1);
                        }
                        return Err(ParseError::UnsupportedEnumValue);
                    },
                };
                let name = if v.name.unicode_len() == 0 {
                    None
                } else {
                    Some(owned(v.name.as_str()))
                };
                let description = if v.description.unicode_len() == 0 {
                    None
                } else {
                    Some(owned(v.description.as_str()))
                };
                let ghost old_vars = variants@;
                variants.push(EnumVariant { name, key, description });
                assert(variants_view(variants@) =~= variants_view(old_vars).push(
                    variants@.last()@,
                ));
                j = j + 1;
            }
            assert(ty.values@.subrange(0, j as int) =~= ty.values@);
            sort_enum_variants(&mut variants);
            Ok(SchemaObject::string_of(variants))
        } else {
            Err(ParseError::PrivateApiTypeNotSupported)
        }
    }
}

/// Whether some property is named `k`.
fn contains_prop(props: &Vec<(String, Box<SchemaObject>)>, k: &str) -> (r: bool)
    ensures
        r == has_prop(view_props(props@), k@),
{
    proof {
        lemma_view_props(props@);
    }
    let mut i: usize = 0;
    while i < props.len()
        invariant
            i <= props@.len(),
            view_props(props@).len() == props@.len(),
            forall|j: int| 0 <= j < props@.len() ==> #[trigger] view_props(props@)[j].0 == props@[j].0@,
            forall|j: int| 0 <= j < i ==> view_props(props@)[j].0 != k@,
        decreases props@.len() - i,
    {
        if str_eq(props[i].0.as_str(), k) {
            assert(view_props(props@)[i as int].0 == k@);
            return true;
        }
        i = i + 1;
    }
    false
}

pub proof fn lemma_view_props(s: Seq<(String, Box<SchemaObject>)>)
    ensures
        view_props(s).len() == s.len(),
        forall|i: int| 0 <= i < s.len() ==> #[trigger] view_props(s)[i] == (s[i].0@, s[i].1@),
    decreases s.len(),
{
    if s.len() > 0 {
        lemma_view_props(s.drop_last());
    }
}

proof fn lemma_fields_prefix_err(fs: Seq<Field>, i: int)
    requires
        0 <= i <= fs.len(),
        fields_spec(fs.subrange(0, i)) is Err,
    ensures
        fields_spec(fs) == fields_spec(fs.subrange(0, i)),
    decreases fs.len() - i,
{
    if i < fs.len() {
        assert(fs.subrange(0, i + 1).drop_last() =~= fs.subrange(0, i));
        lemma_fields_prefix_err(fs, i + 1);
    } else {
        assert(fs.subrange(0, i) =~= fs);
    }
}

proof fn lemma_values_prefix_none(vs: Seq<Value>, i: int)
    requires
        0 <= i <= vs.len(),
        values_spec(vs.subrange(0, i)) is None,
    ensures
        values_spec(vs) is None,
    decreases vs.len() - i,
{
    if i < vs.len() {
        assert(vs.subrange(0, i + 1).drop_last() =~= vs.subrange(0, i));
        lemma_values_prefix_none(vs, i + 1);
    } else {
        assert(vs.subrange(0, i) =~= vs);
    }
}

} // verus!
