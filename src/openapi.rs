//! The OpenAPI document model: schema objects, operations, parameters and
//! tags, with the mathematical view of schemas that the contracts speak of.
use vstd::prelude::*;
use crate::error::ParseError;
use crate::json::{Json, Tree, view_entries, copy_entries};
use crate::text::{is_prefix, owned, starts_with, str_eq, views};

verus! {

/// The root OpenAPI document.
#[derive(Debug)]
pub struct OpenApiSpec {
    /// Version of the OpenAPI specification the document follows.
    pub openapi: String,
    pub info: OpenApiInfo,
    /// Path to the operations on it.
    pub paths: Vec<(String, PathItem)>,
    pub components: Components,
    /// Tags, in their sorted order.
    pub tags: Vec<Tag>,
}

/// Metadata about the API.
#[derive(Debug, Clone, PartialEq)]
pub struct OpenApiInfo {
    pub title: String,
    pub version: String,
    pub description: Option<String>,
}

/// A tag used by operations.
#[derive(Debug, Clone, PartialEq)]
pub struct Tag {
    pub name: String,
    pub description: Option<String>,
    pub external_docs: Option<ExternalDocumentation>,
}

/// Additional external documentation.
#[derive(Debug, Clone, PartialEq)]
pub struct ExternalDocumentation {
    pub description: Option<String>,
    pub url: Option<String>,
}

/// Reusable schemas, by name.
#[derive(Debug)]
pub struct Components {
    pub schemas: Vec<(String, SchemaObject)>,
}

/// One schema: a typed schema and the fields passed through unmodelled
/// (`minimum`, `maximum`, ...).
#[derive(Debug)]
pub struct SchemaObject {
    pub ty: TypedSchema,
    pub additional_fields: Vec<(String, Json)>,
}

/// A reference to a schema defined elsewhere.
#[derive(Debug)]
pub struct RefSchema {
    /// Usually `#/components/schemas/{name}`.
    pub ref_: String,
}

/// The kinds of schema.
#[derive(Debug)]
pub enum TypedSchema {
    Array(ArraySchema),
    String(StringSchema),
    Integer(IntegerSchema),
    Number(NumberSchema),
    Boolean,
    Ref(RefSchema),
    Object(ObjectSchema),
}

/// An array schema.
#[derive(Debug)]
pub struct ArraySchema {
    pub items: Box<SchemaObject>,
}

/// A string schema; its variants, when there are any, enumerate its values.
#[derive(Debug, PartialEq)]
pub struct StringSchema(pub Vec<EnumVariant>);

/// One value of an enumeration.
#[derive(Debug, PartialEq)]
pub struct EnumVariant {
    /// Display name, serialized in place of the key when present.
    pub name: Option<String>,
    pub key: EnumKey,
    pub description: Option<String>,
}

/// The raw value of an enumeration member. A number is held as its JSON text.
#[derive(Debug)]
pub enum EnumKey {
    Null,
    String(String),
    Number(String),
    Bool(bool),
}

#[derive(Debug)]
pub struct IntegerSchema {
    pub format: Option<IntegerFormat>,
}

#[derive(Debug)]
pub struct NumberSchema {
    pub format: Option<NumberFormat>,
}

/// Integer formats.
#[derive(Debug, Clone, Copy, PartialEq, Eq, Structural)]
pub enum IntegerFormat {
    UInt8,
    UInt16,
    UInt32,
    UInt64,
    Int8,
    Int16,
    Int32,
    Int64,
}

/// Floating-point formats.
#[derive(Debug, Clone, Copy, PartialEq, Eq, Structural)]
pub enum NumberFormat {
    Float,
    Double,
}

/// An object schema.
#[derive(Debug)]
pub struct ObjectSchema {
    pub properties: Vec<(String, Box<SchemaObject>)>,
    pub additional_properties: AdditionalProperties,
    pub required: Vec<String>,
}

/// Whether and how properties beyond the declared ones are allowed.
#[derive(Debug)]
pub enum AdditionalProperties {
    Bool(bool),
    Schema(Box<SchemaObject>),
}

/// The operations available on one path.
#[derive(Debug)]
pub struct PathItem {
    pub ref_: Option<String>,
    pub summary: Option<String>,
    pub description: Option<String>,
    pub servers: Vec<ServerSpec>,
    pub get: Option<Operation>,
    pub post: Option<Operation>,
    pub put: Option<Operation>,
    pub delete: Option<Operation>,
    pub options: Option<Operation>,
    pub head: Option<Operation>,
    pub patch: Option<Operation>,
    pub trace: Option<Operation>,
}

/// One API operation.
#[derive(Debug)]
pub struct Operation {
    pub operation_id: Option<String>,
    pub summary: Option<String>,
    pub description: Option<String>,
    pub tags: Vec<String>,
    pub parameters: Vec<Param>,
    pub request_body: Option<RequestBody>,
    /// Status code to response.
    pub responses: Vec<(String, Response)>,
    pub is_deprecated: bool,
    pub servers: Vec<ServerSpec>,
    pub external_docs: Option<ExternalDocumentation>,
}

/// One operation parameter, by where it appears.
#[derive(Debug)]
pub enum Param {
    Query { param: ParamSchema, allow_reserved: bool },
    Header(ParamSchema),
    Path(ParamSchema),
    Cookie(ParamSchema),
    Ref(String),
}

/// What a parameter is, wherever it appears.
#[derive(Debug)]
pub struct ParamSchema {
    pub name: String,
    pub style: ParamStyle,
    pub options: ParamOptions,
}

/// The optional parts of a parameter.
#[derive(Debug)]
pub struct ParamOptions {
    pub description: Option<String>,
    pub schema: Option<SchemaObject>,
    pub is_required: bool,
    pub is_deprecated: bool,
    pub allow_empty_values: bool,
    pub should_explode: bool,
    pub example: Option<String>,
}

/// How a parameter value is serialized.
#[derive(Debug, Clone, Copy, PartialEq, Eq, Structural)]
pub enum ParamStyle {
    Matrix,
    Label,
    Form,
    Simple,
    SpaceDelimited,
    PipeDelimited,
    DeepObject,
}

/// A request body.
#[derive(Debug)]
pub struct RequestBody {
    pub description: Option<String>,
    /// Media type to its description.
    pub content: Vec<(String, MediaType)>,
    pub is_required: bool,
}

/// One response.
#[derive(Debug)]
pub struct Response {
    pub content: Vec<(String, MediaType)>,
    pub description: Option<String>,
}

/// The schema of a payload of one media type.
#[derive(Debug)]
pub struct MediaType {
    pub schema: SchemaObject,
}

/// A server for the operations.
#[derive(Debug, Clone, PartialEq)]
pub struct ServerSpec {
    pub description: Option<String>,
    pub url: String,
    pub variables: Vec<(String, ServerVariable)>,
}

/// A variable for server URL template substitution.
#[derive(Debug, Clone, PartialEq)]
pub struct ServerVariable {
    pub description: Option<String>,
    pub enum_values: Vec<String>,
    pub default: String,
}

// ---------------------------------------------------------------------------
// Mathematical view of schemas.

pub enum Key {
    Null,
    Str(Seq<char>),
    Num(Seq<char>),
    Bool(bool),
}

pub struct Variant {
    pub name: Option<Seq<char>>,
    pub key: Key,
    pub description: Option<Seq<char>>,
}

pub enum Ty {
    Array(Box<Schema>),
    Str(Seq<Variant>),
    Integer(Option<IntegerFormat>),
    Number(Option<NumberFormat>),
    Boolean,
    Ref(Seq<char>),
    Object(Seq<(Seq<char>, Schema)>, Extra, Seq<Seq<char>>),
}

pub enum Extra {
    Bool(bool),
    Schema(Box<Schema>),
}

pub struct Schema {
    pub ty: Ty,
    pub extra: Seq<(Seq<char>, Tree)>,
}

pub open spec fn opt_str(o: Option<String>) -> Option<Seq<char>> {
    match o {
        Some(s) => Some(s@),
        None => None,
    }
}

pub open spec fn key_view(k: EnumKey) -> Key {
    match k {
        EnumKey::Null => Key::Null,
        EnumKey::String(s) => Key::Str(s@),
        EnumKey::Number(s) => Key::Num(s@),
        EnumKey::Bool(b) => Key::Bool(b),
    }
}

pub open spec fn variant_view(v: EnumVariant) -> Variant {
    Variant { name: opt_str(v.name), key: key_view(v.key), description: opt_str(v.description) }
}

pub open spec fn variants_view(s: Seq<EnumVariant>) -> Seq<Variant> {
    s.map_values(|v: EnumVariant| variant_view(v))
}

impl View for EnumVariant {
    type V = Variant;

    open spec fn view(&self) -> Variant {
        variant_view(*self)
    }
}

pub open spec fn view_schema(s: SchemaObject) -> Schema
    decreases s,
{
    Schema { ty: view_ty(s.ty), extra: view_entries(s.additional_fields@) }
}

pub open spec fn view_ty(t: TypedSchema) -> Ty
    decreases t,
{
    match t {
        TypedSchema::Array(a) => Ty::Array(Box::new(view_schema(*a.items))),
        TypedSchema::String(s) => Ty::Str(variants_view(s.0@)),
        TypedSchema::Integer(i) => Ty::Integer(i.format),
        TypedSchema::Number(n) => Ty::Number(n.format),
        TypedSchema::Boolean => Ty::Boolean,
        TypedSchema::Ref(r) => Ty::Ref(r.ref_@),
        TypedSchema::Object(o) => Ty::Object(
            view_props(o.properties@),
            view_extra(o.additional_properties),
            views(o.required@),
        ),
    }
}

pub open spec fn view_props(s: Seq<(String, Box<SchemaObject>)>) -> Seq<(Seq<char>, Schema)>
    decreases s,
{
    if s.len() == 0 {
        Seq::empty()
    } else {
        view_props(s.drop_last()).push((s.last().0@, view_schema(*s.last().1)))
    }
}

pub open spec fn view_extra(a: AdditionalProperties) -> Extra
    decreases a,
{
    match a {
        AdditionalProperties::Bool(b) => Extra::Bool(b),
        AdditionalProperties::Schema(s) => Extra::Schema(Box::new(view_schema(*s))),
    }
}

impl View for SchemaObject {
    type V = Schema;

    open spec fn view(&self) -> Schema {
        view_schema(*self)
    }
}

pub open spec fn schema_of(ty: Ty) -> Schema {
    Schema { ty, extra: Seq::empty() }
}

/// An object schema with no properties that takes additional ones as `extra` says.
pub open spec fn object_spec(extra: Extra) -> Schema {
    schema_of(Ty::Object(Seq::empty(), extra, Seq::empty()))
}

/// `s` with every leading `p` taken off.
pub open spec fn strip_all(s: Seq<char>, p: Seq<char>) -> Seq<char>
    decreases s.len(),
{
    if p.len() > 0 && is_prefix(p, s) {
        strip_all(s.subrange(p.len() as int, s.len() as int), p)
    } else {
        s
    }
}

pub open spec fn components_prefix() -> Seq<char> {
    "#/components/schemas/"@
}

/// The reference that [`SchemaObject::component_ref`] makes for `name`.
pub open spec fn ref_target(name: Seq<char>) -> Seq<char> {
    components_prefix() + strip_all(strip_all(name, "/"@), components_prefix())
}

pub open spec fn integer_format_of(s: Seq<char>) -> Option<IntegerFormat> {
    if s == "int8"@ {
        Some(IntegerFormat::Int8)
    } else if s == "int16"@ {
        Some(IntegerFormat::Int16)
    } else if s == "int32"@ {
        Some(IntegerFormat::Int32)
    } else if s == "int64"@ {
        Some(IntegerFormat::Int64)
    } else if s == "uint8"@ {
        Some(IntegerFormat::UInt8)
    } else if s == "uint16"@ {
        Some(IntegerFormat::UInt16)
    } else if s == "uint32"@ {
        Some(IntegerFormat::UInt32)
    } else if s == "uint64"@ {
        Some(IntegerFormat::UInt64)
    } else {
        None
    }
}

pub open spec fn number_format_of(s: Seq<char>) -> Option<NumberFormat> {
    if s == "float"@ {
        Some(NumberFormat::Float)
    } else if s == "double"@ {
        Some(NumberFormat::Double)
    } else {
        None
    }
}

/// What a primitive type name resolves to: a schema, or one of the two
/// signals that the name is a collection to resolve from its element type.
pub open spec fn item_type_spec(ty: Seq<char>) -> Result<Schema, ParseError> {
    if ty == "array"@ || ty == "vector"@ {
        Err(ParseError::VectorTypesShouldBeParsed)
    } else if ty == "map"@ || ty == "object"@ {
        Err(ParseError::ObjectTypesShouldBeParsed)
    } else if ty == "string"@ {
        Ok(schema_of(Ty::Str(Seq::empty())))
    } else if ty == "bool"@ || ty == "boolean"@ {
        Ok(schema_of(Ty::Boolean))
    } else if ty.len() == 0 {
        Ok(object_spec(Extra::Bool(true)))
    } else if number_format_of(ty) is Some {
        Ok(schema_of(Ty::Number(number_format_of(ty))))
    } else if integer_format_of(ty) is Some {
        Ok(schema_of(Ty::Integer(integer_format_of(ty))))
    } else {
        Ok(schema_of(Ty::Ref(ref_target(ty))))
    }
}

/// Copies a string literal's characters into a fresh `String`.
fn lit(s: &str) -> (r: String)
    ensures
        r@ == s@,
{
    owned(s)
}

/// Takes every leading `p` off `s`.
fn trim_start_all(s: &str, p: &str) -> (r: String)
    requires
        p@.len() > 0,
    ensures
        r@ == strip_all(s@, p@),
{
    let mut cur = owned(s);
    let n = p.unicode_len();
    loop
        invariant
            n == p@.len(),
            n > 0,
            strip_all(cur@, p@) == strip_all(s@, p@),
        decreases cur@.len(),
    {
        if !starts_with(cur.as_str(), p) {
            return cur;
        }
        let len = cur.unicode_len();
        let rest = owned(cur.as_str().substring_char(n, len));
        cur = rest;
    }
}

impl IntegerFormat {
    /// The integer format named `s`.
    pub fn from_str(s: &str) -> (r: Result<IntegerFormat, ParseError>)
        ensures
            match integer_format_of(s@) {
                Some(f) => r == Ok::<IntegerFormat, ParseError>(f),
                None => r == Err::<IntegerFormat, ParseError>(ParseError::FormatIsNotAnInteger),
            },
    {
        if str_eq(s, "int8") {
            Ok(IntegerFormat::Int8)
        } else if str_eq(s, "int16") {
            Ok(IntegerFormat::Int16)
        } else if str_eq(s, "int32") {
            Ok(IntegerFormat::Int32)
        } else if str_eq(s, "int64") {
            Ok(IntegerFormat::Int64)
        } else if str_eq(s, "uint8") {
            Ok(IntegerFormat::UInt8)
        } else if str_eq(s, "uint16") {
            Ok(IntegerFormat::UInt16)
        } else if str_eq(s, "uint32") {
            Ok(IntegerFormat::UInt32)
        } else if str_eq(s, "uint64") {
            Ok(IntegerFormat::UInt64)
        } else {
            Err(ParseError::FormatIsNotAnInteger)
        }
    }
}

impl NumberFormat {
    /// The floating-point format named `s`.
    pub fn from_str(s: &str) -> (r: Result<NumberFormat, ParseError>)
        ensures
            match number_format_of(s@) {
                Some(f) => r == Ok::<NumberFormat, ParseError>(f),
                None => r == Err::<NumberFormat, ParseError>(ParseError::FormatIsNotANumber),
            },
    {
        if str_eq(s, "float") {
            Ok(NumberFormat::Float)
        } else if str_eq(s, "double") {
            Ok(NumberFormat::Double)
        } else {
            Err(ParseError::FormatIsNotANumber)
        }
    }
}

impl SchemaObject {
    /// Whether the schema is an object schema.
    pub fn is_object(&self) -> (r: bool)
        ensures
            r == (self@.ty is Object),
    {
        match self.ty {
            TypedSchema::Object(_) => true,
            _ => false,
        }
    }

    /// A reference to the component schema `name`; a leading `/` or
    /// `#/components/schemas/` on `name` is dropped.
    pub fn component_ref(name: &str) -> (r: SchemaObject)
        ensures
            r@ == schema_of(Ty::Ref(ref_target(name@))),
    {
        proof {
            reveal_strlit("/");
            reveal_strlit("#/components/schemas/");
        }
        let a = trim_start_all(name, "/");
        let b = trim_start_all(a.as_str(), "#/components/schemas/");
        let mut r = lit("#/components/schemas/");
        r.append(b.as_str());
        let out = SchemaObject { ty: TypedSchema::Ref(RefSchema { ref_: r }), additional_fields: Vec::new() };
        assert(view_entries(out.additional_fields@) =~= Seq::empty());
        out
    }

    /// A string schema with no enumerated values.
    pub fn string() -> (r: SchemaObject)
        ensures
            r@ == schema_of(Ty::Str(Seq::empty())),
    {
        let out = SchemaObject { ty: TypedSchema::String(StringSchema(Vec::new())), additional_fields: Vec::new() };
        assert(view_entries(out.additional_fields@) =~= Seq::empty());
        assert(variants_view(Seq::<EnumVariant>::empty()) =~= Seq::empty());
        out
    }

    /// A string schema enumerating `variants`.
    pub fn string_of(variants: Vec<EnumVariant>) -> (r: SchemaObject)
        ensures
            r@ == schema_of(Ty::Str(variants_view(variants@))),
    {
        let out = SchemaObject { ty: TypedSchema::String(StringSchema(variants)), additional_fields: Vec::new() };
        assert(view_entries(out.additional_fields@) =~= Seq::empty());
        out
    }

    /// A number schema; `format` is kept when it names a floating-point format.
    pub fn number(format: &str) -> (r: SchemaObject)
        ensures
            r@ == schema_of(Ty::Number(number_format_of(format@))),
    {
        let f = match NumberFormat::from_str(format) {
            Ok(f) => Some(f),
            Err(_) => None,
        };
        let out = SchemaObject { ty: TypedSchema::Number(NumberSchema { format: f }), additional_fields: Vec::new() };
        assert(view_entries(out.additional_fields@) =~= Seq::empty());
        out
    }

    /// An integer schema; `format` is kept when it names an integer format.
    pub fn integer(format: &str) -> (r: SchemaObject)
        ensures
            r@ == schema_of(Ty::Integer(integer_format_of(format@))),
    {
        let f = match IntegerFormat::from_str(format) {
            Ok(f) => Some(f),
            Err(_) => None,
        };
        let out = SchemaObject { ty: TypedSchema::Integer(IntegerSchema { format: f }), additional_fields: Vec::new() };
        assert(view_entries(out.additional_fields@) =~= Seq::empty());
        out
    }

    /// An object schema without properties.
    pub fn object_of(element_ty: AdditionalProperties) -> (r: SchemaObject)
        ensures
            r@ == object_spec(view_extra(element_ty)),
    {
        let out = SchemaObject {
            ty: TypedSchema::Object(
                ObjectSchema { properties: Vec::new(), required: Vec::new(), additional_properties: element_ty },
            ),
            additional_fields: Vec::new(),
        };
        assert(view_entries(out.additional_fields@) =~= Seq::empty());
        assert(view_props(Seq::<(String, Box<SchemaObject>)>::empty()) =~= Seq::empty());
        assert(views(Seq::<String>::empty()) =~= Seq::empty());
        out
    }

    /// An object schema that takes any additional properties.
    pub fn default() -> (r: SchemaObject)
        ensures
            r@ == object_spec(Extra::Bool(true)),
    {
        SchemaObject::object_of(AdditionalProperties::Bool(true))
    }

    /// A boolean schema.
    pub fn bool() -> (r: SchemaObject)
        ensures
            r@ == schema_of(Ty::Boolean),
    {
        let out = SchemaObject { ty: TypedSchema::Boolean, additional_fields: Vec::new() };
        assert(view_entries(out.additional_fields@) =~= Seq::empty());
        out
    }

    /// The schema of a primitive type name, or the signal that the name is
    /// an array (`array`, `vector`) or a map (`map`, `object`). Unknown names
    /// are references to component schemas.
    pub fn try_parse_item_type(ty: &str) -> (r: Result<SchemaObject, ParseError>)
        ensures
            match item_type_spec(ty@) {
                Ok(s) => r matches Ok(x) && x@ == s,
                Err(e) => r matches Err(x) && x == e,
            },
    {
        if str_eq(ty, "array") || str_eq(ty, "vector") {
            Err(ParseError::VectorTypesShouldBeParsed)
        } else if str_eq(ty, "map") || str_eq(ty, "object") {
            Err(ParseError::ObjectTypesShouldBeParsed)
        } else if str_eq(ty, "string") {
            Ok(SchemaObject::string())
        } else if str_eq(ty, "bool") || str_eq(ty, "boolean") {
            Ok(SchemaObject::bool())
        } else if ty.unicode_len() == 0 {
            Ok(SchemaObject::object_of(AdditionalProperties::Bool(true)))
        } else if NumberFormat::from_str(ty).is_ok() {
            Ok(SchemaObject::number(ty))
        } else if IntegerFormat::from_str(ty).is_ok() {
            Ok(SchemaObject::integer(ty))
        } else {
            Ok(SchemaObject::component_ref(ty))
        }
    }
}

impl TypedSchema {
    /// Whether this is an object schema.
    pub fn is_object(&self) -> (r: bool)
        ensures
            r == (*self is Object),
    {
        match self {
            TypedSchema::Object(_) => true,
            _ => false,
        }
    }

    pub fn as_object(&self) -> (r: Option<&ObjectSchema>)
        ensures
            (*self is Object) == (r is Some),
    {
        if let TypedSchema::Object(v) = self {
            Some(v)
        } else {
            None
        }
    }

    pub fn as_string(&self) -> (r: Option<&StringSchema>)
        ensures
            (*self is String) == (r is Some),
    {
        if let TypedSchema::String(v) = self {
            Some(v)
        } else {
            None
        }
    }

    pub fn as_array(&self) -> (r: Option<&ArraySchema>)
        ensures
            (*self is Array) == (r is Some),
    {
        if let TypedSchema::Array(v) = self {
            Some(v)
        } else {
            None
        }
    }

    pub fn as_number(&self) -> (r: Option<&NumberSchema>)
        ensures
            (*self is Number) == (r is Some),
    {
        if let TypedSchema::Number(v) = self {
            Some(v)
        } else {
            None
        }
    }

    pub fn as_integer(&self) -> (r: Option<&IntegerSchema>)
        ensures
            (*self is Integer) == (r is Some),
    {
        if let TypedSchema::Integer(v) = self {
            Some(v)
        } else {
            None
        }
    }
}

impl ArraySchema {
    /// An array schema of `items`.
    pub fn of(items: SchemaObject) -> (r: ArraySchema)
        ensures
            view_schema(*r.items) == items@,
    {
        ArraySchema { items: Box::new(items) }
    }
}

impl EnumKey {
    /// A string key.
    pub fn string(s: &str) -> (r: EnumKey)
        ensures
            key_view(r) == Key::Str(s@),
    {
        EnumKey::String(owned(s))
    }
}

impl EnumVariant {
    /// The variant with no name, no key and no description.
    pub fn none() -> (r: EnumVariant)
        ensures
            r@ == (Variant { name: None, key: Key::Null, description: None }),
    {
        EnumVariant { name: None, key: EnumKey::Null, description: None }
    }
}

impl AdditionalProperties {
    /// No additional properties.
    pub fn default() -> (r: AdditionalProperties)
        ensures
            view_extra(r) == Extra::Bool(false),
    {
        AdditionalProperties::Bool(false)
    }

    /// Additional properties that `schema` describes.
    pub fn from(schema: SchemaObject) -> (r: AdditionalProperties)
        ensures
            view_extra(r) == Extra::Schema(Box::new(schema@)),
    {
        AdditionalProperties::Schema(Box::new(schema))
    }
}

impl Components {
    /// Whether there are no schemas.
    pub fn is_empty(&self) -> (r: bool)
        ensures
            r == (self.schemas@.len() == 0),
    {
        self.schemas.len() == 0
    }
}

impl ParamStyle {
    /// The default style of query parameters.
    pub fn default_query() -> (r: ParamStyle)
        ensures
            r == ParamStyle::Form,
    {
        ParamStyle::Form
    }

    /// The default style of header parameters.
    pub fn default_header() -> (r: ParamStyle)
        ensures
            r == ParamStyle::Simple,
    {
        ParamStyle::Simple
    }

    /// The default style of path parameters.
    pub fn default_path() -> (r: ParamStyle)
        ensures
            r == ParamStyle::Simple,
    {
        ParamStyle::Simple
    }

    /// The default style of cookie parameters.
    pub fn default_cookie() -> (r: ParamStyle)
        ensures
            r == ParamStyle::Form,
    {
        ParamStyle::Form
    }
}

impl ParamOptions {
    /// Options with only a schema and whether the parameter is required.
    pub fn of(schema: SchemaObject, is_required: bool) -> (r: ParamOptions)
        ensures
            r.schema matches Some(s) && s@ == schema@,
            r.is_required == is_required,
            r.description is None,
            !r.is_deprecated && !r.allow_empty_values && !r.should_explode,
            r.example is None,
    {
        ParamOptions {
            description: None,
            schema: Some(schema),
            is_required,
            is_deprecated: false,
            allow_empty_values: false,
            should_explode: false,
            example: None,
        }
    }
}

impl Tag {
    /// A tag with only a name.
    pub fn from(name: String) -> (r: Tag)
        ensures
            r.name@ == name@,
            r.description is None,
            r.external_docs is None,
    {
        Tag { name, description: None, external_docs: None }
    }
}

impl OpenApiSpec {
    /// An empty OpenAPI 3.0.0 document with `info`.
    pub fn from(info: OpenApiInfo) -> (r: OpenApiSpec)
        ensures
            r.openapi@ == "3.0.0"@,
            r.info == info,
            r.paths@.len() == 0,
            r.components.schemas@.len() == 0,
            r.tags@.len() == 0,
    {
        OpenApiSpec {
            openapi: lit("3.0.0"),
            info,
            paths: Vec::new(),
            components: Components { schemas: Vec::new() },
            tags: Vec::new(),
        }
    }
}

impl PathItem {
    /// A path item with no operations.
    pub fn new() -> (r: PathItem)
        ensures
            r.get is None && r.post is None && r.put is None && r.delete is None,
            r.options is None && r.head is None && r.patch is None && r.trace is None,
    {
        PathItem {
            ref_: None,
            summary: None,
            description: None,
            servers: Vec::new(),
            get: None,
            post: None,
            put: None,
            delete: None,
            options: None,
            head: None,
            patch: None,
            trace: None,
        }
    }
}

pub proof fn lemma_view_props(s: Seq<(String, Box<SchemaObject>)>)
    ensures
        view_props(s).len() == s.len(),
        forall|i: int| 0 <= i < s.len() ==> #[trigger] view_props(s)[i] == (s[i].0@, view_schema(*s[i].1)),
    decreases s.len(),
{
    if s.len() > 0 {
        lemma_view_props(s.drop_last());
    }
}

fn copy_opt_string(o: &Option<String>) -> (r: Option<String>)
    ensures
        opt_str(r) == opt_str(*o),
{
    match o {
        Some(s) => Some(owned(s.as_str())),
        None => None,
    }
}

fn copy_variant(v: &EnumVariant) -> (r: EnumVariant)
    ensures
        r@ == v@,
{
    let key = match &v.key {
        EnumKey::Null => EnumKey::Null,
        EnumKey::String(s) => EnumKey::String(owned(s.as_str())),
        EnumKey::Number(s) => EnumKey::Number(owned(s.as_str())),
        EnumKey::Bool(b) => EnumKey::Bool(*b),
    };
    EnumVariant { name: copy_opt_string(&v.name), key, description: copy_opt_string(&v.description) }
}

fn copy_strings(v: &Vec<String>) -> (r: Vec<String>)
    ensures
        views(r@) == views(v@),
{
    let mut out: Vec<String> = Vec::new();
    let mut i: usize = 0;
    while i < v.len()
        invariant
            i <= v@.len(),
            views(out@) == views(v@.subrange(0, i as int)),
        decreases v@.len() - i,
    {
        let ghost o = out@;
        out.push(owned(v[i].as_str()));
        assert(views(out@) =~= views(o).push(v@[i as int]@));
        assert(views(v@.subrange(0, i + 1)) =~= views(v@.subrange(0, i as int)).push(v@[i as int]@));
        i = i + 1;
    }
    assert(v@.subrange(0, i as int) =~= v@);
    out
}

/// A deep copy of a schema.
pub fn copy_schema(s: &SchemaObject) -> (r: SchemaObject)
    ensures
        r@ == s@,
    decreases s, 0int,
{
    let ty = copy_ty(&s.ty);
    SchemaObject { ty, additional_fields: copy_entries(&s.additional_fields) }
}

fn copy_ty(t: &TypedSchema) -> (r: TypedSchema)
    ensures
        view_ty(r) == view_ty(*t),
    decreases t, 0int,
{
    match t {
        TypedSchema::Array(a) => {
            let items = copy_schema(&a.items);
            TypedSchema::Array(ArraySchema { items: Box::new(items) })
        },
        TypedSchema::String(ss) => {
            let mut out: Vec<EnumVariant> = Vec::new();
            let mut i: usize = 0;
            while i < ss.0.len()
                invariant
                    i <= ss.0@.len(),
                    variants_view(out@) == variants_view(ss.0@.subrange(0, i as int)),
                decreases ss.0@.len() - i,
            {
                let ghost o = out@;
                let c = copy_variant(&ss.0[i]);
                out.push(c);
                assert(variants_view(out@) =~= variants_view(o).push(ss.0@[i as int]@));
                assert(variants_view(ss.0@.subrange(0, i + 1)) =~= variants_view(
                    ss.0@.subrange(0, i as int),
                ).push(ss.0@[i as int]@));
                i = i + 1;
            }
            assert(ss.0@.subrange(0, i as int) =~= ss.0@);
            TypedSchema::String(StringSchema(out))
        },
        TypedSchema::Integer(x) => TypedSchema::Integer(IntegerSchema { format: x.format }),
        TypedSchema::Number(x) => TypedSchema::Number(NumberSchema { format: x.format }),
        TypedSchema::Boolean => TypedSchema::Boolean,
        TypedSchema::Ref(x) => TypedSchema::Ref(RefSchema { ref_: owned(x.ref_.as_str()) }),
        TypedSchema::Object(o) => {
            let properties = copy_props(&o.properties);
            let additional_properties = copy_extra(&o.additional_properties);
            let required = copy_strings(&o.required);
            TypedSchema::Object(ObjectSchema { properties, additional_properties, required })
        },
    }
}

fn copy_props(v: &Vec<(String, Box<SchemaObject>)>) -> (r: Vec<(String, Box<SchemaObject>)>)
    ensures
        view_props(r@) == view_props(v@),
    decreases v, 0int,
{
    let mut out: Vec<(String, Box<SchemaObject>)> = Vec::new();
    let mut i: usize = 0;
    while i < v.len()
        invariant
            i <= v@.len(),
            view_props(out@) == view_props(v@.subrange(0, i as int)),
        decreases v@.len() - i,
    {
        proof {
            assert(decreases_to!(*v => v[i as int]));
        }
        let c = copy_schema(&v[i].1);
        let k = owned(v[i].0.as_str());
        let ghost o = out@;
        out.push((k, Box::new(c)));
        assert(out@.drop_last() =~= o);
        assert(v@.subrange(0, i + 1).drop_last() =~= v@.subrange(0, i as int));
        i = i + 1;
    }
    assert(v@.subrange(0, i as int) =~= v@);
    out
}

fn copy_extra(a: &AdditionalProperties) -> (r: AdditionalProperties)
    ensures
        view_extra(r) == view_extra(*a),
    decreases a, 0int,
{
    match a {
        AdditionalProperties::Bool(b) => AdditionalProperties::Bool(*b),
        AdditionalProperties::Schema(s) => AdditionalProperties::Schema(Box::new(copy_schema(s))),
    }
}

} // verus!
