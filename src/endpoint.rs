//! Endpoint resolution: one introspected endpoint to one OpenAPI operation.
use vstd::prelude::*;
use crate::error::ParseError;
use crate::help::{Argument, Endpoint, HttpMethod};
use crate::openapi::{
    MediaType, OpenApiSpec, Operation, Param, ParamOptions, ParamSchema, ParamStyle, RequestBody,
    Response, Schema, SchemaObject, Ty, TypedSchema, copy_schema, lemma_view_props, schema_of,
    view_props, view_schema,
};
use crate::resolve::dt_spec;
use crate::text::{
    is_prefix, lemma_split_nonempty, owned, strip_leading, split_on, split_seq, starts_with, str_eq,
    views, without_leading,
};

verus! {

broadcast use vstd::std_specs::vec::group_vec_axioms;

/// Where a parameter appears.
#[derive(Debug, Clone, Copy, PartialEq, Eq, Structural)]
pub enum In {
    Query,
    Header,
    Path,
    Cookie,
    Ref,
}

/// What the contracts say of a parameter: where, its name, its schema,
/// whether it is required, its style and whether it allows reserved
/// characters.
pub struct ParamView {
    pub at: In,
    pub name: Seq<char>,
    pub schema: Option<Schema>,
    pub required: bool,
    pub style: ParamStyle,
    pub allow_reserved: bool,
}

pub open spec fn opt_schema(o: Option<SchemaObject>) -> Option<Schema> {
    match o {
        Some(s) => Some(view_schema(s)),
        None => None,
    }
}

pub open spec fn schema_param_view(at: In, p: ParamSchema, allow_reserved: bool) -> ParamView {
    ParamView {
        at,
        name: p.name@,
        schema: opt_schema(p.options.schema),
        required: p.options.is_required,
        style: p.style,
        allow_reserved,
    }
}

pub open spec fn param_view(p: Param) -> ParamView {
    match p {
        Param::Query { param, allow_reserved } => schema_param_view(In::Query, param, allow_reserved),
        Param::Header(s) => schema_param_view(In::Header, s, false),
        Param::Path(s) => schema_param_view(In::Path, s, false),
        Param::Cookie(s) => schema_param_view(In::Cookie, s, false),
        Param::Ref(r) => ParamView {
            at: In::Ref,
            name: r@,
            schema: None,
            required: false,
            style: ParamStyle::Simple,
            allow_reserved: false,
        },
    }
}

pub open spec fn params_view(s: Seq<Param>) -> Seq<ParamView> {
    s.map_values(|p: Param| param_view(p))
}

pub open spec fn comps_view(s: Seq<(String, SchemaObject)>) -> Seq<(Seq<char>, Schema)> {
    s.map_values(|e: (String, SchemaObject)| (e.0@, view_schema(e.1)))
}

/// The first component schema named `k`.
pub open spec fn comp_lookup(cs: Seq<(Seq<char>, Schema)>, k: Seq<char>) -> Option<Schema>
    decreases cs.len(),
{
    if cs.len() == 0 {
        None
    } else if cs[0].0 == k {
        Some(cs[0].1)
    } else {
        comp_lookup(cs.drop_first(), k)
    }
}

/// Position of the first argument whose name matches `p`, a leading `+`
/// marker taken off both.
pub open spec fn arg_for(args: Seq<Argument>, p: Seq<char>) -> Option<int>
    decreases args.len(),
{
    if args.len() == 0 {
        None
    } else if strip_leading(args[0].info.name@, '+') == strip_leading(p, '+') {
        Some(0)
    } else {
        match arg_for(args.drop_first(), p) {
            Some(i) => Some(i + 1),
            None => None,
        }
    }
}

pub open spec fn string_schema() -> Schema {
    schema_of(Ty::Str(Seq::empty()))
}

/// The schema of path parameter `p`: its argument's type, else a string.
pub open spec fn path_param_schema(args: Seq<Argument>, p: Seq<char>) -> Result<Schema, ParseError> {
    match arg_for(args, p) {
        Some(i) => dt_spec(args[i].ty),
        None => Ok(string_schema()),
    }
}

/// The path parameters, in order, all required.
pub open spec fn path_params_spec(args: Seq<Argument>, ps: Seq<String>) -> Result<Seq<ParamView>, ParseError>
    decreases ps.len(),
{
    if ps.len() == 0 {
        Ok(Seq::empty())
    } else {
        match path_params_spec(args, ps.drop_last()) {
            Err(e) => Err(e),
            Ok(r) => match path_param_schema(args, ps.last()@) {
                Err(e) => Err(e),
                Ok(s) => Ok(
                    r.push(path_view(ps.last()@, s)),
                ),
            },
        }
    }
}

/// A query parameter: form style, no reserved characters.
pub open spec fn query_param_view(name: Seq<char>, s: Schema, required: bool) -> ParamView {
    ParamView { at: In::Query, name, schema: Some(s), required, style: ParamStyle::Form, allow_reserved: false }
}

/// A path parameter: simple style, required.
pub open spec fn path_view(name: Seq<char>, s: Schema) -> ParamView {
    ParamView { at: In::Path, name, schema: Some(s), required: true, style: ParamStyle::Simple, allow_reserved: false }
}

pub open spec fn query_view(a: Argument, s: Schema) -> ParamView {
    query_param_view(a.info.name@, s, !a.is_optional)
}

/// One query parameter per argument.
pub open spec fn query_params_spec(args: Seq<Argument>) -> Result<Seq<ParamView>, ParseError>
    decreases args.len(),
{
    if args.len() == 0 {
        Ok(Seq::empty())
    } else {
        match query_params_spec(args.drop_last()) {
            Err(e) => Err(e),
            Ok(r) => match dt_spec(args.last().ty) {
                Err(e) => Err(e),
                Ok(s) => Ok(r.push(query_view(args.last(), s))),
            },
        }
    }
}

/// Verbs whose sole non-path argument is a source of query parameters; an
/// absent verb means GET.
pub open spec fn query_verb(m: Option<HttpMethod>) -> bool {
    m is None || m == Some(HttpMethod::Get) || m == Some(HttpMethod::Delete) || m == Some(HttpMethod::Head)
        || m == Some(HttpMethod::Options) || m == Some(HttpMethod::Trace)
}

/// The last `/`-separated piece of a reference.
pub open spec fn ref_name(r: Seq<char>) -> Seq<char> {
    split_seq(r, '/').last()
}

/// The query parameters flattened from the properties of an object schema.
pub open spec fn flatten_spec(props: Seq<(Seq<char>, Schema)>, required: bool) -> Seq<ParamView> {
    props.map_values(|e: (Seq<char>, Schema)| query_param_view(e.0, e.1, required))
}

/// The query parameters of a sole argument under a query verb: the
/// properties of its (referenced) object schema, else the argument itself.
pub open spec fn sole_query_spec(a: Argument, cs: Seq<(Seq<char>, Schema)>) -> Result<Seq<ParamView>, ParseError> {
    match dt_spec(a.ty) {
        Err(e) => Err(e),
        Ok(s) => {
            let target = match s.ty {
                Ty::Ref(r) => comp_lookup(cs, ref_name(r)),
                _ => Some(s),
            };
            match target {
                None => Err(ParseError::InvalidData),
                Some(t) => match t.ty {
                    Ty::Object(props, _, _) => Ok(flatten_spec(props, !a.is_optional)),
                    _ => Ok(seq![query_view(a, s)]),
                },
            }
        },
    }
}

/// The arguments after the path parameters.
pub open spec fn rest_args(ep: Endpoint) -> Seq<Argument> {
    let n = ep.path_params@.len();
    if n <= ep.arguments@.len() {
        ep.arguments@.subrange(n as int, ep.arguments@.len() as int)
    } else {
        Seq::empty()
    }
}

/// The parameters of the operation and the schema of its request body.
pub open spec fn params_spec(ep: Endpoint, cs: Seq<(Seq<char>, Schema)>) -> Result<(Seq<ParamView>, Option<Schema>), ParseError> {
    match path_params_spec(ep.arguments@, ep.path_params@) {
        Err(e) => Err(e),
        Ok(pp) => {
            let rest = rest_args(ep);
            if rest.len() > 1 {
                match query_params_spec(rest) {
                    Err(e) => Err(e),
                    Ok(q) => Ok((pp + q, None)),
                }
            } else if rest.len() == 0 {
                Ok((pp, None))
            } else if query_verb(ep.method) {
                match sole_query_spec(rest[0], cs) {
                    Err(e) => Err(e),
                    Ok(q) => Ok((pp + q, None)),
                }
            } else {
                match dt_spec(rest[0].ty) {
                    Err(e) => Err(e),
                    Ok(b) => Ok((pp, Some(b))),
                }
            }
        },
    }
}

/// The response schema, if any; `Err` when the return type is a collection
/// that should have been resolved further.
pub open spec fn response_spec(ep: Endpoint) -> Result<Option<Schema>, ParseError> {
    match dt_spec(ep.return_ty) {
        Ok(s) => Ok(Some(s)),
        Err(ParseError::ObjectTypesShouldBeParsed) => Err(ParseError::ObjectTypesShouldBeParsed),
        Err(ParseError::VectorTypesShouldBeParsed) => Err(ParseError::VectorTypesShouldBeParsed),
        Err(_) => Ok(None),
    }
}

pub open spec fn ignored_tag(t: Seq<char>) -> bool {
    t == "Plugins"@ || t == "$remoting-binding-module"@
}

/// `s` without ignored tags and without repeats (the first one stays).
pub open spec fn clean_tags(s: Seq<Seq<char>>) -> Seq<Seq<char>>
    decreases s.len(),
{
    if s.len() == 0 {
        Seq::empty()
    } else {
        let d = clean_tags(s.drop_last());
        if ignored_tag(s.last()) || d.contains(s.last()) {
            d
        } else {
            d.push(s.last())
        }
    }
}

/// The tag that a path gives its operation, if any.
pub open spec fn path_tag(path: Seq<char>) -> Seq<Seq<char>> {
    let segs = split_seq(path, '/');
    if segs.len() < 2 {
        Seq::empty()
    } else if is_prefix("/lol-"@, path) {
        seq!["Plugin "@ + segs[1]]
    } else if is_prefix("/{plugin}"@, path) {
        seq!["Plugin Static Assets"@]
    } else {
        seq![segs[1]]
    }
}

pub open spec fn op_tags_spec(path: Seq<char>, tags: Seq<Seq<char>>) -> Seq<Seq<char>> {
    clean_tags(path_tag(path) + tags)
}

pub open spec fn media_view(c: Seq<(String, MediaType)>) -> Seq<(Seq<char>, Schema)> {
    c.map_values(|e: (String, MediaType)| (e.0@, view_schema(e.1.schema)))
}

/// A single `application/json` content of schema `s`.
pub open spec fn json_content(c: Seq<(String, MediaType)>, s: Schema) -> bool {
    media_view(c) == seq![("application/json"@, s)]
}

/// What [`Endpoint::operation`] gives for `ep`.
pub open spec fn operation_result(ep: Endpoint, cs: Seq<(Seq<char>, Schema)>, r: Result<Operation, ParseError>) -> bool {
    match params_spec(ep, cs) {
        Err(e) => r matches Err(x) && x == e,
        Ok((params, body)) => match response_spec(ep) {
            Err(e) => r matches Err(x) && x == e,
            Ok(resp) => match ep.path {
                None => r matches Err(x) && x == ParseError::EndpointPathCannotBeNone,
                Some(path) => r matches Ok(op) && {
                    &&& params_view(op.parameters@) == params
                    &&& match body {
                        None => op.request_body is None,
                        Some(b) => op.request_body matches Some(rb) && json_content(rb.content@, b),
                    }
                    &&& op.responses@.len() == 1
                    &&& op.responses@[0].0@ == "2XX"@
                    &&& match resp {
                        Some(s) => json_content(op.responses@[0].1.content@, s) && op.responses@[0].1.description is None,
                        None => op.responses@[0].1.content@.len() == 0
                            && (op.responses@[0].1.description matches Some(d) && d@
                            == "Success response"@),
                    }
                    &&& views(op.tags@) == op_tags_spec(path@, views(ep.tags@))
                    &&& op.operation_id matches Some(id) && id@ == ep.info.name@
                    &&& op.description matches Some(d) && d@ == ep.info.description@
                },
            },
        },
    }
}

fn query_param(name: &str, schema: SchemaObject, is_required: bool) -> (r: Param)
    ensures
        param_view(r) == query_param_view(name@, schema@, is_required),
{
    Param::Query {
        param: ParamSchema { name: owned(name), style: ParamStyle::default_query(), options: ParamOptions::of(schema, is_required) },
        allow_reserved: false,
    }
}

fn push_param(params: &mut Vec<Param>, p: Param)
    ensures
        params_view(final(params)@) == params_view(old(params)@).push(param_view(p)),
{
    let ghost o = params@;
    params.push(p);
    assert(params_view(params@) =~= params_view(o).push(param_view(p)));
}

fn json_media(s: SchemaObject) -> (r: Vec<(String, MediaType)>)
    ensures
        json_content(r@, s@),
{
    let mut c: Vec<(String, MediaType)> = Vec::new();
    c.push((owned("application/json"), MediaType { schema: s }));
    assert(media_view(c@) =~= seq![("application/json"@, s@)]);
    c
}

/// Finds the component schema named `k`.
fn find_component<'a>(cs: &'a Vec<(String, SchemaObject)>, k: &str) -> (r: Option<&'a SchemaObject>)
    ensures
        match comp_lookup(comps_view(cs@), k@) {
            Some(s) => r matches Some(x) && x@ == s,
            None => r is None,
        },
{
    let mut i: usize = 0;
    assert(comps_view(cs@).subrange(0, cs@.len() as int) =~= comps_view(cs@));
    while i < cs.len()
        invariant
            i <= cs@.len(),
            comp_lookup(comps_view(cs@), k@) == comp_lookup(comps_view(cs@).subrange(i as int, cs@.len() as int), k@),
        decreases cs@.len() - i,
    {
        let ghost rest = comps_view(cs@).subrange(i as int, cs@.len() as int);
        assert(rest.drop_first() =~= comps_view(cs@).subrange(i + 1, cs@.len() as int));
        assert(rest[0] == (cs@[i as int].0@, cs@[i as int].1@));
        if str_eq(cs[i].0.as_str(), k) {
            return Some(&cs[i].1);
        }
        i = i + 1;
    }
    assert(comps_view(cs@).subrange(i as int, cs@.len() as int) =~= Seq::empty());
    None
}

/// The last `/`-separated piece of `r`.
fn last_segment(r: &str) -> (out: String)
    ensures
        out@ == ref_name(r@),
{
    let parts = split_on(r, '/');
    proof {
        lemma_split_nonempty(r@, '/');
    }
    let n = parts.len();
    assert(views(parts@)[n - 1] == parts@[n - 1]@);
    owned(parts[n - 1].as_str())
}

/// The tags of an operation on `path` with declared tags `declared`.
fn operation_tags(path: &str, declared: &Vec<String>) -> (r: Vec<String>)
    ensures
        views(r@) == op_tags_spec(path@, views(declared@)),
{
    let segs = split_on(path, '/');
    let mut all: Vec<String> = Vec::new();
    if segs.len() >= 2 {
        assert(views(segs@)[1] == segs@[1]@);
        if starts_with(path, "/lol-") {
            let mut t = owned("Plugin ");
            t.append(segs[1].as_str());
            all.push(t);
        } else if starts_with(path, "/{plugin}") {
            all.push(owned("Plugin Static Assets"));
        } else {
            all.push(owned(segs[1].as_str()));
        }
    }
    assert(views(all@) =~= path_tag(path@));
    let mut i: usize = 0;
    while i < declared.len()
        invariant
            i <= declared@.len(),
            views(all@) == path_tag(path@) + views(declared@.subrange(0, i as int)),
        decreases declared@.len() - i,
    {
        let ghost o = all@;
        all.push(owned(declared[i].as_str()));
        assert(views(all@) =~= views(o).push(declared@[i as int]@));
        assert(views(declared@.subrange(0, i + 1)) =~= views(declared@.subrange(0, i as int)).push(declared@[i as int]@));
        i = i + 1;
    }
    assert(declared@.subrange(0, i as int) =~= declared@);
    let ghost src = views(all@);
    let mut out: Vec<String> = Vec::new();
    let mut j: usize = 0;
    assert(src.subrange(0, 0) =~= Seq::<Seq<char>>::empty());
    assert(views(out@) =~= Seq::<Seq<char>>::empty());
    while j < all.len()
        invariant
            j <= all@.len(),
            src == views(all@),
            views(out@) == clean_tags(src.subrange(0, j as int)),
        decreases all@.len() - j,
    {
        let t = all[j].as_str();
        assert(src[j as int] == t@);
        let ghost pre = src.subrange(0, j as int);
        assert(src.subrange(0, j + 1).drop_last() =~= pre);
        let skip = str_eq(t, "Plugins") || str_eq(t, "$remoting-binding-module") || contains_str(&out, t);
        if !skip {
            let ghost o = out@;
            out.push(owned(t));
            assert(views(out@) =~= views(o).push(t@));
        }
        j = j + 1;
    }
    assert(src.subrange(0, j as int) =~= src);
    out
}

/// The first argument whose name matches `p`, `+` markers aside.
fn find_arg(args: &Vec<Argument>, p: &String) -> (r: Option<usize>)
    ensures
        r matches Some(k) ==> arg_for(args@, p@) == Some(k as int) && k < args@.len(),
        r is None ==> arg_for(args@, p@) is None,
{
    let key = without_leading(p.as_str(), '+');
    let mut i: usize = 0;
    assert(args@.subrange(0, args@.len() as int) =~= args@);
    while i < args.len()
        invariant
            i <= args@.len(),
            key@ == strip_leading(p@, '+'),
            arg_for(args@, p@) == match arg_for(args@.subrange(i as int, args@.len() as int), p@) {
                Some(k) => Some(k + i),
                None => None::<int>,
            },
        decreases args@.len() - i,
    {
        let ghost rest = args@.subrange(i as int, args@.len() as int);
        assert(rest.drop_first() =~= args@.subrange(i + 1, args@.len() as int));
        let name = without_leading(args[i].info.name.as_str(), '+');
        if str_eq(name.as_str(), key.as_str()) {
            return Some(i);
        }
        i = i + 1;
    }
    assert(args@.subrange(i as int, args@.len() as int) =~= Seq::<Argument>::empty());
    None
}

/// Whether `v` holds `t`.
pub fn contains_str(v: &Vec<String>, t: &str) -> (r: bool)
    ensures
        r == views(v@).contains(t@),
{
    let mut i: usize = 0;
    while i < v.len()
        invariant
            i <= v@.len(),
            forall|j: int| 0 <= j < i ==> views(v@)[j] != t@,
        decreases v@.len() - i,
    {
        if str_eq(v[i].as_str(), t) {
            assert(views(v@)[i as int] == t@);
            return true;
        }
        i = i + 1;
    }
    false
}

impl Argument {
    /// This argument as a query parameter.
    pub fn as_query_param(&self) -> (r: Result<Param, ParseError>)
        ensures
            match dt_spec(self.ty) {
                Ok(s) => r matches Ok(p) && param_view(p) == query_view(*self, s),
                Err(e) => r matches Err(x) && x == e,
            },
    {
        match SchemaObject::try_from_data_type(&self.ty) {
            Ok(s) => Ok(query_param(self.info.name.as_str(), s, !self.is_optional)),
            Err(e) => Err(e),
        }
    }
}

impl Endpoint {
    /// The schema of path parameter `p`.
    fn path_param_as_path_variant(&self, p: &String) -> (r: Result<Param, ParseError>)
        ensures
            match path_param_schema(self.arguments@, p@) {
                Ok(s) => r matches Ok(x) && param_view(x) == path_view(p@, s),
                Err(e) => r matches Err(x) && x == e,
            },
    {
        let found = find_arg(&self.arguments, p);
        let schema = match found {
            Some(k) => {
                let r = SchemaObject::try_from_data_type(&self.arguments[k].ty);
                assert(arg_for(self.arguments@, p@) == Some(k as int));
                assert(path_param_schema(self.arguments@, p@) == dt_spec(self.arguments@[k as int].ty));
                r
            },
            None => {
                assert(arg_for(self.arguments@, p@) is None);
                Ok(SchemaObject::string())
            },
        };
        assert(match path_param_schema(self.arguments@, p@) {
            Ok(x) => schema matches Ok(y) && y@ == x,
            Err(e) => schema matches Err(y) && y == e,
        });
        match schema {
            Ok(s) => {
                let ghost sv = s@;
                let options = ParamOptions::of(s, true);
                assert(opt_schema(options.schema) == Some(sv));
                let out = Param::Path(
                    ParamSchema { name: owned(p.as_str()), style: ParamStyle::default_path(), options },
                );
                assert(param_view(out) == path_view(p@, sv));
                Ok(out)
            },
            Err(e) => Err(e),
        }
    }

    /// The path parameters, in order.
    fn path_params_of(&self) -> (r: Result<Vec<Param>, ParseError>)
        ensures
            match path_params_spec(self.arguments@, self.path_params@) {
                Ok(pp) => r matches Ok(v) && params_view(v@) == pp,
                Err(e) => r matches Err(x) && x == e,
            },
    {
        let mut params: Vec<Param> = Vec::new();
        let mut i: usize = 0;
        assert(params_view(params@) =~= Seq::empty());
        while i < self.path_params.len()
            invariant
                i <= self.path_params@.len(),
                path_params_spec(self.arguments@, self.path_params@.subrange(0, i as int)) == Ok::<Seq<ParamView>, ParseError>(params_view(params@)),
            decreases self.path_params@.len() - i,
        {
            let ghost pre = self.path_params@.subrange(0, i as int);
            assert(self.path_params@.subrange(0, i + 1).drop_last() =~= pre);
            match self.path_param_as_path_variant(&self.path_params[i]) {
                Ok(p) => push_param(&mut params, p),
                Err(e) => {
                    proof {
                        lemma_path_params_prefix(self.arguments@, self.path_params@, i + 1);
                    }
                    return Err(e);
                },
            }
            i = i + 1;
        }
        assert(self.path_params@.subrange(0, i as int) =~= self.path_params@);
        Ok(params)
    }

    /// Appends one query parameter for each argument from `from` on.
    #[verifier::loop_isolation(false)]
    fn push_query_params(&self, params: &mut Vec<Param>, from: usize) -> (r: Result<(), ParseError>)
        requires
            from <= self.arguments@.len(),
        ensures
            match query_params_spec(self.arguments@.subrange(from as int, self.arguments@.len() as int)) {
                Ok(q) => r is Ok && params_view(final(params)@) == params_view(old(params)@) + q,
                Err(e) => r matches Err(x) && x == e,
            },
    {
        let ghost base = params_view(params@);
        let na = self.arguments.len();
        let ghost rest = self.arguments@.subrange(from as int, na as int);
        let mut k: usize = from;
        assert(rest.subrange(0, 0) =~= Seq::<Argument>::empty());
        assert(params_view(params@) =~= base + Seq::empty());
        while k < na
            invariant
                from <= k <= na,
                query_params_spec(rest.subrange(0, k - from)) matches Ok(q) && params_view(params@) == base + q,
            decreases na - k,
        {
            let ghost pre = rest.subrange(0, k - from);
            assert(rest.subrange(0, k + 1 - from).drop_last() =~= pre);
            assert(rest[k - from] == self.arguments@[k as int]);
            match self.arguments[k].as_query_param() {
                Ok(p) => {
                    push_param(params, p);
                    assert(query_params_spec(rest.subrange(0, k + 1 - from)) matches Ok(q) && params_view(params@) =~= base + q);
                },
                Err(e) => {
                    proof {
                        lemma_query_params_prefix(rest, k + 1 - from);
                    }
                    return Err(e);
                },
            }
            k = k + 1;
        }
        assert(rest.subrange(0, na - from) =~= rest);
        Ok(())
    }

    /// Appends the query parameters of a sole argument under a query verb.
    #[verifier::loop_isolation(false)]
    fn push_sole_query(arg: &Argument, spec: &OpenApiSpec, params: &mut Vec<Param>) -> (r: Result<(), ParseError>)
        ensures
            match sole_query_spec(*arg, comps_view(spec.components.schemas@)) {
                Ok(q) => r is Ok && params_view(final(params)@) == params_view(old(params)@) + q,
                Err(e) => r matches Err(x) && x == e,
            },
    {
        let schema = match SchemaObject::try_from_data_type(&arg.ty) {
            Ok(s) => s,
            Err(e) => {
                return Err(e);
            },
        };
        let target: &SchemaObject = match &schema.ty {
            TypedSchema::Ref(rs) => {
                let name = last_segment(rs.ref_.as_str());
                match find_component(&spec.components.schemas, name.as_str()) {
                    Some(t) => t,
                    None => {
                        return Err(ParseError::InvalidData);
                    },
                }
            },
            _ => &schema,
        };
        let ghost base = params_view(params@);
        match &target.ty {
            TypedSchema::Object(obj) => {
                let ghost props = view_props(obj.properties@);
                proof {
                    lemma_view_props(obj.properties@);
                }
                let mut j: usize = 0;
                assert(params_view(params@) =~= base + flatten_spec(props.subrange(0, 0), !arg.is_optional));
                while j < obj.properties.len()
                    invariant
                        j <= obj.properties@.len(),
                        params_view(params@) == base + flatten_spec(props.subrange(0, j as int), !arg.is_optional),
                    decreases obj.properties@.len() - j,
                {
                    let s = copy_schema(&obj.properties[j].1);
                    let p = query_param(obj.properties[j].0.as_str(), s, !arg.is_optional);
                    push_param(params, p);
                    assert(props[j as int] == (obj.properties@[j as int].0@, view_schema(*obj.properties@[j as int].1)));
                    assert(flatten_spec(props.subrange(0, j + 1), !arg.is_optional) =~= flatten_spec(props.subrange(0, j as int), !arg.is_optional).push(param_view(p)));
                    assert(params_view(params@) =~= base + flatten_spec(props.subrange(0, j + 1), !arg.is_optional));
                    j = j + 1;
                }
                assert(props.subrange(0, j as int) =~= props);
                Ok(())
            },
            _ => {
                match arg.as_query_param() {
                    Ok(p) => {
                        push_param(params, p);
                        assert(params_view(params@) =~= base + seq![param_view(p)]);
                        Ok(())
                    },
                    Err(e) => Err(e),
                }
            },
        }
    }

    /// The parameters and request body of the operation.
    fn params_of(&self, spec: &OpenApiSpec) -> (r: Result<(Vec<Param>, Option<RequestBody>), ParseError>)
        ensures
            match params_spec(*self, comps_view(spec.components.schemas@)) {
                Ok((ps, body)) => r matches Ok((v, rb)) && params_view(v@) == ps && match body {
                    None => rb is None,
                    Some(b) => rb matches Some(x) && json_content(x.content@, b),
                },
                Err(e) => r matches Err(x) && x == e,
            },
    {
        let mut params = match self.path_params_of() {
            Ok(v) => v,
            Err(e) => {
                return Err(e);
            },
        };
        let pp = self.path_params.len();
        let na = self.arguments.len();
        let rest_len: usize = if pp <= na {
            na - pp
        } else {
            0
        };
        let ghost rest = rest_args(*self);
        assert(rest.len() == rest_len);
        if rest_len > 1 {
            match self.push_query_params(&mut params, pp) {
                Ok(()) => Ok((params, None)),
                Err(e) => Err(e),
            }
        } else if rest_len == 1 {
            let arg = &self.arguments[pp];
            assert(rest[0] == *arg);
            let query = match self.method {
                Some(HttpMethod::Get) => true,
                Some(HttpMethod::Delete) => true,
                Some(HttpMethod::Head) => true,
                Some(HttpMethod::Options) => true,
                Some(HttpMethod::Trace) => true,
                None => true,
                _ => false,
            };
            if query {
                match Endpoint::push_sole_query(arg, spec, &mut params) {
                    Ok(()) => Ok((params, None)),
                    Err(e) => Err(e),
                }
            } else {
                match SchemaObject::try_from_data_type(&arg.ty) {
                    Ok(s) => Ok((params, Some(RequestBody { description: None, content: json_media(s), is_required: false }))),
                    Err(e) => Err(e),
                }
            }
        } else {
            assert(params_view(params@) + Seq::<ParamView>::empty() =~= params_view(params@));
            Ok((params, None))
        }
    }

    /// The OpenAPI operation for this endpoint. `spec` supplies the component
    /// schemas that a sole query argument may refer to.
    pub fn operation(&self, spec: &OpenApiSpec) -> (r: Result<Operation, ParseError>)
        ensures
            operation_result(*self, comps_view(spec.components.schemas@), r),
    {
        let (params, request_body) = match self.params_of(spec) {
            Ok(x) => x,
            Err(e) => {
                return Err(e);
            },
        };
        let response = match SchemaObject::try_from_data_type(&self.return_ty) {
            Ok(s) => Response { content: json_media(s), description: None },
            Err(ParseError::ObjectTypesShouldBeParsed) => {
                return Err(ParseError::ObjectTypesShouldBeParsed);
            },
            Err(ParseError::VectorTypesShouldBeParsed) => {
                return Err(ParseError::VectorTypesShouldBeParsed);
            },
            Err(_) => Response { content: Vec::new(), description: Some(owned("Success response")) },
        };
        let path = match &self.path {
            Some(p) => p,
            None => {
                return Err(ParseError::EndpointPathCannotBeNone);
            },
        };
        let tags = operation_tags(path.as_str(), &self.tags);
        let mut responses: Vec<(String, Response)> = Vec::new();
        responses.push((owned("2XX"), response));
        Ok(
            Operation {
                operation_id: Some(owned(self.info.name.as_str())),
                summary: None,
                description: Some(owned(self.info.description.as_str())),
                tags,
                parameters: params,
                request_body,
                responses,
                is_deprecated: false,
                servers: Vec::new(),
                external_docs: None,
            },
        )
    }
}

proof fn lemma_path_params_prefix(args: Seq<Argument>, ps: Seq<String>, i: int)
    requires
        0 <= i <= ps.len(),
        path_params_spec(args, ps.subrange(0, i)) is Err,
    ensures
        path_params_spec(args, ps) == path_params_spec(args, ps.subrange(0, i)),
    decreases ps.len() - i,
{
    if i < ps.len() {
        assert(ps.subrange(0, i + 1).drop_last() =~= ps.subrange(0, i));
        lemma_path_params_prefix(args, ps, i + 1);
    } else {
        assert(ps.subrange(0, i) =~= ps);
    }
}

proof fn lemma_query_params_prefix(args: Seq<Argument>, i: int)
    requires
        0 <= i <= args.len(),
        query_params_spec(args.subrange(0, i)) is Err,
    ensures
        query_params_spec(args) == query_params_spec(args.subrange(0, i)),
    decreases args.len() - i,
{
    if i < args.len() {
        assert(args.subrange(0, i + 1).drop_last() =~= args.subrange(0, i));
        lemma_query_params_prefix(args, i + 1);
    } else {
        assert(args.subrange(0, i) =~= args);
    }
}

} // verus!
