//! Reading a string schema's enumeration from its wire form, where the
//! values and their descriptions are two parallel arrays.
use vstd::prelude::*;
use crate::error::ParseError;
use crate::json::{Json, Tree, lookup, view_items, lemma_view_items};
use crate::openapi::{
    EnumKey, EnumVariant, Key, Param, ParamOptions, ParamSchema, ParamStyle, StringSchema, Variant,
    variants_view,
};
use crate::text::{lower_of, lowercase, str_eq};
use crate::text::owned;

verus! {

/// The variant that one enumeration value stands for, its text as its name.
pub open spec fn wire_variant(t: Tree) -> Option<Variant> {
    match t {
        Tree::Null => Some(Variant { name: None, key: Key::Null, description: None }),
        Tree::Bool(b) => Some(
            Variant { name: Some(if b { "true"@ } else { "false"@ }), key: Key::Bool(b), description: None },
        ),
        Tree::Number(n) => Some(Variant { name: Some(n), key: Key::Num(n), description: None }),
        Tree::Str(s) => Some(Variant { name: Some(s), key: Key::Str(s), description: None }),
        _ => None,
    }
}

pub open spec fn wire_variants(ts: Seq<Tree>) -> Option<Seq<Variant>>
    decreases ts.len(),
{
    if ts.len() == 0 {
        Some(Seq::empty())
    } else {
        match (wire_variants(ts.drop_last()), wire_variant(ts.last())) {
            (Some(r), Some(v)) => Some(r.push(v)),
            _ => None,
        }
    }
}

pub open spec fn all_strings(ts: Seq<Tree>) -> bool {
    forall|i: int| 0 <= i < ts.len() ==> (#[trigger] ts[i]) is Str
}

/// `vs` with the `i`-th description set from `ds`, for every `i` both have.
pub open spec fn with_descriptions(vs: Seq<Variant>, ds: Seq<Tree>) -> Seq<Variant> {
    Seq::new(
        vs.len(),
        |i: int|
            if i < ds.len() {
                Variant { name: vs[i].name, key: vs[i].key, description: Some(ds[i]->Str_0) }
            } else {
                vs[i]
            },
    )
}

pub open spec fn array_or_empty(t: Option<Tree>) -> Option<Seq<Tree>> {
    match t {
        None => Some(Seq::empty()),
        Some(Tree::Array(xs)) => Some(xs),
        Some(_) => None,
    }
}

/// The variants of a string schema's wire form, if it is well formed.
pub open spec fn string_schema_spec(t: Tree) -> Option<Seq<Variant>> {
    match t {
        Tree::Object(es) => match (array_or_empty(lookup(es, "enum"@)), array_or_empty(lookup(es, "x-enum-description"@))) {
            (Some(vals), Some(ds)) => if all_strings(ds) {
                match wire_variants(vals) {
                    Some(vs) => Some(with_descriptions(vs, ds)),
                    None => None,
                }
            } else {
                None
            },
            _ => None,
        },
        _ => None,
    }
}

fn array_field<'a>(j: &'a Json, key: &str) -> (r: Result<Option<&'a Vec<Json>>, ParseError>)
    ensures
        match j@ {
            Tree::Object(es) => match array_or_empty(lookup(es, key@)) {
                Some(xs) => r matches Ok(o) && match o {
                    Some(v) => view_items(v@) == xs,
                    None => xs.len() == 0,
                },
                None => r is Err,
            },
            _ => true,
        },
{
    match j.get(key) {
        None => Ok(None),
        Some(Json::Array(v)) => Ok(Some(v)),
        Some(_) => Err(ParseError::MissingField),
    }
}

impl StringSchema {
    /// Reads `enum` and `x-enum-description` (both optional) of a string
    /// schema's wire form, keeping the order of the values.
    #[verifier::loop_isolation(false)]
    pub fn from_json(j: &Json) -> (r: Result<StringSchema, ParseError>)
        ensures
            match string_schema_spec(j@) {
                Some(vs) => r matches Ok(s) && variants_view(s.0@) == vs,
                None => r is Err,
            },
    {
        if !(j matches Json::Object(_)) {
            return Err(ParseError::MissingField);
        }
        proof {
            reveal_strlit("enum");
            reveal_strlit("x-enum-description");
        }
        let vals = match array_field(j, "enum") {
            Ok(v) => v,
            Err(e) => {
                return Err(e);
            },
        };
        let descs = match array_field(j, "x-enum-description") {
            Ok(v) => v,
            Err(e) => {
                return Err(e);
            },
        };
        let empty: Vec<Json> = Vec::new();
        assert(view_items(empty@) =~= Seq::<Tree>::empty());
        let vals: &Vec<Json> = match vals {
            Some(v) => v,
            None => &empty,
        };
        let descs: &Vec<Json> = match descs {
            Some(v) => v,
            None => &empty,
        };
        proof {
            lemma_view_items(vals@);
            lemma_view_items(descs@);
        }
        let ghost vt = view_items(vals@);
        let ghost dt = view_items(descs@);
        assert(string_schema_spec(j@) == if all_strings(dt) {
            match wire_variants(vt) {
                Some(vs) => Some(with_descriptions(vs, dt)),
                None => None,
            }
        } else {
            None::<Seq<Variant>>
        });
        let mut k: usize = 0;
        while k < descs.len()
            invariant
                k <= descs@.len(),
                dt == view_items(descs@),
                dt.len() == descs@.len(),
                forall|m: int| 0 <= m < descs@.len() ==> #[trigger] dt[m] == descs@[m]@,
                forall|m: int| 0 <= m < k ==> (#[trigger] dt[m]) is Str,
            decreases descs@.len() - k,
        {
            if !(descs[k] matches Json::String(_)) {
                assert(!(dt[k as int] is Str));
                return Err(ParseError::MissingField);
            }
            k = k + 1;
        }
        let mut out: Vec<EnumVariant> = Vec::new();
        let mut i: usize = 0;
        assert(variants_view(out@) =~= Seq::<Variant>::empty());
        while i < vals.len()
            invariant
                i <= vals@.len(),
                vt == view_items(vals@),
                vt.len() == vals@.len(),
                forall|m: int| 0 <= m < vals@.len() ==> #[trigger] vt[m] == vals@[m]@,
                all_strings(dt),
                dt.len() == descs@.len(),
                forall|m: int| 0 <= m < descs@.len() ==> #[trigger] dt[m] == descs@[m]@,
                out@.len() == i,
                wire_variants(vt.subrange(0, i as int)) matches Some(vs) && variants_view(out@)
                    == with_descriptions(vs, dt),
            decreases vals@.len() - i,
        {
            let ghost pre = vt.subrange(0, i as int);
            assert(vt.subrange(0, i + 1).drop_last() =~= pre);
            assert(vt.subrange(0, i + 1).last() == vals@[i as int]@);
            let (name, key) = match &vals[i] {
                Json::Null => (None, EnumKey::Null),
                Json::Bool(b) => (Some(if *b { owned("true") } else { owned("false") }), EnumKey::Bool(*b)),
                Json::Number(n) => (Some(owned(n.as_str())), EnumKey::Number(owned(n.as_str()))),
                Json::String(s) => (Some(owned(s.as_str())), EnumKey::String(owned(s.as_str()))),
                _ => {
                    proof {
                        lemma_wire_prefix_none(vt, i + 1);
                    }
                    return Err(ParseError::UnsupportedEnumValue);
                },
            };
            let description = if i < descs.len() {
                match &descs[i] {
                    Json::String(d) => Some(owned(d.as_str())),
                    _ => None,
                }
            } else {
                None
            };
            let ghost o = out@;
            out.push(EnumVariant { name, key, description });
            proof {
                assert(variants_view(out@) =~= variants_view(o).push(out@.last()@));
                lemma_wire_len(pre);
                lemma_wire_len(vt.subrange(0, i + 1));
                let vs0 = wire_variants(pre)->0;
                let vs1 = wire_variants(vt.subrange(0, i + 1))->0;
                assert(vs1 == vs0.push(wire_variant(vals@[i as int]@)->0));
                if i < dt.len() {
                    assert(dt[i as int] is Str);
                }
                let w0 = with_descriptions(vs0, dt);
                let w1 = with_descriptions(vs1, dt);
                assert(variants_view(o) == w0);
                assert forall|m: int| 0 <= m < i + 1 implies variants_view(out@)[m] == w1[m] by {
                    if m < i {
                        assert(vs1[m] == vs0[m]);
                        assert(variants_view(out@)[m] == variants_view(o)[m]);
                        assert(w0[m] == w1[m]);
                    } else {
                        assert(variants_view(out@)[m] == out@[m]@);
                        assert(vs1[m] == wire_variant(vals@[i as int]@)->0);
                        if i < dt.len() {
                            assert(dt[i as int] == descs@[i as int]@);
                        }
                    }
                }
                assert(variants_view(out@) =~= w1);
            }
            i = i + 1;
        }
        assert(vt.subrange(0, i as int) =~= vt);
        Ok(StringSchema(out))
    }
}

proof fn lemma_wire_len(ts: Seq<Tree>)
    ensures
        wire_variants(ts) matches Some(vs) ==> vs.len() == ts.len(),
    decreases ts.len(),
{
    if ts.len() > 0 {
        lemma_wire_len(ts.drop_last());
    }
}

proof fn lemma_wire_prefix_none(ts: Seq<Tree>, i: int)
    requires
        0 <= i <= ts.len(),
        wire_variants(ts.subrange(0, i)) is None,
    ensures
        wire_variants(ts) is None,
    decreases ts.len() - i,
{
    if i < ts.len() {
        assert(ts.subrange(0, i + 1).drop_last() =~= ts.subrange(0, i));
        lemma_wire_prefix_none(ts, i + 1);
    } else {
        assert(ts.subrange(0, i) =~= ts);
    }
}

/// The wire value of a variant: its display name when it has one, else its key.
pub open spec fn variant_wire(v: Variant) -> Tree {
    match v.name {
        Some(n) => Tree::Str(n),
        None => match v.key {
            Key::Null => Tree::Null,
            Key::Str(s) => Tree::Str(s),
            Key::Num(n) => Tree::Number(n),
            Key::Bool(b) => Tree::Bool(b),
        },
    }
}

impl EnumVariant {
    /// What this variant is written as in an `enum` list.
    pub fn wire_value(&self) -> (r: Json)
        ensures
            r@ == variant_wire(self@),
    {
        match &self.name {
            Some(n) => Json::String(owned(n.as_str())),
            None => match &self.key {
                EnumKey::Null => Json::Null,
                EnumKey::String(s) => Json::String(owned(s.as_str())),
                EnumKey::Number(n) => Json::Number(owned(n.as_str())),
                EnumKey::Bool(b) => Json::Bool(*b),
            },
        }
    }
}

/// Where a parameter appears, from the lower case of its `in` field.
pub open spec fn param_place(in_: Seq<char>) -> Option<int> {
    let l = lower_of(in_);
    if l == "query"@ {
        Some(0)
    } else if l == "header"@ {
        Some(1)
    } else if l == "path"@ {
        Some(2)
    } else if l == "cookie"@ {
        Some(3)
    } else {
        None
    }
}

/// The default style of each place: form for query and cookie, simple for
/// header and path.
pub open spec fn default_style(place: int) -> ParamStyle {
    if place == 0 || place == 3 {
        ParamStyle::Form
    } else {
        ParamStyle::Simple
    }
}

impl Param {
    /// A parameter from its wire parts: `in_` (any case) picks the variant,
    /// a missing style takes the default of that place.
    pub fn from_wire(name: String, in_: &str, style: Option<ParamStyle>, options: ParamOptions, allow_reserved: bool) -> (r: Result<Param, ParseError>)
        ensures
            match param_place(in_@) {
                None => r is Err,
                Some(place) => r matches Ok(p) && {
                    let s = match style {
                        Some(s) => s,
                        None => default_style(place),
                    };
                    match p {
                        Param::Query { param, allow_reserved: a } => place == 0 && param.style == s && param.name@ == name@ && a == allow_reserved,
                        Param::Header(ps) => place == 1 && ps.style == s && ps.name@ == name@,
                        Param::Path(ps) => place == 2 && ps.style == s && ps.name@ == name@,
                        Param::Cookie(ps) => place == 3 && ps.style == s && ps.name@ == name@,
                        Param::Ref(_) => false,
                    }
                },
            },
    {
        let l = lowercase(in_);
        let ls = l.as_str();
        if str_eq(ls, "query") {
            let style = match style {
                Some(s) => s,
                None => ParamStyle::default_query(),
            };
            Ok(Param::Query { param: ParamSchema { name, style, options }, allow_reserved })
        } else if str_eq(ls, "header") {
            let style = match style {
                Some(s) => s,
                None => ParamStyle::default_header(),
            };
            Ok(Param::Header(ParamSchema { name, style, options }))
        } else if str_eq(ls, "path") {
            let style = match style {
                Some(s) => s,
                None => ParamStyle::default_path(),
            };
            Ok(Param::Path(ParamSchema { name, style, options }))
        } else if str_eq(ls, "cookie") {
            let style = match style {
                Some(s) => s,
                None => ParamStyle::default_cookie(),
            };
            Ok(Param::Cookie(ParamSchema { name, style, options }))
        } else {
            Err(ParseError::MissingField)
        }
    }
}

} // verus!
