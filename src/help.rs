//! The introspected ("help") description of types, events and endpoints.
use vstd::prelude::*;
use crate::error::ParseError;
use crate::json::{Json, Tree, lemma_view_items};
use crate::text::{is_prefix, owned, push_char, starts_with, str_eq};

verus! {

/// The full introspection snapshot: every type, endpoint and event.
#[derive(Debug)]
pub struct ExtendedHelp {
    pub types: Vec<Type>,
    pub endpoints: Vec<Endpoint>,
    pub events: Vec<Event>,
}

/// The top-level listing of names.
#[derive(Debug)]
pub struct Help {
    pub events: StringMap,
    pub functions: StringMap,
    pub types: StringMap,
}

#[derive(Debug, Clone)]
pub struct Info {
    pub name: String,
    pub description: String,
}

#[derive(Debug)]
pub struct Event {
    pub info: Info,
    pub namespace: String,
    pub tags: Vec<String>,
    pub ty: DataType,
}

/// One introspected endpoint.
#[derive(Debug)]
pub struct Endpoint {
    pub info: Info,
    pub namespace: String,
    pub help: String,
    pub arguments: Vec<Argument>,
    pub tags: Vec<String>,
    pub method: Option<HttpMethod>,
    pub path: Option<String>,
    pub path_params: Vec<String>,
    pub return_ty: DataType,
    pub is_async: bool,
    pub is_thread_safe: bool,
    pub is_override: bool,
    pub is_silent_override: bool,
}

/// One argument of an endpoint.
#[derive(Debug)]
pub struct Argument {
    pub info: Info,
    pub is_optional: bool,
    pub ty: DataType,
}

/// One introspected type: an object (`fields`) or an enumeration (`values`).
#[derive(Debug)]
pub struct Type {
    pub values: Vec<Value>,
    pub fields: Vec<Field>,
    pub info: Info,
    pub namespace: String,
    pub size: usize,
    pub tags: Vec<String>,
}

/// One value of an enumeration type.
#[derive(Debug)]
pub struct Value {
    pub name: String,
    pub description: String,
    pub value: Json,
}

/// One field of an object type.
#[derive(Debug)]
pub struct Field {
    pub info: Info,
    pub offset: usize,
    pub is_optional: bool,
    pub ty: DataType,
}

/// A declared type: a type name, and for collections the element type name.
#[derive(Debug, Clone)]
pub struct DataType {
    pub element_type: String,
    pub ty: String,
}

/// HTTP verbs.
#[derive(Debug, Clone, Copy, PartialEq, Eq, Structural)]
pub enum HttpMethod {
    Get,
    Post,
    Put,
    Patch,
    Delete,
    Head,
    Options,
    Trace,
}

/// A listing of names; a name listed with an empty description is kept
/// apart from one with a description.
#[derive(Debug)]
pub struct StringMap {
    /// Names with a non-empty description.
    pub values: Vec<(String, String)>,
    /// Names listed with an empty description.
    pub empty: Vec<String>,
}

/// The first element of a one-element listing.
#[derive(Debug)]
pub struct SeqFirst<T>(pub T);

impl DataType {
    /// The plain string type.
    pub fn string() -> (r: DataType)
        ensures
            r.ty@ == "string"@,
            r.element_type@.len() == 0,
    {
        DataType { ty: owned("string"), element_type: String::new() }
    }

    /// Whether the type is `object` with no element type.
    pub fn is_generic_object(&self) -> (r: bool)
        ensures
            r == (self.ty@ == "object"@ && self.element_type@.len() == 0),
    {
        str_eq(self.ty.as_str(), "object") && self.element_type.unicode_len() == 0
    }
}

/// The verb whose name starts an endpoint's name (`GetLolSummoner...`).
pub open spec fn method_of_name(name: Seq<char>) -> Option<HttpMethod> {
    if is_prefix("Get"@, name) {
        Some(HttpMethod::Get)
    } else if is_prefix("Post"@, name) {
        Some(HttpMethod::Post)
    } else if is_prefix("Put"@, name) {
        Some(HttpMethod::Put)
    } else if is_prefix("Patch"@, name) {
        Some(HttpMethod::Patch)
    } else if is_prefix("Delete"@, name) {
        Some(HttpMethod::Delete)
    } else if is_prefix("Head"@, name) {
        Some(HttpMethod::Head)
    } else if is_prefix("Options"@, name) {
        Some(HttpMethod::Options)
    } else if is_prefix("Trace"@, name) {
        Some(HttpMethod::Trace)
    } else {
        None
    }
}

/// ASCII upper case of one character.
pub open spec fn upper_char(c: char) -> char {
    if 'a' <= c && c <= 'z' {
        ((c as u32) - 32) as char
    } else {
        c
    }
}

/// The verb spelled by `s`, in any ASCII case.
pub open spec fn method_of_verb(s: Seq<char>) -> Option<HttpMethod> {
    let u = s.map_values(|c: char| upper_char(c));
    if u == "GET"@ {
        Some(HttpMethod::Get)
    } else if u == "POST"@ {
        Some(HttpMethod::Post)
    } else if u == "PUT"@ {
        Some(HttpMethod::Put)
    } else if u == "PATCH"@ {
        Some(HttpMethod::Patch)
    } else if u == "DELETE"@ {
        Some(HttpMethod::Delete)
    } else if u == "HEAD"@ {
        Some(HttpMethod::Head)
    } else if u == "OPTIONS"@ {
        Some(HttpMethod::Options)
    } else if u == "TRACE"@ {
        Some(HttpMethod::Trace)
    } else {
        None
    }
}

/// `s` in ASCII upper case (`str::to_ascii_uppercase`).
pub fn ascii_upper(s: &str) -> (r: String)
    ensures
        r@ == s@.map_values(|c: char| upper_char(c)),
{
    let n = s.unicode_len();
    let mut out = String::new();
    let mut i: usize = 0;
    while i < n
        invariant
            n == s@.len(),
            i <= n,
            out@ == s@.subrange(0, i as int).map_values(|c: char| upper_char(c)),
        decreases n - i,
    {
        let c = s.get_char(i);
        let u = if 'a' <= c && c <= 'z' {
            let code = (c as u32) - 32;
            assert(0x41 <= code <= 0x5A);
            code as u8 as char
        } else {
            c
        };
        assert(u == upper_char(c));
        push_char(&mut out, u);
        assert(s@.subrange(0, i + 1).map_values(|c: char| upper_char(c)) =~= s@.subrange(
            0,
            i as int,
        ).map_values(|c: char| upper_char(c)).push(upper_char(c)));
        i = i + 1;
    }
    assert(s@.subrange(0, n as int) =~= s@);
    out
}

impl HttpMethod {
    /// Whether this is GET.
    pub fn is_get(&self) -> (r: bool)
        ensures
            r == (*self == HttpMethod::Get),
    {
        match self {
            HttpMethod::Get => true,
            _ => false,
        }
    }

    /// The verb that an endpoint's name starts with.
    pub fn from_str(name: &str) -> (r: Result<HttpMethod, ParseError>)
        ensures
            match method_of_name(name@) {
                Some(m) => r == Ok::<HttpMethod, ParseError>(m),
                None => r == Err::<HttpMethod, ParseError>(ParseError::UnknownHttpMethod),
            },
    {
        if starts_with(name, "Get") {
            Ok(HttpMethod::Get)
        } else if starts_with(name, "Post") {
            Ok(HttpMethod::Post)
        } else if starts_with(name, "Put") {
            Ok(HttpMethod::Put)
        } else if starts_with(name, "Patch") {
            Ok(HttpMethod::Patch)
        } else if starts_with(name, "Delete") {
            Ok(HttpMethod::Delete)
        } else if starts_with(name, "Head") {
            Ok(HttpMethod::Head)
        } else if starts_with(name, "Options") {
            Ok(HttpMethod::Options)
        } else if starts_with(name, "Trace") {
            Ok(HttpMethod::Trace)
        } else {
            Err(ParseError::UnknownHttpMethod)
        }
    }

    /// The verb of a wire value: null is GET, a string names a verb in any
    /// ASCII case; anything else is an error.
    pub fn from_verb(v: &Json) -> (r: Result<HttpMethod, ParseError>)
        ensures
            match v@ {
                crate::json::Tree::Null => r == Ok::<HttpMethod, ParseError>(HttpMethod::Get),
                crate::json::Tree::Str(s) => match method_of_verb(s) {
                    Some(m) => r == Ok::<HttpMethod, ParseError>(m),
                    None => r == Err::<HttpMethod, ParseError>(ParseError::UnknownHttpMethod),
                },
                _ => r == Err::<HttpMethod, ParseError>(ParseError::MissingField),
            },
    {
        match v {
            Json::Null => Ok(HttpMethod::Get),
            Json::String(s) => {
                let u = ascii_upper(s.as_str());
                if str_eq(u.as_str(), "GET") {
                    Ok(HttpMethod::Get)
                } else if str_eq(u.as_str(), "POST") {
                    Ok(HttpMethod::Post)
                } else if str_eq(u.as_str(), "PUT") {
                    Ok(HttpMethod::Put)
                } else if str_eq(u.as_str(), "PATCH") {
                    Ok(HttpMethod::Patch)
                } else if str_eq(u.as_str(), "DELETE") {
                    Ok(HttpMethod::Delete)
                } else if str_eq(u.as_str(), "HEAD") {
                    Ok(HttpMethod::Head)
                } else if str_eq(u.as_str(), "OPTIONS") {
                    Ok(HttpMethod::Options)
                } else if str_eq(u.as_str(), "TRACE") {
                    Ok(HttpMethod::Trace)
                } else {
                    Err(ParseError::UnknownHttpMethod)
                }
            },
            _ => Err(ParseError::MissingField),
        }
    }
}

impl StringMap {
    /// The description of `key`; `None` when it is absent or listed empty.
    pub fn get(&self, key: &str) -> (r: Option<&String>)
        ensures
            r matches Some(v) ==> exists|i: int|
                0 <= i < self.values@.len() && self.values@[i].0@ == key@ && self.values@[i].1
                    == *v,
            r matches Some(_) ==> forall|i: int|
                0 <= i < self.empty@.len() ==> self.empty@[i]@ != key@,
            r is None ==> (exists|i: int| 0 <= i < self.empty@.len() && self.empty@[i]@ == key@)
                || forall|i: int| 0 <= i < self.values@.len() ==> self.values@[i].0@ != key@,
    {
        if self.contains_empty(key) {
            return None;
        }
        let mut i: usize = 0;
        while i < self.values.len()
            invariant
                i <= self.values@.len(),
                forall|j: int| 0 <= j < i ==> self.values@[j].0@ != key@,
                forall|j: int| 0 <= j < self.empty@.len() ==> self.empty@[j]@ != key@,
            decreases self.values@.len() - i,
        {
            if str_eq(self.values[i].0.as_str(), key) {
                return Some(&self.values[i].1);
            }
            i = i + 1;
        }
        None
    }

    fn contains_empty(&self, key: &str) -> (r: bool)
        ensures
            r == exists|i: int| 0 <= i < self.empty@.len() && self.empty@[i]@ == key@,
    {
        let mut i: usize = 0;
        while i < self.empty.len()
            invariant
                i <= self.empty@.len(),
                forall|j: int| 0 <= j < i ==> self.empty@[j]@ != key@,
            decreases self.empty@.len() - i,
        {
            if str_eq(self.empty[i].as_str(), key) {
                return true;
            }
            i = i + 1;
        }
        false
    }

    /// Whether `key` is listed, with or without a description.
    pub fn contains_key(&self, key: &str) -> (r: bool)
        ensures
            r == ((exists|i: int| 0 <= i < self.empty@.len() && self.empty@[i]@ == key@) || (exists|i: int|
                0 <= i < self.values@.len() && self.values@[i].0@ == key@)),
    {
        if self.contains_empty(key) {
            return true;
        }
        let mut i: usize = 0;
        while i < self.values.len()
            invariant
                i <= self.values@.len(),
                forall|j: int| 0 <= j < i ==> self.values@[j].0@ != key@,
            decreases self.values@.len() - i,
        {
            if str_eq(self.values[i].0.as_str(), key) {
                return true;
            }
            i = i + 1;
        }
        false
    }

    /// Every listed name: those with a description, then those without.
    pub fn keys(&self) -> (r: Vec<String>)
        ensures
            r@.len() == self.values@.len() + self.empty@.len(),
            forall|i: int| 0 <= i < self.values@.len() ==> r@[i]@ == self.values@[i].0@,
            forall|i: int| 0 <= i < self.empty@.len() ==> r@[self.values@.len() + i]@ == self.empty@[i]@,
    {
        let mut out: Vec<String> = Vec::new();
        let mut i: usize = 0;
        while i < self.values.len()
            invariant
                i <= self.values@.len(),
                out@.len() == i,
                forall|j: int| 0 <= j < i ==> out@[j]@ == self.values@[j].0@,
            decreases self.values@.len() - i,
        {
            out.push(owned(self.values[i].0.as_str()));
            i = i + 1;
        }
        let mut k: usize = 0;
        while k < self.empty.len()
            invariant
                k <= self.empty@.len(),
                out@.len() == self.values@.len() + k,
                forall|j: int| 0 <= j < self.values@.len() ==> out@[j]@ == self.values@[j].0@,
                forall|j: int| 0 <= j < k ==> out@[self.values@.len() + j]@ == self.empty@[j]@,
            decreases self.empty@.len() - k,
        {
            out.push(owned(self.empty[k].as_str()));
            k = k + 1;
        }
        out
    }
}

/// The entries with a non-empty description, in order.
pub open spec fn described(s: Seq<(String, String)>) -> Seq<(Seq<char>, Seq<char>)>
    decreases s.len(),
{
    if s.len() == 0 {
        Seq::empty()
    } else if s.last().1@.len() > 0 {
        described(s.drop_last()).push((s.last().0@, s.last().1@))
    } else {
        described(s.drop_last())
    }
}

/// The names listed with an empty description, in order.
pub open spec fn undescribed(s: Seq<(String, String)>) -> Seq<Seq<char>>
    decreases s.len(),
{
    if s.len() == 0 {
        Seq::empty()
    } else if s.last().1@.len() > 0 {
        undescribed(s.drop_last())
    } else {
        undescribed(s.drop_last()).push(s.last().0@)
    }
}

pub open spec fn pair_views(s: Seq<(String, String)>) -> Seq<(Seq<char>, Seq<char>)> {
    s.map_values(|e: (String, String)| (e.0@, e.1@))
}

impl StringMap {
    /// A listing from its entries in order: a name with an empty description
    /// goes to `empty`, the others to `values`.
    pub fn from_entries(entries: &Vec<(String, String)>) -> (r: StringMap)
        ensures
            pair_views(r.values@) == described(entries@),
            crate::text::views(r.empty@) == undescribed(entries@),
    {
        let mut values: Vec<(String, String)> = Vec::new();
        let mut empty: Vec<String> = Vec::new();
        let mut i: usize = 0;
        assert(pair_views(values@) =~= Seq::empty());
        assert(crate::text::views(empty@) =~= Seq::empty());
        while i < entries.len()
            invariant
                i <= entries@.len(),
                pair_views(values@) == described(entries@.subrange(0, i as int)),
                crate::text::views(empty@) == undescribed(entries@.subrange(0, i as int)),
            decreases entries@.len() - i,
        {
            let ghost pre = entries@.subrange(0, i as int);
            assert(entries@.subrange(0, i + 1).drop_last() =~= pre);
            let k = owned(entries[i].0.as_str());
            let ghost ov = values@;
            let ghost oe = empty@;
            if entries[i].1.unicode_len() == 0 {
                empty.push(k);
                assert(crate::text::views(empty@) =~= crate::text::views(oe).push(entries@[i as int].0@));
            } else {
                values.push((k, owned(entries[i].1.as_str())));
                assert(pair_views(values@) =~= pair_views(ov).push((entries@[i as int].0@, entries@[i as int].1@)));
            }
            i = i + 1;
        }
        assert(entries@.subrange(0, i as int) =~= entries@);
        StringMap { values, empty }
    }
}

/// The first element of a listing that the client answers as an array.
pub fn seq_first(j: &Json) -> (r: Result<&Json, ParseError>)
    ensures
        match j@ {
            Tree::Array(xs) => if xs.len() > 0 {
                r matches Ok(x) && x@ == xs[0]
            } else {
                r is Err
            },
            _ => r is Err,
        },
{
    match j {
        Json::Array(v) => {
            proof {
                lemma_view_items(v@);
            }
            if v.len() > 0 {
                Ok(&v[0])
            } else {
                Err(ParseError::MissingField)
            }
        },
        _ => Err(ParseError::MissingField),
    }
}

} // verus!
