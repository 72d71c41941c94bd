//! Lenient readings of wire values: optional strings, console URLs and
//! booleans written in many ways.
use vstd::prelude::*;
use crate::error::ParseError;
use crate::json::{Json, Tree};
use crate::text::{
    all_digits, lower_of, lowercase, owned, parse_usize, parse_usize_spec, push_char, str_eq,
    trimmed, trimmed_of,
};

verus! {

/// What an optional string field reads as: absent, null, empty and `"null"`
/// are `None`.
pub open spec fn option_string_spec(v: Option<Tree>) -> Option<Option<Seq<char>>> {
    match v {
        None => Some(None),
        Some(Tree::Null) => Some(None),
        Some(Tree::Str(s)) => if s.len() == 0 || s == "null"@ {
            Some(None)
        } else {
            Some(Some(s))
        },
        Some(_) => None,
    }
}

pub open spec fn opt_tree(v: Option<&Json>) -> Option<Tree> {
    match v {
        Some(j) => Some(j@),
        None => None,
    }
}

/// Reads an optional string field (`None` when the field is absent): null,
/// an empty string and `"null"` give `None`; a value that is not a string is
/// an error.
pub fn deserialize_option_string(v: Option<&Json>) -> (r: Result<Option<String>, ParseError>)
    ensures
        match option_string_spec(opt_tree(v)) {
            Some(None) => r matches Ok(x) && x is None,
            Some(Some(s)) => r matches Ok(x) && x matches Some(y) && y@ == s,
            None => r is Err,
        },
{
    match v {
        None => Ok(None),
        Some(Json::Null) => Ok(None),
        Some(Json::String(s)) => {
            if s.unicode_len() == 0 || str_eq(s.as_str(), "null") {
                Ok(None)
            } else {
                Ok(Some(owned(s.as_str())))
            }
        },
        Some(_) => Err(ParseError::MissingField),
    }
}

/// Whether an optional string is absent or empty.
pub fn option_string_is_none_or_empty(value: &Option<String>) -> (r: bool)
    ensures
        r == match value {
            Some(s) => s@.len() == 0,
            None => true,
        },
{
    match value {
        Some(s) => s.unicode_len() == 0,
        None => true,
    }
}

/// A console URL: empty is none, otherwise it starts with `/`.
pub open spec fn console_url_spec(s: Seq<char>) -> Option<Seq<char>> {
    if s.len() == 0 {
        None
    } else if s[0] == '/' {
        Some(s)
    } else {
        Some(seq!['/'] + s)
    }
}

/// Reads the URL of an endpoint's console detail.
pub fn deserialize_console_url(s: &str) -> (r: Option<String>)
    ensures
        match console_url_spec(s@) {
            Some(u) => r matches Some(x) && x@ == u,
            None => r is None,
        },
{
    let n = s.unicode_len();
    if n == 0 {
        None
    } else if s.get_char(0) == '/' {
        Some(owned(s))
    } else {
        let mut out = String::new();
        push_char(&mut out, '/');
        out.append(s);
        assert(out@ =~= seq!['/'] + s@);
        Some(out)
    }
}

/// Whether a number's text is an integer that fits an `i64` and is not zero
/// (a float, or an integer out of range, is not).
pub open spec fn nonzero_i64_text(s: Seq<char>) -> bool {
    let neg = s.len() > 0 && s[0] == '-';
    let d = if neg {
        s.drop_first()
    } else {
        s
    };
    &&& all_digits(d)
    &&& parse_usize_spec(d) matches Some(v) && v != 0 && (v as int) <= if neg {
        0x8000_0000_0000_0000int
    } else {
        0x7fff_ffff_ffff_ffffint
    }
}

pub open spec fn truthy(s: Seq<char>) -> bool {
    s == "true"@ || s == "1"@ || s == "yes"@ || s == "y"@ || s == "on"@
}

pub open spec fn falsy(s: Seq<char>) -> bool {
    s == ""@ || s == "false"@ || s == "0"@ || s == "no"@ || s == "n"@ || s == "off"@
}

/// What a boolean-like value reads as.
pub open spec fn bool_coerced_spec(t: Tree) -> Option<bool> {
    match t {
        Tree::Bool(b) => Some(b),
        Tree::Number(n) => Some(nonzero_i64_text(n)),
        Tree::Str(s) => {
            let w = lower_of(trimmed_of(s));
            if truthy(w) {
                Some(true)
            } else if falsy(w) {
                Some(false)
            } else {
                None
            }
        },
        _ => None,
    }
}

#[verifier::loop_isolation(false)]
fn nonzero_i64(s: &str) -> (r: bool)
    ensures
        r == nonzero_i64_text(s@),
{
    let n = s.unicode_len();
    let neg = n > 0 && s.get_char(0) == '-';
    let d = if neg {
        owned(s.substring_char(1, n))
    } else {
        owned(s)
    };
    assert(neg ==> d@ =~= s@.drop_first());
    let m = d.unicode_len();
    let mut i: usize = 0;
    while i < m
        invariant
            m == d@.len(),
            i <= m,
            forall|k: int| 0 <= k < i ==> crate::text::is_digit(#[trigger] d@[k]),
        decreases m - i,
    {
        let c = d.get_char(i);
        if !('0' <= c && c <= '9') {
            assert(!crate::text::is_digit(d@[i as int]));
            assert(!neg ==> d@ == s@);
            return false;
        }
        i = i + 1;
    }
    match parse_usize(d.as_str()) {
        Some(v) => {
            if neg {
                v != 0 && v as u128 <= 0x8000_0000_0000_0000u128
            } else {
                v != 0 && v as u128 <= 0x7fff_ffff_ffff_ffffu128
            }
        },
        None => false,
    }
}

/// Reads a boolean written as a boolean, a number (non-zero is true) or a
/// word such as `yes`, `off` or `1`.
pub fn deserialize_bool_coerced(v: &Json) -> (r: Result<bool, ParseError>)
    ensures
        match bool_coerced_spec(v@) {
            Some(b) => r == Ok::<bool, ParseError>(b),
            None => r is Err,
        },
{
    match v {
        Json::Bool(b) => Ok(*b),
        Json::Number(n) => Ok(nonzero_i64(n.as_str())),
        Json::String(s) => {
            let t = trimmed(s.as_str());
            let w = lowercase(t.as_str());
            let ws = w.as_str();
            if str_eq(ws, "true") || str_eq(ws, "1") || str_eq(ws, "yes") || str_eq(ws, "y") || str_eq(ws, "on") {
                Ok(true)
            } else if str_eq(ws, "") || str_eq(ws, "false") || str_eq(ws, "0") || str_eq(ws, "no")
                || str_eq(ws, "n") || str_eq(ws, "off") {
                Ok(false)
            } else {
                Err(ParseError::MissingField)
            }
        },
        _ => Err(ParseError::MissingField),
    }
}

} // verus!
