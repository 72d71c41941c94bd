//! Completing an endpoint from its console detail: its verb and its URL,
//! whose `{...}` placeholders are the path parameters.
use vstd::prelude::*;
use crate::help::{Endpoint, HttpMethod, method_of_name};
use crate::text::views;

verus! {

/// Position of the first `}` of `t`, if no newline comes before it.
pub open spec fn closing_brace(t: Seq<char>) -> Option<int>
    decreases t.len(),
{
    if t.len() == 0 || t[0] == '\n' {
        None
    } else if t[0] == '}' {
        Some(0)
    } else {
        match closing_brace(t.drop_first()) {
            Some(j) => Some(j + 1),
            None => None,
        }
    }
}

/// The placeholders that the pattern `\{(.*?)\}` captures in `url`, in
/// order: scanning left to right, a `{` followed by text without `}` or a
/// newline and then a `}` is one match, and the scan goes on after it.
/// (The bound on the closing position always holds; it keeps the
/// recursion visibly finite.)
pub open spec fn brace_params_of(url: Seq<char>) -> Seq<Seq<char>>
    decreases url.len(),
{
    if url.len() == 0 {
        Seq::empty()
    } else if url[0] == '{' && (closing_brace(url.drop_first()) matches Some(j) && 0 <= j && j + 2
        <= url.len()) {
        let j = closing_brace(url.drop_first())->0;
        seq![url.subrange(1, j + 1)] + brace_params_of(url.subrange(j + 2, url.len() as int))
    } else {
        brace_params_of(url.drop_first())
    }
}

/// Relies on `regex::Regex::captures_iter` with the pattern `\{(.*?)\}`:
/// the text of the first group of each match, in order. The result depends
/// on the URL alone.
#[verifier::external_body]
fn brace_params(url: &str) -> (r: Vec<String>)
    ensures
        views(r@) == brace_params_of(url@),
{
    match regex::Regex::new(r"\{(.*?)\}") {
        Ok(re) => re.captures_iter(url).map(|c| c[1].to_string()).collect(),
        Err(_) => Vec::new(),
    }
}

/// The verb of an endpoint: the console's, else the one its name starts
/// with, else GET.
pub open spec fn console_method(console: Option<HttpMethod>, name: Seq<char>) -> HttpMethod {
    match console {
        Some(m) => m,
        None => match method_of_name(name) {
            Some(m) => m,
            None => HttpMethod::Get,
        },
    }
}

/// Sets the method, path and path parameters of `ep` from its console
/// detail, given the placeholders `params` of the URL.
pub fn apply_console(ep: &mut Endpoint, method: Option<HttpMethod>, url: Option<String>, params: Vec<String>)
    ensures
        final(ep).method == Some(console_method(method, old(ep).info.name@)),
        match url {
            Some(u) => final(ep).path matches Some(p) && p@ == u@ && views(final(ep).path_params@) == views(params@),
            None => final(ep).path is None && final(ep).path_params@.len() == 0,
        },
        final(ep).info.name@ == old(ep).info.name@,
        final(ep).arguments@ == old(ep).arguments@,
{
    let m = match method {
        Some(m) => m,
        None => match HttpMethod::from_str(ep.info.name.as_str()) {
            Ok(m) => m,
            Err(_) => HttpMethod::Get,
        },
    };
    ep.method = Some(m);
    match url {
        Some(u) => {
            ep.path_params = params;
            ep.path = Some(u);
        },
        None => {
            ep.path_params = Vec::new();
            ep.path = None;
        },
    }
}

/// Completes `ep` from its console detail: the verb, the URL as its path,
/// and the URL's `{...}` placeholders as its path parameters.
pub fn complete_from_console(ep: &mut Endpoint, method: Option<HttpMethod>, url: Option<String>)
    ensures
        final(ep).method == Some(console_method(method, old(ep).info.name@)),
        match url {
            Some(u) => final(ep).path matches Some(p) && p@ == u@ && views(final(ep).path_params@)
                == brace_params_of(u@),
            None => final(ep).path is None && final(ep).path_params@.len() == 0,
        },
        final(ep).info.name@ == old(ep).info.name@,
{
    let params = match &url {
        Some(u) => brace_params(u.as_str()),
        None => Vec::new(),
    };
    apply_console(ep, method, url, params);
}

} // verus!
