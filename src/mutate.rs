//! Point patches through a path: set or remove the addressed values.
use vstd::prelude::*;
use crate::error::ParseError;
use crate::json::{
    Json, Tree, view_items, view_entries, view_json, lemma_view_items, lemma_view_entries,
    key_index, lemma_key_index, lookup, put, delete, deep_copy, find_key, copy_items,
    copy_entries, entries_put, entries_delete, lemma_view_items_prefix, lemma_view_entries_prefix,
    lemma_view_items_push, lemma_view_items_update, lemma_view_items_remove,
    lemma_view_entries_update,
};
use crate::patch::{DotPathStr, DotToken, Token, Wildcard, tviews, tokenize_spec};
use crate::text::{decimal, owned, push_decimal};

verus! {

broadcast use vstd::std_specs::vec::group_vec_axioms;

pub open spec fn opt_view(v: Option<Json>) -> Option<Tree> {
    match v {
        Some(j) => Some(view_json(j)),
        None => None,
    }
}

pub open spec fn nulls(n: nat) -> Seq<Tree> {
    Seq::new(n, |_i: int| Tree::Null)
}

/// The object key that a literal token matches during a `**` search.
pub open spec fn lit_key(t: Token) -> Option<Seq<char>> {
    match t {
        Token::Prop(k) => Some(k),
        Token::Idx(n) => Some(decimal(n as nat)),
        _ => None,
    }
}

pub open spec fn is_literal(t: Token) -> bool {
    t is Prop || t is Idx
}

/// The value at the end of a patch: `v`, or the removal of the slot.
pub open spec fn set_entry(es: Seq<(Seq<char>, Tree)>, k: Seq<char>, v: Option<Tree>) -> Seq<(Seq<char>, Tree)> {
    match v {
        Some(x) => put(es, k, x),
        None => delete(es, k),
    }
}

pub open spec fn set_item(xs: Seq<Tree>, n: int, v: Option<Tree>) -> Seq<Tree> {
    match v {
        Some(x) => if n < xs.len() {
            xs.update(n, x)
        } else {
            xs + nulls((n - xs.len()) as nat) + seq![x]
        },
        None => if n < xs.len() {
            xs.remove(n)
        } else {
            xs
        },
    }
}

/// Patching `t` with the tokens of `ts` from `pos` on; `None` is an error.
pub open spec fn patch_spec(t: Tree, ts: Seq<Token>, pos: int, v: Option<Tree>) -> Option<Tree>
    decreases ts.len() - pos, t, 1int,
{
    if pos < 0 || pos >= ts.len() {
        None
    } else {
        let last = pos + 1 == ts.len();
        match ts[pos] {
            Token::Prop(k) => match t {
                Tree::Object(es) => if last {
                    Some(Tree::Object(set_entry(es, k, v)))
                } else {
                    let child = match lookup(es, k) {
                        Some(c) => c,
                        None => Tree::Object(Seq::empty()),
                    };
                    match patch_spec(child, ts, pos + 1, v) {
                        Some(c2) => Some(Tree::Object(put(es, k, c2))),
                        None => None,
                    }
                },
                _ => None,
            },
            Token::Idx(n) => match t {
                Tree::Array(xs) => if last {
                    Some(Tree::Array(set_item(xs, n as int, v)))
                } else if n < xs.len() {
                    match patch_spec(xs[n as int], ts, pos + 1, v) {
                        Some(c) => Some(Tree::Array(xs.update(n as int, c))),
                        None => None,
                    }
                } else {
                    None
                },
                _ => None,
            },
            Token::Once => match t {
                Tree::Object(es) => match patch_entries(es, ts, pos + 1, v) {
                    Some(e2) => Some(Tree::Object(e2)),
                    None => None,
                },
                Tree::Array(xs) => match patch_items(xs, ts, pos + 1, v) {
                    Some(x2) => Some(Tree::Array(x2)),
                    None => None,
                },
                _ => None,
            },
            Token::UntilNext => if last || !is_literal(ts[pos + 1]) {
                None
            } else {
                match t {
                    Tree::Object(_) => until_patch(t, ts, pos + 1, v),
                    Tree::Array(_) => until_patch(t, ts, pos + 1, v),
                    _ => None,
                }
            },
        }
    }
}

/// Patching every element of `xs`; an error in one is an error.
pub open spec fn patch_items(xs: Seq<Tree>, ts: Seq<Token>, pos: int, v: Option<Tree>) -> Option<Seq<Tree>>
    decreases ts.len() - pos, xs, 2int,
{
    if xs.len() == 0 {
        Some(Seq::empty())
    } else {
        match patch_items(xs.drop_last(), ts, pos, v) {
            Some(ys) => match patch_spec(xs.last(), ts, pos, v) {
                Some(y) => Some(ys.push(y)),
                None => None,
            },
            None => None,
        }
    }
}

/// Patching the value of every entry of `es`.
pub open spec fn patch_entries(es: Seq<(Seq<char>, Tree)>, ts: Seq<Token>, pos: int, v: Option<Tree>) -> Option<Seq<(Seq<char>, Tree)>>
    decreases ts.len() - pos, es, 2int,
{
    if es.len() == 0 {
        Some(Seq::empty())
    } else {
        match patch_entries(es.drop_last(), ts, pos, v) {
            Some(ys) => match patch_spec(es.last().1, ts, pos, v) {
                Some(y) => Some(ys.push((es.last().0, y))),
                None => None,
            },
            None => None,
        }
    }
}

/// The `**` search for the literal at `pos`: the children are searched
/// first, then a match at this node is patched with the rest of the path.
pub open spec fn until_patch(t: Tree, ts: Seq<Token>, pos: int, v: Option<Tree>) -> Option<Tree>
    decreases ts.len() - pos, t, 3int,
{
    if pos < 0 || pos >= ts.len() {
        None
    } else {
        let last = pos + 1 == ts.len();
        match t {
            Tree::Object(es) => match until_entries(es, ts, pos, v) {
                None => None,
                Some(es1) => match lit_key(ts[pos]) {
                    None => Some(Tree::Object(es1)),
                    Some(k) => match key_index(es1, k) {
                        None => Some(Tree::Object(es1)),
                        Some(i) => if last {
                            Some(Tree::Object(set_entry(es1, k, v)))
                        } else {
                            match patch_spec(es1[i].1, ts, pos + 1, v) {
                                Some(c) => Some(Tree::Object(es1.update(i, (k, c)))),
                                None => None,
                            }
                        },
                    },
                },
            },
            Tree::Array(xs) => match until_items(xs, ts, pos, v) {
                None => None,
                Some(xs1) => match ts[pos] {
                    Token::Idx(n) => if n < xs1.len() {
                        if last {
                            Some(Tree::Array(set_item(xs1, n as int, v)))
                        } else {
                            match patch_spec(xs1[n as int], ts, pos + 1, v) {
                                Some(c) => Some(Tree::Array(xs1.update(n as int, c))),
                                None => None,
                            }
                        }
                    } else {
                        Some(Tree::Array(xs1))
                    },
                    _ => Some(Tree::Array(xs1)),
                },
            },
            _ => Some(t),
        }
    }
}

pub open spec fn until_items(xs: Seq<Tree>, ts: Seq<Token>, pos: int, v: Option<Tree>) -> Option<Seq<Tree>>
    decreases ts.len() - pos, xs, 4int,
{
    if xs.len() == 0 {
        Some(Seq::empty())
    } else {
        match until_items(xs.drop_last(), ts, pos, v) {
            Some(ys) => match until_patch(xs.last(), ts, pos, v) {
                Some(y) => Some(ys.push(y)),
                None => None,
            },
            None => None,
        }
    }
}

pub open spec fn until_entries(es: Seq<(Seq<char>, Tree)>, ts: Seq<Token>, pos: int, v: Option<Tree>) -> Option<Seq<(Seq<char>, Tree)>>
    decreases ts.len() - pos, es, 4int,
{
    if es.len() == 0 {
        Some(Seq::empty())
    } else {
        match until_entries(es.drop_last(), ts, pos, v) {
            Some(ys) => match until_patch(es.last().1, ts, pos, v) {
                Some(y) => Some(ys.push((es.last().0, y))),
                None => None,
            },
            None => None,
        }
    }
}


pub open spec fn tree_result(r: Result<Json, ParseError>, s: Option<Tree>) -> bool {
    match s {
        Some(x) => r matches Ok(j) && j@ == x,
        None => r is Err,
    }
}

pub open spec fn items_result(r: Result<Vec<Json>, ParseError>, s: Option<Seq<Tree>>) -> bool {
    match s {
        Some(x) => r matches Ok(j) && view_items(j@) == x,
        None => r is Err,
    }
}

pub open spec fn entries_result(
    r: Result<Vec<(String, Json)>, ParseError>,
    s: Option<Seq<(Seq<char>, Tree)>>,
) -> bool {
    match s {
        Some(x) => r matches Ok(j) && view_entries(j@) == x,
        None => r is Err,
    }
}

proof fn lemma_patch_items_prefix(xs: Seq<Tree>, i: int, ts: Seq<Token>, pos: int, v: Option<Tree>)
    requires
        0 <= i <= xs.len(),
        patch_items(xs.subrange(0, i), ts, pos, v) is None,
    ensures
        patch_items(xs, ts, pos, v) is None,
    decreases xs.len() - i,
{
    if i < xs.len() {
        assert(xs.subrange(0, i + 1).drop_last() =~= xs.subrange(0, i));
        lemma_patch_items_prefix(xs, i + 1, ts, pos, v);
    } else {
        assert(xs.subrange(0, i) =~= xs);
    }
}

proof fn lemma_patch_entries_prefix(es: Seq<(Seq<char>, Tree)>, i: int, ts: Seq<Token>, pos: int, v: Option<Tree>)
    requires
        0 <= i <= es.len(),
        patch_entries(es.subrange(0, i), ts, pos, v) is None,
    ensures
        patch_entries(es, ts, pos, v) is None,
    decreases es.len() - i,
{
    if i < es.len() {
        assert(es.subrange(0, i + 1).drop_last() =~= es.subrange(0, i));
        lemma_patch_entries_prefix(es, i + 1, ts, pos, v);
    } else {
        assert(es.subrange(0, i) =~= es);
    }
}

proof fn lemma_until_items_prefix(xs: Seq<Tree>, i: int, ts: Seq<Token>, pos: int, v: Option<Tree>)
    requires
        0 <= i <= xs.len(),
        until_items(xs.subrange(0, i), ts, pos, v) is None,
    ensures
        until_items(xs, ts, pos, v) is None,
    decreases xs.len() - i,
{
    if i < xs.len() {
        assert(xs.subrange(0, i + 1).drop_last() =~= xs.subrange(0, i));
        lemma_until_items_prefix(xs, i + 1, ts, pos, v);
    } else {
        assert(xs.subrange(0, i) =~= xs);
    }
}

proof fn lemma_until_entries_prefix(es: Seq<(Seq<char>, Tree)>, i: int, ts: Seq<Token>, pos: int, v: Option<Tree>)
    requires
        0 <= i <= es.len(),
        until_entries(es.subrange(0, i), ts, pos, v) is None,
    ensures
        until_entries(es, ts, pos, v) is None,
    decreases es.len() - i,
{
    if i < es.len() {
        assert(es.subrange(0, i + 1).drop_last() =~= es.subrange(0, i));
        lemma_until_entries_prefix(es, i + 1, ts, pos, v);
    } else {
        assert(es.subrange(0, i) =~= es);
    }
}

/// Sets or removes the entry for `k`.
fn entries_set(es: &mut Vec<(String, Json)>, k: &str, v: &Option<Json>)
    ensures
        view_entries(final(es)@) == set_entry(view_entries(old(es)@), k@, opt_view(*v)),
{
    match v {
        Some(x) => entries_put(es, k, deep_copy(x)),
        None => entries_delete(es, k),
    }
}

/// Sets or removes element `n`; setting past the end fills the gap with nulls.
fn items_set(xs: &mut Vec<Json>, n: usize, v: &Option<Json>)
    ensures
        view_items(final(xs)@) == set_item(view_items(old(xs)@), n as int, opt_view(*v)),
{
    proof {
        lemma_view_items(xs@);
    }
    match v {
        Some(x) => {
            let c = deep_copy(x);
            if n < xs.len() {
                proof {
                    lemma_view_items_update(xs@, n as int, c);
                }
                xs.set(n, c);
            } else {
                let ghost start = view_items(xs@);
                let ghost len0 = xs@.len();
                while xs.len() < n
                    invariant
                        len0 <= xs@.len() <= n,
                        view_items(xs@) == start + nulls((xs@.len() - len0) as nat),
                    decreases n - xs@.len(),
                {
                    let ghost before = xs@;
                    xs.push(Json::Null);
                    proof {
                        lemma_view_items_push(before, Json::Null);
                        assert(start + nulls((xs@.len() - len0) as nat) =~= (start + nulls(
                            (before.len() - len0) as nat,
                        )).push(Tree::Null));
                    }
                }
                let ghost before = xs@;
                proof {
                    lemma_view_items_push(before, c);
                }
                xs.push(c);
                assert(view_items(xs@) =~= start + nulls((n - len0) as nat) + seq![x@]);
            }
        },
        None => {
            if n < xs.len() {
                proof {
                    lemma_view_items_remove(xs@, n as int);
                }
                xs.remove(n);
            }
        },
    }
}

/// Patches `t` with the tokens of `ts` from `pos` on, into a new value.
pub fn patch_at(t: &Json, ts: &Vec<DotToken>, pos: usize, v: &Option<Json>) -> (r: Result<Json, ParseError>)
    ensures
        tree_result(r, patch_spec(t@, tviews(ts@), pos as int, opt_view(*v))),
    decreases ts@.len() - pos, *t, 1int,
{
    let ghost tv = tviews(ts@);
    if pos >= ts.len() {
        return Err(ParseError::PathTraversal);
    }
    let last = pos + 1 == ts.len();
    assert(tv[pos as int] == ts@[pos as int]@);
    match &ts[pos] {
        DotToken::Property(k) => match t {
            Json::Object(es) => {
                if last {
                    let mut es2 = copy_entries(es);
                    entries_set(&mut es2, k.as_str(), v);
                    Ok(Json::Object(es2))
                } else {
                    let empty = Json::Object(Vec::new());
                    assert(empty@ == Tree::Object(Seq::empty())) by {
                        assert(view_entries(Seq::<(String, Json)>::empty()) =~= Seq::empty());
                    }
                    let found = find_key(es, k.as_str());
                    proof {
                        lemma_view_entries(es@);
                        lemma_key_index(view_entries(es@), k@);
                    }
                    let child: &Json = match found {
                        Some(i) => &es[i].1,
                        None => &empty,
                    };
                    match patch_at(child, ts, pos + 1, v) {
                        Ok(c2) => {
                            let mut es2 = copy_entries(es);
                            entries_put(&mut es2, k.as_str(), c2);
                            Ok(Json::Object(es2))
                        },
                        Err(e) => Err(e),
                    }
                }
            },
            _ => Err(ParseError::PathTraversal),
        },
        DotToken::Index(n) => match t {
            Json::Array(xs) => {
                proof {
                    lemma_view_items(xs@);
                }
                if last {
                    let mut xs2 = copy_items(xs);
                    items_set(&mut xs2, *n, v);
                    Ok(Json::Array(xs2))
                } else if *n < xs.len() {
                    match patch_at(&xs[*n], ts, pos + 1, v) {
                        Ok(c) => {
                            let mut xs2 = copy_items(xs);
                            proof {
                                lemma_view_items(xs2@);
                                lemma_view_items_update(xs2@, *n as int, c);
                            }
                            xs2.set(*n, c);
                            Ok(Json::Array(xs2))
                        },
                        Err(e) => Err(e),
                    }
                } else {
                    Err(ParseError::PathTraversal)
                }
            },
            _ => Err(ParseError::PathTraversal),
        },
        DotToken::Wildcard(Wildcard::Once) => match t {
            Json::Object(es) => match patch_entries_at(es, ts, pos + 1, v) {
                Ok(e2) => Ok(Json::Object(e2)),
                Err(e) => Err(e),
            },
            Json::Array(xs) => match patch_items_at(xs, ts, pos + 1, v) {
                Ok(x2) => Ok(Json::Array(x2)),
                Err(e) => Err(e),
            },
            _ => Err(ParseError::PathTraversal),
        },
        DotToken::Wildcard(Wildcard::UntilNext) => {
            if last {
                return Err(ParseError::PathTraversal);
            }
            assert(tv[pos + 1] == ts@[pos + 1]@);
            let literal = match &ts[pos + 1] {
                DotToken::Property(_) => true,
                DotToken::Index(_) => true,
                _ => false,
            };
            if !literal {
                return Err(ParseError::PathTraversal);
            }
            match t {
                Json::Object(_) => until_patch_at(t, ts, pos + 1, v),
                Json::Array(_) => until_patch_at(t, ts, pos + 1, v),
                _ => Err(ParseError::PathTraversal),
            }
        },
    }
}

/// Patches every element of `xs`.
fn patch_items_at(xs: &Vec<Json>, ts: &Vec<DotToken>, pos: usize, v: &Option<Json>) -> (r: Result<Vec<Json>, ParseError>)
    ensures
        items_result(r, patch_items(view_items(xs@), tviews(ts@), pos as int, opt_view(*v))),
    decreases ts@.len() - pos, *xs, 2int,
{
    let ghost tv = tviews(ts@);
    let ghost ov = opt_view(*v);
    let mut out: Vec<Json> = Vec::new();
    let mut i: usize = 0;
    while i < xs.len()
        invariant
            i <= xs@.len(),
            patch_items(view_items(xs@.subrange(0, i as int)), tv, pos as int, ov) == Some(view_items(out@)),
            tv == tviews(ts@),
            ov == opt_view(*v),
        decreases xs@.len() - i,
    {
        proof {
            assert(decreases_to!(*xs => xs[i as int]));
            lemma_view_items_prefix(xs@, i as int);
            let p = view_items(xs@.subrange(0, i + 1));
            assert(p.drop_last() == view_items(xs@.subrange(0, i as int)));
        }
        match patch_at(&xs[i], ts, pos, v) {
            Ok(c) => {
                let ghost o = out@;
                out.push(c);
                proof {
                    lemma_view_items_push(o, c);
                }
            },
            Err(e) => {
                proof {
                    lemma_view_items(xs@);
                    lemma_patch_items_prefix(view_items(xs@), i + 1, tv, pos as int, ov);
                    assert(view_items(xs@.subrange(0, i + 1)) =~= view_items(xs@).subrange(0, i + 1)) by {
                        lemma_view_items(xs@.subrange(0, i + 1));
                    }
                }
                return Err(e);
            },
        }
        i = i + 1;
    }
    assert(xs@.subrange(0, i as int) =~= xs@);
    Ok(out)
}

/// Patches the value of every entry of `es`.
fn patch_entries_at(es: &Vec<(String, Json)>, ts: &Vec<DotToken>, pos: usize, v: &Option<Json>) -> (r: Result<Vec<(String, Json)>, ParseError>)
    ensures
        entries_result(r, patch_entries(view_entries(es@), tviews(ts@), pos as int, opt_view(*v))),
    decreases ts@.len() - pos, *es, 2int,
{
    let ghost tv = tviews(ts@);
    let ghost ov = opt_view(*v);
    let mut out: Vec<(String, Json)> = Vec::new();
    let mut i: usize = 0;
    while i < es.len()
        invariant
            i <= es@.len(),
            patch_entries(view_entries(es@.subrange(0, i as int)), tv, pos as int, ov) == Some(view_entries(out@)),
            tv == tviews(ts@),
            ov == opt_view(*v),
        decreases es@.len() - i,
    {
        proof {
            assert(decreases_to!(*es => es[i as int]));
            lemma_view_entries_prefix(es@, i as int);
            let p = view_entries(es@.subrange(0, i + 1));
            assert(p.drop_last() == view_entries(es@.subrange(0, i as int)));
        }
        match patch_at(&es[i].1, ts, pos, v) {
            Ok(c) => {
                let ghost o = out@;
                let e = (owned(es[i].0.as_str()), c);
                out.push(e);
                proof {
                    assert(out@.drop_last() =~= o);
                }
            },
            Err(e) => {
                proof {
                    lemma_view_entries(es@);
                    lemma_patch_entries_prefix(view_entries(es@), i + 1, tv, pos as int, ov);
                    assert(view_entries(es@.subrange(0, i + 1)) =~= view_entries(es@).subrange(0, i + 1)) by {
                        lemma_view_entries(es@.subrange(0, i + 1));
                    }
                }
                return Err(e);
            },
        }
        i = i + 1;
    }
    assert(es@.subrange(0, i as int) =~= es@);
    Ok(out)
}

/// The key that the literal token matches on objects during a `**` search.
fn literal_key(t: &DotToken) -> (r: Option<String>)
    ensures
        match lit_key(t@) {
            Some(k) => r matches Some(s) && s@ == k,
            None => r is None,
        },
{
    match t {
        DotToken::Property(k) => Some(owned(k.as_str())),
        DotToken::Index(n) => {
            let mut s = String::new();
            push_decimal(&mut s, *n);
            assert(s@ =~= decimal(*n as nat));
            Some(s)
        },
        _ => None,
    }
}

/// The `**` search for the literal at `pos`, patching every match.
fn until_patch_at(t: &Json, ts: &Vec<DotToken>, pos: usize, v: &Option<Json>) -> (r: Result<Json, ParseError>)
    ensures
        tree_result(r, until_patch(t@, tviews(ts@), pos as int, opt_view(*v))),
    decreases ts@.len() - pos, *t, 3int,
{
    let ghost tv = tviews(ts@);
    if pos >= ts.len() {
        return Err(ParseError::PathTraversal);
    }
    let last = pos + 1 == ts.len();
    assert(tv[pos as int] == ts@[pos as int]@);
    match t {
        Json::Object(es) => {
            match until_entries_at(es, ts, pos, v) {
                Err(e) => Err(e),
                Ok(es1) => {
                    let mut es1 = es1;
                    match literal_key(&ts[pos]) {
                        None => Ok(Json::Object(es1)),
                        Some(k) => {
                            match find_key(&es1, k.as_str()) {
                                None => Ok(Json::Object(es1)),
                                Some(i) => {
                                    proof {
                                        lemma_view_entries(es1@);
                                        lemma_key_index(view_entries(es1@), k@);
                                    }
                                    if last {
                                        entries_set(&mut es1, k.as_str(), v);
                                        Ok(Json::Object(es1))
                                    } else {
                                        match patch_at(&es1[i].1, ts, pos + 1, v) {
                                            Ok(c) => {
                                                let e = (k, c);
                                                proof {
                                                    lemma_view_entries_update(es1@, i as int, e);
                                                }
                                                es1.set(i, e);
                                                Ok(Json::Object(es1))
                                            },
                                            Err(e) => Err(e),
                                        }
                                    }
                                },
                            }
                        },
                    }
                },
            }
        },
        Json::Array(xs) => {
            match until_items_at(xs, ts, pos, v) {
                Err(e) => Err(e),
                Ok(xs1) => {
                    let mut xs1 = xs1;
                    proof {
                        lemma_view_items(xs1@);
                    }
                    match &ts[pos] {
                        DotToken::Index(n) => {
                            if *n < xs1.len() {
                                if last {
                                    items_set(&mut xs1, *n, v);
                                    Ok(Json::Array(xs1))
                                } else {
                                    match patch_at(&xs1[*n], ts, pos + 1, v) {
                                        Ok(c) => {
                                            proof {
                                                lemma_view_items_update(xs1@, *n as int, c);
                                            }
                                            xs1.set(*n, c);
                                            Ok(Json::Array(xs1))
                                        },
                                        Err(e) => Err(e),
                                    }
                                }
                            } else {
                                Ok(Json::Array(xs1))
                            }
                        },
                        _ => Ok(Json::Array(xs1)),
                    }
                },
            }
        },
        _ => Ok(deep_copy(t)),
    }
}

fn until_items_at(xs: &Vec<Json>, ts: &Vec<DotToken>, pos: usize, v: &Option<Json>) -> (r: Result<Vec<Json>, ParseError>)
    ensures
        items_result(r, until_items(view_items(xs@), tviews(ts@), pos as int, opt_view(*v))),
    decreases ts@.len() - pos, *xs, 4int,
{
    let ghost tv = tviews(ts@);
    let ghost ov = opt_view(*v);
    let mut out: Vec<Json> = Vec::new();
    let mut i: usize = 0;
    while i < xs.len()
        invariant
            i <= xs@.len(),
            until_items(view_items(xs@.subrange(0, i as int)), tv, pos as int, ov) == Some(view_items(out@)),
            tv == tviews(ts@),
            ov == opt_view(*v),
        decreases xs@.len() - i,
    {
        proof {
            assert(decreases_to!(*xs => xs[i as int]));
            lemma_view_items_prefix(xs@, i as int);
            let p = view_items(xs@.subrange(0, i + 1));
            assert(p.drop_last() == view_items(xs@.subrange(0, i as int)));
        }
        match until_patch_at(&xs[i], ts, pos, v) {
            Ok(c) => {
                let ghost o = out@;
                out.push(c);
                proof {
                    lemma_view_items_push(o, c);
                }
            },
            Err(e) => {
                proof {
                    lemma_view_items(xs@);
                    lemma_until_items_prefix(view_items(xs@), i + 1, tv, pos as int, ov);
                    assert(view_items(xs@.subrange(0, i + 1)) =~= view_items(xs@).subrange(0, i + 1)) by {
                        lemma_view_items(xs@.subrange(0, i + 1));
                    }
                }
                return Err(e);
            },
        }
        i = i + 1;
    }
    assert(xs@.subrange(0, i as int) =~= xs@);
    Ok(out)
}

fn until_entries_at(es: &Vec<(String, Json)>, ts: &Vec<DotToken>, pos: usize, v: &Option<Json>) -> (r: Result<Vec<(String, Json)>, ParseError>)
    ensures
        entries_result(r, until_entries(view_entries(es@), tviews(ts@), pos as int, opt_view(*v))),
    decreases ts@.len() - pos, *es, 4int,
{
    let ghost tv = tviews(ts@);
    let ghost ov = opt_view(*v);
    let mut out: Vec<(String, Json)> = Vec::new();
    let mut i: usize = 0;
    while i < es.len()
        invariant
            i <= es@.len(),
            until_entries(view_entries(es@.subrange(0, i as int)), tv, pos as int, ov) == Some(view_entries(out@)),
            tv == tviews(ts@),
            ov == opt_view(*v),
        decreases es@.len() - i,
    {
        proof {
            assert(decreases_to!(*es => es[i as int]));
            lemma_view_entries_prefix(es@, i as int);
            let p = view_entries(es@.subrange(0, i + 1));
            assert(p.drop_last() == view_entries(es@.subrange(0, i as int)));
        }
        match until_patch_at(&es[i].1, ts, pos, v) {
            Ok(c) => {
                let ghost o = out@;
                let e = (owned(es[i].0.as_str()), c);
                out.push(e);
                proof {
                    assert(out@.drop_last() =~= o);
                }
            },
            Err(e) => {
                proof {
                    lemma_view_entries(es@);
                    lemma_until_entries_prefix(view_entries(es@), i + 1, tv, pos as int, ov);
                    assert(view_entries(es@.subrange(0, i + 1)) =~= view_entries(es@).subrange(0, i + 1)) by {
                        lemma_view_entries(es@.subrange(0, i + 1));
                    }
                }
                return Err(e);
            },
        }
        i = i + 1;
    }
    assert(es@.subrange(0, i as int) =~= es@);
    Ok(out)
}

impl Json {
    /// Sets (`Some`) or removes (`None`) the values that `path` addresses.
    /// On an error the value is left as it was.
    pub fn patch_mut(&mut self, path: DotPathStr, value: Option<Json>) -> (r: Result<(), ParseError>)
        ensures
            match patch_spec(old(self)@, tokenize_spec(path.0@), 0, opt_view(value)) {
                Some(x) => r is Ok && final(self)@ == x,
                None => r is Err && final(self)@ == old(self)@,
            },
    {
        let ts = match path.tokenize() {
            Ok(ts) => ts,
            Err(e) => {
                return Err(ParseError::PatchSyntax(e));
            },
        };
        match patch_at(self, &ts, 0, &value) {
            Ok(n) => {
                *self = n;
                Ok(())
            },
            Err(e) => Err(e),
        }
    }
}

/// No token from `pos` on is a wildcard.
pub open spec fn wildcard_free(ts: Seq<Token>, pos: int) -> bool {
    forall|i: int| pos <= i < ts.len() ==> is_literal(#[trigger] ts[i])
}

proof fn lemma_put_put(es: Seq<(Seq<char>, Tree)>, k: Seq<char>, x: Tree)
    ensures
        put(put(es, k, x), k, x) == put(es, k, x),
        lookup(put(es, k, x), k) == Some(x),
{
    lemma_key_index(es, k);
    let p = put(es, k, x);
    lemma_key_index(p, k);
    match key_index(es, k) {
        Some(i) => {
            assert(p[i].0 == k);
            assert forall|j: int| 0 <= j < i implies p[j].0 != k by {
                assert(p[j] == es[j]);
            }
            assert(key_index(p, k) == Some(i)) by {
                if key_index(p, k) != Some(i) {
                    match key_index(p, k) {
                        Some(m) => {
                            assert(m < i || m > i);
                        },
                        None => {},
                    }
                }
            }
            assert(p.update(i, (k, x)) =~= p);
        },
        None => {
            let n = es.len() as int;
            assert(p[n].0 == k);
            assert forall|j: int| 0 <= j < n implies p[j].0 != k by {
                assert(p[j] == es[j]);
            }
            assert(key_index(p, k) == Some(n)) by {
                match key_index(p, k) {
                    Some(m) => {
                        assert(m <= n);
                    },
                    None => {},
                }
            }
            assert(p.update(n, (k, x)) =~= p);
        },
    }
}

proof fn lemma_delete_none_left(es: Seq<(Seq<char>, Tree)>, k: Seq<char>)
    ensures
        forall|i: int| 0 <= i < delete(es, k).len() ==> (#[trigger] delete(es, k)[i]).0 != k,
    decreases es.len(),
{
    if es.len() > 0 {
        lemma_delete_none_left(es.drop_last(), k);
        let d0 = delete(es.drop_last(), k);
        assert forall|i: int| 0 <= i < delete(es, k).len() implies (#[trigger] delete(es, k)[i]).0 != k by {
            if i < d0.len() {
                assert(delete(es, k)[i] == d0[i]);
            }
        }
    }
}

proof fn lemma_delete_noop(es: Seq<(Seq<char>, Tree)>, k: Seq<char>)
    requires
        forall|i: int| 0 <= i < es.len() ==> (#[trigger] es[i]).0 != k,
    ensures
        delete(es, k) == es,
    decreases es.len(),
{
    if es.len() > 0 {
        lemma_delete_noop(es.drop_last(), k);
        assert(es[es.len() - 1].0 != k);
        assert(es.drop_last() + seq![es.last()] =~= es);
    }
}

proof fn lemma_delete_delete(es: Seq<(Seq<char>, Tree)>, k: Seq<char>)
    ensures
        delete(delete(es, k), k) == delete(es, k),
{
    lemma_delete_none_left(es, k);
    lemma_delete_noop(delete(es, k), k);
}

/// Applying the same patch twice gives the same document as applying it once,
/// for a path without wildcards from `pos` on. A removal at an array index is
/// left out: it shifts the elements after it, so a second removal takes out
/// the next one.
pub proof fn lemma_patch_idempotent(t: Tree, ts: Seq<Token>, pos: int, v: Option<Tree>)
    requires
        wildcard_free(ts, pos),
        !(v is None && ts.len() > 0 && ts.last() is Idx),
        patch_spec(t, ts, pos, v) is Some,
    ensures
        patch_spec(patch_spec(t, ts, pos, v)->0, ts, pos, v) == patch_spec(t, ts, pos, v),
    decreases ts.len() - pos,
{
    let last = pos + 1 == ts.len();
    match ts[pos] {
        Token::Prop(k) => {
            let es = t->Object_0;
            if last {
                match v {
                    Some(x) => {
                        lemma_put_put(es, k, x);
                    },
                    None => {
                        lemma_delete_delete(es, k);
                    },
                }
            } else {
                let child = match lookup(es, k) {
                    Some(c) => c,
                    None => Tree::Object(Seq::empty()),
                };
                let c2 = patch_spec(child, ts, pos + 1, v)->0;
                lemma_patch_idempotent(child, ts, pos + 1, v);
                lemma_put_put(es, k, c2);
            }
        },
        Token::Idx(n) => {
            let xs = t->Array_0;
            if last {
                let x = v->0;
                if n < xs.len() {
                    assert(xs.update(n as int, x).update(n as int, x) =~= xs.update(n as int, x));
                } else {
                    let ys = xs + nulls((n - xs.len()) as nat) + seq![x];
                    assert(ys.len() == n + 1);
                    assert(ys.update(n as int, x) =~= ys);
                }
            } else {
                let c = patch_spec(xs[n as int], ts, pos + 1, v)->0;
                lemma_patch_idempotent(xs[n as int], ts, pos + 1, v);
                assert(xs.update(n as int, c).update(n as int, c) =~= xs.update(n as int, c));
            }
        },
        _ => {
            assert(is_literal(ts[pos]));
        },
    }
}

/// Patching a document twice through the same wildcard-free path with the
/// same value gives what patching once gave (a removal at an array index
/// left out, as above).
pub proof fn lemma_patch_mut_idempotent(doc: Tree, path: Seq<char>, v: Option<Tree>)
    requires
        wildcard_free(tokenize_spec(path), 0),
        !(v is None && tokenize_spec(path).len() > 0 && tokenize_spec(path).last() is Idx),
        patch_spec(doc, tokenize_spec(path), 0, v) is Some,
    ensures
        patch_spec(patch_spec(doc, tokenize_spec(path), 0, v)->0, tokenize_spec(path), 0, v)
            == patch_spec(doc, tokenize_spec(path), 0, v),
{
    lemma_patch_idempotent(doc, tokenize_spec(path), 0, v);
}

} // verus!
