//! Reads through a path: the values that a path addresses, in document order.
use vstd::prelude::*;
use crate::error::ParseError;
use crate::json::{
    Json, Tree, append_items, deep_copy, find_key, key_index, lemma_key_index, lemma_view_entries,
    lemma_view_entries_prefix, lemma_view_items, lemma_view_items_prefix, lemma_view_items_push,
    lookup, view_entries, view_items,
};
use crate::mutate::{
    is_literal, items_result, lit_key, patch_spec, set_entry, set_item, until_entries, until_items,
    until_patch,
};
use crate::patch::{DotPathStr, DotToken, Token, Wildcard, tviews, tokenize_spec};
use crate::text::{decimal, push_decimal, owned};

verus! {

broadcast use vstd::std_specs::vec::group_vec_axioms;

/// Reading `t` with the tokens of `ts` from `pos` on; `None` is an error.
/// Inside a wildcard expansion (`wild`) a missing or mismatched step gives
/// no values instead of an error.
pub open spec fn nav_spec(t: Tree, ts: Seq<Token>, pos: int, wild: bool) -> Option<Seq<Tree>>
    decreases ts.len() - pos, t, 0int,
{
    if pos < 0 || pos >= ts.len() {
        None
    } else {
        let last = pos + 1 == ts.len();
        let miss: Option<Seq<Tree>> = if wild {
            Some(Seq::empty())
        } else {
            None
        };
        match ts[pos] {
            Token::Prop(k) => match t {
                Tree::Object(es) => match lookup(es, k) {
                    Some(c) => if last {
                        Some(seq![c])
                    } else {
                        nav_spec(c, ts, pos + 1, wild)
                    },
                    None => miss,
                },
                _ => miss,
            },
            Token::Idx(n) => match t {
                Tree::Array(xs) => if n < xs.len() {
                    if last {
                        Some(seq![xs[n as int]])
                    } else {
                        nav_spec(xs[n as int], ts, pos + 1, wild)
                    }
                } else {
                    miss
                },
                _ => miss,
            },
            Token::Once => match t {
                Tree::Object(es) => Some(nav_entries(es, ts, pos + 1)),
                Tree::Array(xs) => Some(nav_items(xs, ts, pos + 1)),
                _ => miss,
            },
            Token::UntilNext => match t {
                Tree::Object(_) => if last {
                    Some(leaves(t))
                } else {
                    Some(until_nav(t, ts, pos + 1))
                },
                Tree::Array(_) => if last {
                    Some(leaves(t))
                } else {
                    Some(until_nav(t, ts, pos + 1))
                },
                _ => miss,
            },
        }
    }
}

/// What a wildcard contributes for one child: the child itself at the end of
/// the path, else what the rest of the path reads from it (nothing on an error).
pub open spec fn nav_rest(c: Tree, ts: Seq<Token>, pos: int) -> Seq<Tree>
    decreases ts.len() - pos, c, 1int,
{
    if pos < 0 || pos >= ts.len() {
        seq![c]
    } else {
        match nav_spec(c, ts, pos, true) {
            Some(r) => r,
            None => Seq::empty(),
        }
    }
}

pub open spec fn nav_items(xs: Seq<Tree>, ts: Seq<Token>, pos: int) -> Seq<Tree>
    decreases ts.len() - pos, xs, 2int,
{
    if xs.len() == 0 {
        Seq::empty()
    } else {
        nav_items(xs.drop_last(), ts, pos) + nav_rest(xs.last(), ts, pos)
    }
}

pub open spec fn nav_entries(es: Seq<(Seq<char>, Tree)>, ts: Seq<Token>, pos: int) -> Seq<Tree>
    decreases ts.len() - pos, es, 2int,
{
    if es.len() == 0 {
        Seq::empty()
    } else {
        nav_entries(es.drop_last(), ts, pos) + nav_rest(es.last().1, ts, pos)
    }
}

/// The match of the literal at `pos` at this node, if any.
pub open spec fn until_here(t: Tree, ts: Seq<Token>, pos: int) -> Seq<Tree>
    decreases ts.len() - pos, t, 3int,
{
    if pos < 0 || pos >= ts.len() {
        Seq::empty()
    } else {
        match t {
            Tree::Object(es) => match lit_key(ts[pos]) {
                Some(k) => match lookup(es, k) {
                    Some(c) => nav_rest(c, ts, pos + 1),
                    None => Seq::empty(),
                },
                None => Seq::empty(),
            },
            Tree::Array(xs) => match ts[pos] {
                Token::Idx(n) => if n < xs.len() {
                    nav_rest(xs[n as int], ts, pos + 1)
                } else {
                    Seq::empty()
                },
                _ => Seq::empty(),
            },
            _ => Seq::empty(),
        }
    }
}

/// The `**` search for the literal at `pos`: a match at this node first,
/// then the matches below each child, in document order.
pub open spec fn until_nav(t: Tree, ts: Seq<Token>, pos: int) -> Seq<Tree>
    decreases ts.len() - pos, t, 4int,
{
    until_here(t, ts, pos) + match t {
        Tree::Object(es) => until_nav_entries(es, ts, pos),
        Tree::Array(xs) => until_nav_items(xs, ts, pos),
        _ => Seq::empty(),
    }
}

pub open spec fn until_nav_items(xs: Seq<Tree>, ts: Seq<Token>, pos: int) -> Seq<Tree>
    decreases ts.len() - pos, xs, 5int,
{
    if xs.len() == 0 {
        Seq::empty()
    } else {
        until_nav_items(xs.drop_last(), ts, pos) + until_nav(xs.last(), ts, pos)
    }
}

pub open spec fn until_nav_entries(es: Seq<(Seq<char>, Tree)>, ts: Seq<Token>, pos: int) -> Seq<Tree>
    decreases ts.len() - pos, es, 5int,
{
    if es.len() == 0 {
        Seq::empty()
    } else {
        until_nav_entries(es.drop_last(), ts, pos) + until_nav(es.last().1, ts, pos)
    }
}

/// The scalar values below `t`, in document order.
pub open spec fn leaves(t: Tree) -> Seq<Tree>
    decreases t, 0int,
{
    match t {
        Tree::Object(es) => leaves_entries(es),
        Tree::Array(xs) => leaves_items(xs),
        _ => seq![t],
    }
}

pub open spec fn leaves_items(xs: Seq<Tree>) -> Seq<Tree>
    decreases xs, 1int,
{
    if xs.len() == 0 {
        Seq::empty()
    } else {
        leaves_items(xs.drop_last()) + leaves(xs.last())
    }
}

pub open spec fn leaves_entries(es: Seq<(Seq<char>, Tree)>) -> Seq<Tree>
    decreases es, 1int,
{
    if es.len() == 0 {
        Seq::empty()
    } else {
        leaves_entries(es.drop_last()) + leaves(es.last().1)
    }
}

/// Reads `t` with the tokens of `ts` from `pos` on.
pub fn nav_at(t: &Json, ts: &Vec<DotToken>, pos: usize, wild: bool) -> (r: Result<Vec<Json>, ParseError>)
    ensures
        items_result(r, nav_spec(t@, tviews(ts@), pos as int, wild)),
    decreases ts@.len() - pos, *t, 0int,
{
    let ghost tv = tviews(ts@);
    if pos >= ts.len() {
        return Err(ParseError::PathTraversal);
    }
    let last = pos + 1 == ts.len();
    assert(tv[pos as int] == ts@[pos as int]@);
    let mut out: Vec<Json> = Vec::new();
    assert(view_items(out@) =~= Seq::<Tree>::empty());
    match &ts[pos] {
        DotToken::Property(k) => match t {
            Json::Object(es) => {
                proof {
                    lemma_view_entries(es@);
                    lemma_key_index(view_entries(es@), k@);
                }
                match find_key(es, k.as_str()) {
                    Some(i) => {
                        if last {
                            let c = deep_copy(&es[i].1);
                            proof {
                                lemma_view_items_push(out@, c);
                            }
                            out.push(c);
                            Ok(out)
                        } else {
                            nav_at(&es[i].1, ts, pos + 1, wild)
                        }
                    },
                    None => if wild {
                        Ok(out)
                    } else {
                        Err(ParseError::PathTraversal)
                    },
                }
            },
            _ => if wild {
                Ok(out)
            } else {
                Err(ParseError::PathTraversal)
            },
        },
        DotToken::Index(n) => match t {
            Json::Array(xs) => {
                proof {
                    lemma_view_items(xs@);
                }
                if *n < xs.len() {
                    if last {
                        let c = deep_copy(&xs[*n]);
                        proof {
                            lemma_view_items_push(out@, c);
                        }
                        out.push(c);
                        Ok(out)
                    } else {
                        nav_at(&xs[*n], ts, pos + 1, wild)
                    }
                } else if wild {
                    Ok(out)
                } else {
                    Err(ParseError::PathTraversal)
                }
            },
            _ => if wild {
                Ok(out)
            } else {
                Err(ParseError::PathTraversal)
            },
        },
        DotToken::Wildcard(Wildcard::Once) => match t {
            Json::Object(es) => Ok(nav_entries_at(es, ts, pos + 1)),
            Json::Array(xs) => Ok(nav_items_at(xs, ts, pos + 1)),
            _ => if wild {
                Ok(out)
            } else {
                Err(ParseError::PathTraversal)
            },
        },
        DotToken::Wildcard(Wildcard::UntilNext) => match t {
            Json::Object(_) => if last {
                Ok(leaves_at(t))
            } else {
                Ok(until_nav_at(t, ts, pos + 1))
            },
            Json::Array(_) => if last {
                Ok(leaves_at(t))
            } else {
                Ok(until_nav_at(t, ts, pos + 1))
            },
            _ => if wild {
                Ok(out)
            } else {
                Err(ParseError::PathTraversal)
            },
        },
    }
}

fn nav_rest_at(c: &Json, ts: &Vec<DotToken>, pos: usize) -> (r: Vec<Json>)
    ensures
        view_items(r@) == nav_rest(c@, tviews(ts@), pos as int),
    decreases ts@.len() - pos, *c, 1int,
{
    if pos >= ts.len() {
        let mut out: Vec<Json> = Vec::new();
        let d = deep_copy(c);
        proof {
            lemma_view_items_push(out@, d);
            assert(view_items(out@) =~= Seq::<Tree>::empty());
        }
        out.push(d);
        assert(view_items(out@) =~= seq![c@]);
        out
    } else {
        match nav_at(c, ts, pos, true) {
            Ok(r) => r,
            Err(_) => {
                let out: Vec<Json> = Vec::new();
                assert(view_items(out@) =~= Seq::<Tree>::empty());
                out
            },
        }
    }
}

fn nav_items_at(xs: &Vec<Json>, ts: &Vec<DotToken>, pos: usize) -> (r: Vec<Json>)
    ensures
        view_items(r@) == nav_items(view_items(xs@), tviews(ts@), pos as int),
    decreases ts@.len() - pos, *xs, 2int,
{
    let mut out: Vec<Json> = Vec::new();
    assert(view_items(out@) =~= Seq::<Tree>::empty());
    let mut i: usize = 0;
    while i < xs.len()
        invariant
            i <= xs@.len(),
            view_items(out@) == nav_items(view_items(xs@.subrange(0, i as int)), tviews(ts@), pos as int),
        decreases xs@.len() - i,
    {
        proof {
            assert(decreases_to!(*xs => xs[i as int]));
            lemma_view_items_prefix(xs@, i as int);
            let p = view_items(xs@.subrange(0, i + 1));
            assert(p.drop_last() == view_items(xs@.subrange(0, i as int)));
        }
        let mut sub = nav_rest_at(&xs[i], ts, pos);
        append_items(&mut out, &mut sub);
        i = i + 1;
    }
    assert(xs@.subrange(0, i as int) =~= xs@);
    out
}

fn nav_entries_at(es: &Vec<(String, Json)>, ts: &Vec<DotToken>, pos: usize) -> (r: Vec<Json>)
    ensures
        view_items(r@) == nav_entries(view_entries(es@), tviews(ts@), pos as int),
    decreases ts@.len() - pos, *es, 2int,
{
    let mut out: Vec<Json> = Vec::new();
    assert(view_items(out@) =~= Seq::<Tree>::empty());
    let mut i: usize = 0;
    while i < es.len()
        invariant
            i <= es@.len(),
            view_items(out@) == nav_entries(view_entries(es@.subrange(0, i as int)), tviews(ts@), pos as int),
        decreases es@.len() - i,
    {
        proof {
            assert(decreases_to!(*es => es[i as int]));
            lemma_view_entries_prefix(es@, i as int);
            let p = view_entries(es@.subrange(0, i + 1));
            assert(p.drop_last() == view_entries(es@.subrange(0, i as int)));
        }
        let mut sub = nav_rest_at(&es[i].1, ts, pos);
        append_items(&mut out, &mut sub);
        i = i + 1;
    }
    assert(es@.subrange(0, i as int) =~= es@);
    out
}

fn until_here_at(t: &Json, ts: &Vec<DotToken>, pos: usize) -> (r: Vec<Json>)
    ensures
        view_items(r@) == until_here(t@, tviews(ts@), pos as int),
    decreases ts@.len() - pos, *t, 3int,
{
    let ghost tv = tviews(ts@);
    let out: Vec<Json> = Vec::new();
    assert(view_items(out@) =~= Seq::<Tree>::empty());
    if pos >= ts.len() {
        return out;
    }
    assert(tv[pos as int] == ts@[pos as int]@);
    match t {
        Json::Object(es) => {
            let key = match &ts[pos] {
                DotToken::Property(k) => Some(owned(k.as_str())),
                DotToken::Index(n) => {
                    let mut s = String::new();
                    push_decimal(&mut s, *n);
                    assert(s@ =~= decimal(*n as nat));
                    Some(s)
                },
                _ => None,
            };
            match key {
                Some(k) => {
                    proof {
                        lemma_view_entries(es@);
                        lemma_key_index(view_entries(es@), k@);
                    }
                    match find_key(es, k.as_str()) {
                        Some(i) => nav_rest_at(&es[i].1, ts, pos + 1),
                        None => out,
                    }
                },
                None => out,
            }
        },
        Json::Array(xs) => {
            proof {
                lemma_view_items(xs@);
            }
            match &ts[pos] {
                DotToken::Index(n) => if *n < xs.len() {
                    nav_rest_at(&xs[*n], ts, pos + 1)
                } else {
                    out
                },
                _ => out,
            }
        },
        _ => out,
    }
}

fn until_nav_at(t: &Json, ts: &Vec<DotToken>, pos: usize) -> (r: Vec<Json>)
    ensures
        view_items(r@) == until_nav(t@, tviews(ts@), pos as int),
    decreases ts@.len() - pos, *t, 4int,
{
    let mut out = until_here_at(t, ts, pos);
    match t {
        Json::Object(es) => {
            let mut sub = until_nav_entries_at(es, ts, pos);
            append_items(&mut out, &mut sub);
        },
        Json::Array(xs) => {
            let mut sub = until_nav_items_at(xs, ts, pos);
            append_items(&mut out, &mut sub);
        },
        _ => {
            assert(view_items(out@) + Seq::<Tree>::empty() =~= view_items(out@));
        },
    }
    out
}

fn until_nav_items_at(xs: &Vec<Json>, ts: &Vec<DotToken>, pos: usize) -> (r: Vec<Json>)
    ensures
        view_items(r@) == until_nav_items(view_items(xs@), tviews(ts@), pos as int),
    decreases ts@.len() - pos, *xs, 5int,
{
    let mut out: Vec<Json> = Vec::new();
    assert(view_items(out@) =~= Seq::<Tree>::empty());
    let mut i: usize = 0;
    while i < xs.len()
        invariant
            i <= xs@.len(),
            view_items(out@) == until_nav_items(view_items(xs@.subrange(0, i as int)), tviews(ts@), pos as int),
        decreases xs@.len() - i,
    {
        proof {
            assert(decreases_to!(*xs => xs[i as int]));
            lemma_view_items_prefix(xs@, i as int);
            let p = view_items(xs@.subrange(0, i + 1));
            assert(p.drop_last() == view_items(xs@.subrange(0, i as int)));
        }
        let mut sub = until_nav_at(&xs[i], ts, pos);
        append_items(&mut out, &mut sub);
        i = i + 1;
    }
    assert(xs@.subrange(0, i as int) =~= xs@);
    out
}

fn until_nav_entries_at(es: &Vec<(String, Json)>, ts: &Vec<DotToken>, pos: usize) -> (r: Vec<Json>)
    ensures
        view_items(r@) == until_nav_entries(view_entries(es@), tviews(ts@), pos as int),
    decreases ts@.len() - pos, *es, 5int,
{
    let mut out: Vec<Json> = Vec::new();
    assert(view_items(out@) =~= Seq::<Tree>::empty());
    let mut i: usize = 0;
    while i < es.len()
        invariant
            i <= es@.len(),
            view_items(out@) == until_nav_entries(view_entries(es@.subrange(0, i as int)), tviews(ts@), pos as int),
        decreases es@.len() - i,
    {
        proof {
            assert(decreases_to!(*es => es[i as int]));
            lemma_view_entries_prefix(es@, i as int);
            let p = view_entries(es@.subrange(0, i + 1));
            assert(p.drop_last() == view_entries(es@.subrange(0, i as int)));
        }
        let mut sub = until_nav_at(&es[i].1, ts, pos);
        append_items(&mut out, &mut sub);
        i = i + 1;
    }
    assert(es@.subrange(0, i as int) =~= es@);
    out
}

fn leaves_at(t: &Json) -> (r: Vec<Json>)
    ensures
        view_items(r@) == leaves(t@),
    decreases *t, 0int,
{
    match t {
        Json::Object(es) => {
            assert(decreases_to!(*t => *es));
            leaves_entries_at(es)
        },
        Json::Array(xs) => {
            assert(decreases_to!(*t => *xs));
            leaves_items_at(xs)
        },
        _ => {
            let mut out: Vec<Json> = Vec::new();
            let d = deep_copy(t);
            proof {
                lemma_view_items_push(out@, d);
            }
            out.push(d);
            assert(view_items(out@) =~= seq![t@]) by {
                assert(view_items(Seq::<Json>::empty()) =~= Seq::<Tree>::empty());
            }
            out
        },
    }
}

fn leaves_items_at(xs: &Vec<Json>) -> (r: Vec<Json>)
    ensures
        view_items(r@) == leaves_items(view_items(xs@)),
    decreases *xs, 1int,
{
    let mut out: Vec<Json> = Vec::new();
    assert(view_items(out@) =~= Seq::<Tree>::empty());
    let mut i: usize = 0;
    while i < xs.len()
        invariant
            i <= xs@.len(),
            view_items(out@) == leaves_items(view_items(xs@.subrange(0, i as int))),
        decreases xs@.len() - i,
    {
        proof {
            assert(decreases_to!(*xs => xs[i as int]));
            lemma_view_items_prefix(xs@, i as int);
            let p = view_items(xs@.subrange(0, i + 1));
            assert(p.drop_last() == view_items(xs@.subrange(0, i as int)));
        }
        let mut sub = leaves_at(&xs[i]);
        append_items(&mut out, &mut sub);
        i = i + 1;
    }
    assert(xs@.subrange(0, i as int) =~= xs@);
    out
}

fn leaves_entries_at(es: &Vec<(String, Json)>) -> (r: Vec<Json>)
    ensures
        view_items(r@) == leaves_entries(view_entries(es@)),
    decreases *es, 1int,
{
    let mut out: Vec<Json> = Vec::new();
    assert(view_items(out@) =~= Seq::<Tree>::empty());
    let mut i: usize = 0;
    while i < es.len()
        invariant
            i <= es@.len(),
            view_items(out@) == leaves_entries(view_entries(es@.subrange(0, i as int))),
        decreases es@.len() - i,
    {
        proof {
            assert(decreases_to!(*es => es[i as int]));
            lemma_view_entries_prefix(es@, i as int);
            let p = view_entries(es@.subrange(0, i + 1));
            assert(p.drop_last() == view_entries(es@.subrange(0, i as int)));
        }
        let mut sub = leaves_at(&es[i].1);
        append_items(&mut out, &mut sub);
        i = i + 1;
    }
    assert(es@.subrange(0, i as int) =~= es@);
    out
}

impl Json {
    /// Copies of the values that `path` addresses, in document order.
    /// `in_wild` makes missing or mismatched steps give no values instead
    /// of an error.
    pub fn navigate(&self, path: DotPathStr, in_wild: bool) -> (r: Result<Vec<Json>, ParseError>)
        ensures
            items_result(r, nav_spec(self@, tokenize_spec(path.0@), 0, in_wild)),
    {
        let ts = match path.tokenize() {
            Ok(ts) => ts,
            Err(e) => {
                return Err(ParseError::PatchSyntax(e));
            },
        };
        nav_at(self, &ts, 0, in_wild)
    }
}

/// The conditions under which a `**` search for the literal at `q` ends the path.
pub open spec fn final_literal(ts: Seq<Token>, q: int) -> bool {
    0 <= q && q + 1 == ts.len() && is_literal(ts[q])
}

proof fn lemma_key_index_same_keys(a: Seq<(Seq<char>, Tree)>, b: Seq<(Seq<char>, Tree)>, k: Seq<char>)
    requires
        a.len() == b.len(),
        forall|i: int| 0 <= i < a.len() ==> #[trigger] a[i].0 == b[i].0,
    ensures
        key_index(a, k) == key_index(b, k),
    decreases a.len(),
{
    if a.len() > 0 {
        assert(a[0].0 == b[0].0);
        assert forall|i: int| 0 <= i < a.drop_first().len() implies #[trigger] a.drop_first()[i].0 == b.drop_first()[i].0 by {
            assert(a[i + 1].0 == b[i + 1].0);
        }
        lemma_key_index_same_keys(a.drop_first(), b.drop_first(), k);
    }
}

proof fn lemma_until_entries_char(es: Seq<(Seq<char>, Tree)>, ts: Seq<Token>, q: int, v: Option<Tree>)
    requires
        forall|j: int| 0 <= j < es.len() ==> until_patch(#[trigger] es[j].1, ts, q, v) is Some,
    ensures
        until_entries(es, ts, q, v) matches Some(r) && r.len() == es.len() && forall|j: int|
            0 <= j < es.len() ==> #[trigger] r[j].0 == es[j].0 && until_patch(es[j].1, ts, q, v) == Some(r[j].1),
    decreases es.len(),
{
    if es.len() > 0 {
        let p = es.drop_last();
        assert forall|j: int| 0 <= j < p.len() implies until_patch(#[trigger] p[j].1, ts, q, v) is Some by {
            assert(p[j] == es[j]);
        }
        lemma_until_entries_char(p, ts, q, v);
        let r0 = until_entries(p, ts, q, v)->0;
        let r = until_entries(es, ts, q, v)->0;
        assert(until_patch(es[es.len() - 1].1, ts, q, v) is Some);
        assert forall|j: int| 0 <= j < es.len() implies #[trigger] r[j].0 == es[j].0 && until_patch(es[j].1, ts, q, v) == Some(r[j].1) by {
            if j < p.len() {
                assert(r[j] == r0[j]);
                assert(p[j] == es[j]);
            }
        }
    }
}

proof fn lemma_until_items_char(xs: Seq<Tree>, ts: Seq<Token>, q: int, v: Option<Tree>)
    requires
        forall|j: int| 0 <= j < xs.len() ==> until_patch(#[trigger] xs[j], ts, q, v) is Some,
    ensures
        until_items(xs, ts, q, v) matches Some(r) && r.len() == xs.len() && forall|j: int|
            0 <= j < xs.len() ==> until_patch(#[trigger] xs[j], ts, q, v) == Some(r[j]),
    decreases xs.len(),
{
    if xs.len() > 0 {
        let p = xs.drop_last();
        assert forall|j: int| 0 <= j < p.len() implies until_patch(#[trigger] p[j], ts, q, v) is Some by {
            assert(p[j] == xs[j]);
        }
        lemma_until_items_char(p, ts, q, v);
        let r0 = until_items(p, ts, q, v)->0;
        let r = until_items(xs, ts, q, v)->0;
        assert(until_patch(xs[xs.len() - 1], ts, q, v) is Some);
        assert forall|j: int| 0 <= j < xs.len() implies until_patch(#[trigger] xs[j], ts, q, v) == Some(r[j]) by {
            if j < p.len() {
                assert(r[j] == r0[j]);
                assert(p[j] == xs[j]);
            }
        }
    }
}

/// Every value that the search reads below the entries is `x`.
proof fn lemma_nav_entries_all(es: Seq<(Seq<char>, Tree)>, ts: Seq<Token>, q: int, x: Tree)
    requires
        forall|j: int, m: int|
            0 <= j < es.len() && 0 <= m < until_nav(es[j].1, ts, q).len() ==> #[trigger] until_nav(es[j].1, ts, q)[m] == x,
    ensures
        forall|m: int| 0 <= m < until_nav_entries(es, ts, q).len() ==> #[trigger] until_nav_entries(es, ts, q)[m] == x,
    decreases es.len(),
{
    if es.len() > 0 {
        let p = es.drop_last();
        assert forall|j: int, m: int| 0 <= j < p.len() && 0 <= m < until_nav(p[j].1, ts, q).len() implies #[trigger] until_nav(p[j].1, ts, q)[m] == x by {
            assert(p[j] == es[j]);
        }
        lemma_nav_entries_all(p, ts, q, x);
        let a = until_nav_entries(p, ts, q);
        let b = until_nav(es[es.len() - 1].1, ts, q);
        assert forall|m: int| 0 <= m < (a + b).len() implies #[trigger] (a + b)[m] == x by {
            if m >= a.len() {
                assert(b[m - a.len()] == x);
            }
        }
    }
}

proof fn lemma_nav_items_all(xs: Seq<Tree>, ts: Seq<Token>, q: int, x: Tree)
    requires
        forall|j: int, m: int|
            0 <= j < xs.len() && 0 <= m < until_nav(xs[j], ts, q).len() ==> #[trigger] until_nav(xs[j], ts, q)[m] == x,
    ensures
        forall|m: int| 0 <= m < until_nav_items(xs, ts, q).len() ==> #[trigger] until_nav_items(xs, ts, q)[m] == x,
    decreases xs.len(),
{
    if xs.len() > 0 {
        let p = xs.drop_last();
        assert forall|j: int, m: int| 0 <= j < p.len() && 0 <= m < until_nav(p[j], ts, q).len() implies #[trigger] until_nav(p[j], ts, q)[m] == x by {
            assert(p[j] == xs[j]);
        }
        lemma_nav_items_all(p, ts, q, x);
        let a = until_nav_items(p, ts, q);
        let b = until_nav(xs[xs.len() - 1], ts, q);
        assert forall|m: int| 0 <= m < (a + b).len() implies #[trigger] (a + b)[m] == x by {
            if m >= a.len() {
                assert(b[m - a.len()] == x);
            }
        }
    }
}

/// The search below the entries finds something exactly when it does below one of them.
proof fn lemma_nav_entries_found(es: Seq<(Seq<char>, Tree)>, ts: Seq<Token>, q: int)
    ensures
        until_nav_entries(es, ts, q).len() > 0 <==> exists|j: int|
            0 <= j < es.len() && until_nav(#[trigger] es[j].1, ts, q).len() > 0,
    decreases es.len(),
{
    if es.len() > 0 {
        let p = es.drop_last();
        lemma_nav_entries_found(p, ts, q);
        if exists|j: int| 0 <= j < p.len() && until_nav(#[trigger] p[j].1, ts, q).len() > 0 {
            let j = choose|j: int| 0 <= j < p.len() && until_nav(#[trigger] p[j].1, ts, q).len() > 0;
            assert(p[j] == es[j]);
        }
        if exists|j: int| 0 <= j < es.len() && until_nav(#[trigger] es[j].1, ts, q).len() > 0 {
            let j = choose|j: int| 0 <= j < es.len() && until_nav(#[trigger] es[j].1, ts, q).len() > 0;
            if j < p.len() {
                assert(p[j] == es[j]);
            }
        }
    }
}

proof fn lemma_nav_items_found(xs: Seq<Tree>, ts: Seq<Token>, q: int)
    ensures
        until_nav_items(xs, ts, q).len() > 0 <==> exists|j: int|
            0 <= j < xs.len() && until_nav(#[trigger] xs[j], ts, q).len() > 0,
    decreases xs.len(),
{
    if xs.len() > 0 {
        let p = xs.drop_last();
        lemma_nav_items_found(p, ts, q);
        if exists|j: int| 0 <= j < p.len() && until_nav(#[trigger] p[j], ts, q).len() > 0 {
            let j = choose|j: int| 0 <= j < p.len() && until_nav(#[trigger] p[j], ts, q).len() > 0;
            assert(p[j] == xs[j]);
        }
        if exists|j: int| 0 <= j < xs.len() && until_nav(#[trigger] xs[j], ts, q).len() > 0 {
            let j = choose|j: int| 0 <= j < xs.len() && until_nav(#[trigger] xs[j], ts, q).len() > 0;
            if j < p.len() {
                assert(p[j] == xs[j]);
            }
        }
    }
}

/// The `**` search and the `**` patch for a final literal, below any node.
proof fn lemma_until_scope(t: Tree, ts: Seq<Token>, q: int, x: Tree)
    requires
        final_literal(ts, q),
        until_nav(x, ts, q).len() == 0,
    ensures
        until_patch(t, ts, q, Some(x)) matches Some(t2) && {
            &&& (t is Object <==> t2 is Object)
            &&& (t is Array <==> t2 is Array)
            &&& forall|m: int| 0 <= m < until_nav(t2, ts, q).len() ==> #[trigger] until_nav(t2, ts, q)[m] == x
            &&& (until_nav(t2, ts, q).len() > 0 <==> until_nav(t, ts, q).len() > 0)
        },
    decreases t,
{
    match t {
        Tree::Object(es) => {
            assert forall|j: int| 0 <= j < es.len() implies until_patch(#[trigger] es[j].1, ts, q, Some(x)) is Some by {
                lemma_until_scope(es[j].1, ts, q, x);
            }
            lemma_until_entries_char(es, ts, q, Some(x));
            let es1 = until_entries(es, ts, q, Some(x))->0;
            let k = lit_key(ts[q])->0;
            lemma_key_index_same_keys(es, es1, k);
            crate::json::lemma_key_index(es, k);
            let t2 = until_patch(t, ts, q, Some(x))->0;
            match key_index(es1, k) {
                Some(i) => {
                    let es2 = es1.update(i, (k, x));
                    assert(set_entry(es1, k, Some(x)) == es2);
                    assert(t2 == Tree::Object(es2));
                    assert forall|j: int| 0 <= j < es1.len() implies #[trigger] es1[j].0 == es2[j].0 by {
                        if j == i {
                            crate::json::lemma_key_index(es1, k);
                        }
                    }
                    lemma_key_index_same_keys(es1, es2, k);
                    assert(crate::json::lookup(es2, k) == Some(x));
                    assert(until_here(t2, ts, q) == seq![x]);
                    assert(until_here(t, ts, q).len() > 0);
                    assert forall|j: int, m: int| 0 <= j < es2.len() && 0 <= m < until_nav(es2[j].1, ts, q).len() implies #[trigger] until_nav(es2[j].1, ts, q)[m] == x by {
                        if j != i {
                            lemma_until_scope(es[j].1, ts, q, x);
                            assert(es1[j].0 == es[j].0);
                            assert(until_patch(es[j].1, ts, q, Some(x)) == Some(es1[j].1));
                            assert(es2[j] == es1[j]);
                        }
                    }
                    lemma_nav_entries_all(es2, ts, q, x);
                    let a = until_here(t2, ts, q);
                    let b = until_nav_entries(es2, ts, q);
                    assert forall|m: int| 0 <= m < (a + b).len() implies #[trigger] (a + b)[m] == x by {
                        if m >= a.len() {
                            assert(b[m - a.len()] == x);
                        }
                    }
                },
                None => {
                    assert(t2 == Tree::Object(es1));
                    assert(until_here(t2, ts, q).len() == 0);
                    assert(until_here(t, ts, q).len() == 0);
                    assert forall|j: int, m: int| 0 <= j < es1.len() && 0 <= m < until_nav(es1[j].1, ts, q).len() implies #[trigger] until_nav(es1[j].1, ts, q)[m] == x by {
                        lemma_until_scope(es[j].1, ts, q, x);
                        assert(es1[j].0 == es[j].0);
                        assert(until_patch(es[j].1, ts, q, Some(x)) == Some(es1[j].1));
                    }
                    lemma_nav_entries_all(es1, ts, q, x);
                    assert(until_nav(t2, ts, q) =~= until_nav_entries(es1, ts, q));
                    assert(until_nav(t, ts, q) =~= until_nav_entries(es, ts, q));
                    lemma_nav_entries_found(es1, ts, q);
                    lemma_nav_entries_found(es, ts, q);
                    assert forall|j: int| 0 <= j < es.len() implies (until_nav(#[trigger] es1[j].1, ts, q).len() > 0 <==> until_nav(es[j].1, ts, q).len() > 0) by {
                        lemma_until_scope(es[j].1, ts, q, x);
                        assert(es1[j].0 == es[j].0);
                        assert(until_patch(es[j].1, ts, q, Some(x)) == Some(es1[j].1));
                    }
                    if until_nav(t, ts, q).len() > 0 {
                        let j = choose|j: int| 0 <= j < es.len() && until_nav(#[trigger] es[j].1, ts, q).len() > 0;
                        assert(until_nav(es1[j].1, ts, q).len() > 0);
                    }
                    if until_nav(t2, ts, q).len() > 0 {
                        let j = choose|j: int| 0 <= j < es1.len() && until_nav(#[trigger] es1[j].1, ts, q).len() > 0;
                        assert(until_nav(es[j].1, ts, q).len() > 0);
                    }
                },
            }
        },
        Tree::Array(xs) => {
            assert forall|j: int| 0 <= j < xs.len() implies until_patch(#[trigger] xs[j], ts, q, Some(x)) is Some by {
                lemma_until_scope(xs[j], ts, q, x);
            }
            lemma_until_items_char(xs, ts, q, Some(x));
            let xs1 = until_items(xs, ts, q, Some(x))->0;
            let t2 = until_patch(t, ts, q, Some(x))->0;
            let hit = match ts[q] {
                Token::Idx(n) => n < xs.len(),
                _ => false,
            };
            if hit {
                let n = ts[q]->Idx_0 as int;
                let xs2 = xs1.update(n, x);
                assert(set_item(xs1, n, Some(x)) == xs2);
                assert(t2 == Tree::Array(xs2));
                assert(until_here(t2, ts, q) == seq![x]);
                assert(until_here(t, ts, q).len() > 0);
                assert forall|j: int, m: int| 0 <= j < xs2.len() && 0 <= m < until_nav(xs2[j], ts, q).len() implies #[trigger] until_nav(xs2[j], ts, q)[m] == x by {
                    if j != n {
                        lemma_until_scope(xs[j], ts, q, x);
                    }
                }
                lemma_nav_items_all(xs2, ts, q, x);
                let a = until_here(t2, ts, q);
                let b = until_nav_items(xs2, ts, q);
                assert forall|m: int| 0 <= m < (a + b).len() implies #[trigger] (a + b)[m] == x by {
                    if m >= a.len() {
                        assert(b[m - a.len()] == x);
                    }
                }
            } else {
                assert(t2 == Tree::Array(xs1));
                assert(until_here(t2, ts, q).len() == 0);
                assert(until_here(t, ts, q).len() == 0);
                assert forall|j: int, m: int| 0 <= j < xs1.len() && 0 <= m < until_nav(xs1[j], ts, q).len() implies #[trigger] until_nav(xs1[j], ts, q)[m] == x by {
                    lemma_until_scope(xs[j], ts, q, x);
                }
                lemma_nav_items_all(xs1, ts, q, x);
                assert(until_nav(t2, ts, q) =~= until_nav_items(xs1, ts, q));
                assert(until_nav(t, ts, q) =~= until_nav_items(xs, ts, q));
                lemma_nav_items_found(xs1, ts, q);
                lemma_nav_items_found(xs, ts, q);
                assert forall|j: int| 0 <= j < xs.len() implies (until_nav(#[trigger] xs1[j], ts, q).len() > 0 <==> until_nav(xs[j], ts, q).len() > 0) by {
                    lemma_until_scope(xs[j], ts, q, x);
                }
                if until_nav(t, ts, q).len() > 0 {
                    let j = choose|j: int| 0 <= j < xs.len() && until_nav(#[trigger] xs[j], ts, q).len() > 0;
                    assert(until_nav(xs1[j], ts, q).len() > 0);
                }
                if until_nav(t2, ts, q).len() > 0 {
                    let j = choose|j: int| 0 <= j < xs1.len() && until_nav(#[trigger] xs1[j], ts, q).len() > 0;
                    assert(until_nav(xs[j], ts, q).len() > 0);
                }
            }
        },
        _ => {
            assert(until_nav(t, ts, q) =~= Seq::<Tree>::empty());
        },
    }
}

/// Reading and patching through `**.k` reach the same places: on a document
/// (an object or an array) the patch with a value `x` that itself holds no
/// `k` cannot fail; afterwards every value the read finds is `x`, and the
/// read finds something exactly when it found something before.
pub proof fn lemma_until_next_read_write_scope(t: Tree, ts: Seq<Token>, x: Tree, wild: bool)
    requires
        ts.len() == 2,
        ts[0] == Token::UntilNext,
        is_literal(ts[1]),
        t is Object || t is Array,
        until_nav(x, ts, 1).len() == 0,
    ensures
        patch_spec(t, ts, 0, Some(x)) matches Some(t2) && nav_spec(t, ts, 0, wild) matches Some(before)
            && nav_spec(t2, ts, 0, wild) matches Some(after) && (forall|m: int|
            0 <= m < after.len() ==> #[trigger] after[m] == x) && (after.len() > 0 <==> before.len() > 0),
{
    lemma_until_scope(t, ts, 1, x);
}

} // verus!
