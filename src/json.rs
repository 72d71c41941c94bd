//! A generic tree value: null, booleans, numbers, strings, arrays and
//! objects whose entries keep their order of insertion.
use vstd::prelude::*;
use crate::text::{owned, str_eq};

verus! {

broadcast use vstd::std_specs::vec::group_vec_axioms;

/// A tree-structured document value.
///
/// A number is held as its JSON text (`"3"`, `"-1.5e3"`), which is all the
/// logic here ever reads of it.
#[derive(Debug)]
pub enum Json {
    Null,
    Bool(bool),
    Number(String),
    String(String),
    Array(Vec<Json>),
    Object(Vec<(String, Json)>),
}

/// The mathematical value of a [`Json`].
pub enum Tree {
    Null,
    Bool(bool),
    Number(Seq<char>),
    Str(Seq<char>),
    Array(Seq<Tree>),
    Object(Seq<(Seq<char>, Tree)>),
}

pub open spec fn view_items(s: Seq<Json>) -> Seq<Tree>
    decreases s,
{
    if s.len() == 0 {
        Seq::empty()
    } else {
        view_items(s.drop_last()).push(view_json(s.last()))
    }
}

pub open spec fn view_entries(s: Seq<(String, Json)>) -> Seq<(Seq<char>, Tree)>
    decreases s,
{
    if s.len() == 0 {
        Seq::empty()
    } else {
        view_entries(s.drop_last()).push((s.last().0@, view_json(s.last().1)))
    }
}

pub open spec fn view_json(j: Json) -> Tree
    decreases j,
{
    match j {
        Json::Null => Tree::Null,
        Json::Bool(b) => Tree::Bool(b),
        Json::Number(n) => Tree::Number(n@),
        Json::String(s) => Tree::Str(s@),
        Json::Array(v) => Tree::Array(view_items(v@)),
        Json::Object(v) => Tree::Object(view_entries(v@)),
    }
}

impl View for Json {
    type V = Tree;

    open spec fn view(&self) -> Tree {
        view_json(*self)
    }
}

pub proof fn lemma_view_items(s: Seq<Json>)
    ensures
        view_items(s).len() == s.len(),
        forall|i: int| 0 <= i < s.len() ==> #[trigger] view_items(s)[i] == view_json(s[i]),
    decreases s.len(),
{
    if s.len() > 0 {
        lemma_view_items(s.drop_last());
    }
}

pub proof fn lemma_view_entries(s: Seq<(String, Json)>)
    ensures
        view_entries(s).len() == s.len(),
        forall|i: int|
            0 <= i < s.len() ==> #[trigger] view_entries(s)[i] == (s[i].0@, view_json(s[i].1)),
    decreases s.len(),
{
    if s.len() > 0 {
        lemma_view_entries(s.drop_last());
    }
}

/// Position of the first entry with key `k`, if any.
pub open spec fn key_index(es: Seq<(Seq<char>, Tree)>, k: Seq<char>) -> Option<int>
    decreases es.len(),
{
    if es.len() == 0 {
        None
    } else if es[0].0 == k {
        Some(0)
    } else {
        match key_index(es.drop_first(), k) {
            Some(i) => Some(i + 1),
            None => None,
        }
    }
}

pub proof fn lemma_key_index(es: Seq<(Seq<char>, Tree)>, k: Seq<char>)
    ensures
        key_index(es, k) matches Some(i) ==> 0 <= i < es.len() && es[i].0 == k && forall|j: int|
            0 <= j < i ==> es[j].0 != k,
        key_index(es, k) is None ==> forall|j: int| 0 <= j < es.len() ==> es[j].0 != k,
    decreases es.len(),
{
    if es.len() > 0 {
        lemma_key_index(es.drop_first(), k);
        if es[0].0 != k {
            assert forall|j: int| 1 <= j < es.len() implies es[j] == es.drop_first()[j - 1] by {}
        }
    }
}

/// The value stored under `k` in an object, if any.
pub open spec fn lookup(es: Seq<(Seq<char>, Tree)>, k: Seq<char>) -> Option<Tree> {
    match key_index(es, k) {
        Some(i) => Some(es[i].1),
        None => None,
    }
}

/// Object entries with `k` set to `v`: replaced in place, or added at the end.
pub open spec fn put(es: Seq<(Seq<char>, Tree)>, k: Seq<char>, v: Tree) -> Seq<(Seq<char>, Tree)> {
    match key_index(es, k) {
        Some(i) => es.update(i, (k, v)),
        None => es.push((k, v)),
    }
}

/// Object entries with every entry for `k` taken out.
pub open spec fn delete(es: Seq<(Seq<char>, Tree)>, k: Seq<char>) -> Seq<(Seq<char>, Tree)>
    decreases es.len(),
{
    if es.len() == 0 {
        es
    } else {
        delete(es.drop_last(), k) + if es.last().0 == k {
            Seq::empty()
        } else {
            seq![es.last()]
        }
    }
}

/// Deep copy of a value.
pub fn deep_copy(j: &Json) -> (r: Json)
    ensures
        r@ == j@,
    decreases j,
{
    match j {
        Json::Null => Json::Null,
        Json::Bool(b) => Json::Bool(*b),
        Json::Number(n) => Json::Number(owned(n.as_str())),
        Json::String(s) => Json::String(owned(s.as_str())),
        Json::Array(v) => {
            assert(decreases_to!(*j => *v));
            Json::Array(copy_items(v))
        },
        Json::Object(v) => {
            assert(decreases_to!(*j => *v));
            Json::Object(copy_entries(v))
        },
    }
}

/// Deep copy of a sequence of values.
pub fn copy_items(v: &Vec<Json>) -> (r: Vec<Json>)
    ensures
        view_items(r@) == view_items(v@),
    decreases v,
{
    let mut out: Vec<Json> = Vec::new();
    let mut i: usize = 0;
    while i < v.len()
        invariant
            i <= v@.len(),
            view_items(out@) == view_items(v@.subrange(0, i as int)),
        decreases v@.len() - i,
    {
        proof {
            assert(decreases_to!(*v => v[i as int]));
        }
        let c = deep_copy(&v[i]);
        proof {
            lemma_view_items_prefix(v@, i as int);
        }
        let ghost o = out@;
        out.push(c);
        assert(out@.drop_last() =~= o);
        i = i + 1;
    }
    assert(v@.subrange(0, v@.len() as int) =~= v@);
    out
}

/// Deep copy of the entries of an object.
pub fn copy_entries(v: &Vec<(String, Json)>) -> (r: Vec<(String, Json)>)
    ensures
        view_entries(r@) == view_entries(v@),
    decreases v,
{
    let mut out: Vec<(String, Json)> = Vec::new();
    let mut i: usize = 0;
    while i < v.len()
        invariant
            i <= v@.len(),
            view_entries(out@) == view_entries(v@.subrange(0, i as int)),
        decreases v@.len() - i,
    {
        proof {
            assert(decreases_to!(*v => v[i as int]));
        }
        let c = deep_copy(&v[i].1);
        let k = owned(v[i].0.as_str());
        proof {
            lemma_view_entries_prefix(v@, i as int);
        }
        let ghost o = out@;
        out.push((k, c));
        assert(out@.drop_last() =~= o);
        i = i + 1;
    }
    assert(v@.subrange(0, v@.len() as int) =~= v@);
    out
}

pub proof fn lemma_view_items_prefix(s: Seq<Json>, i: int)
    requires
        0 <= i < s.len(),
    ensures
        view_items(s.subrange(0, i + 1)) == view_items(s.subrange(0, i)).push(view_json(s[i])),
{
    assert(s.subrange(0, i + 1).drop_last() =~= s.subrange(0, i));
}

pub proof fn lemma_view_entries_prefix(s: Seq<(String, Json)>, i: int)
    requires
        0 <= i < s.len(),
    ensures
        view_entries(s.subrange(0, i + 1)) == view_entries(s.subrange(0, i)).push(
            (s[i].0@, view_json(s[i].1)),
        ),
{
    assert(s.subrange(0, i + 1).drop_last() =~= s.subrange(0, i));
}

pub proof fn lemma_view_items_push(s: Seq<Json>, x: Json)
    ensures
        view_items(s.push(x)) == view_items(s).push(view_json(x)),
{
    assert(s.push(x).drop_last() =~= s);
}

pub proof fn lemma_view_entries_push(s: Seq<(String, Json)>, x: (String, Json))
    ensures
        view_entries(s.push(x)) == view_entries(s).push((x.0@, view_json(x.1))),
{
    assert(s.push(x).drop_last() =~= s);
}

pub proof fn lemma_view_items_update(s: Seq<Json>, i: int, x: Json)
    requires
        0 <= i < s.len(),
    ensures
        view_items(s.update(i, x)) == view_items(s).update(i, view_json(x)),
{
    lemma_view_items(s);
    lemma_view_items(s.update(i, x));
    assert(view_items(s.update(i, x)) =~= view_items(s).update(i, view_json(x)));
}

pub proof fn lemma_view_entries_update(s: Seq<(String, Json)>, i: int, x: (String, Json))
    requires
        0 <= i < s.len(),
    ensures
        view_entries(s.update(i, x)) == view_entries(s).update(i, (x.0@, view_json(x.1))),
{
    lemma_view_entries(s);
    lemma_view_entries(s.update(i, x));
    assert(view_entries(s.update(i, x)) =~= view_entries(s).update(i, (x.0@, view_json(x.1))));
}

pub proof fn lemma_view_items_remove(s: Seq<Json>, i: int)
    requires
        0 <= i < s.len(),
    ensures
        view_items(s.remove(i)) == view_items(s).remove(i),
{
    lemma_view_items(s);
    lemma_view_items(s.remove(i));
    assert(view_items(s.remove(i)) =~= view_items(s).remove(i));
}

pub proof fn lemma_view_entries_remove(s: Seq<(String, Json)>, i: int)
    requires
        0 <= i < s.len(),
    ensures
        view_entries(s.remove(i)) == view_entries(s).remove(i),
{
    lemma_view_entries(s);
    lemma_view_entries(s.remove(i));
    assert(view_entries(s.remove(i)) =~= view_entries(s).remove(i));
}

pub proof fn lemma_view_items_concat(a: Seq<Json>, b: Seq<Json>)
    ensures
        view_items(a + b) == view_items(a) + view_items(b),
{
    lemma_view_items(a);
    lemma_view_items(b);
    lemma_view_items(a + b);
    assert(view_items(a + b) =~= view_items(a) + view_items(b));
}

/// Appends `other` to `out`, emptying it.
pub fn append_items(out: &mut Vec<Json>, other: &mut Vec<Json>)
    ensures
        view_items(final(out)@) == view_items(old(out)@) + view_items(old(other)@),
{
    proof {
        lemma_view_items_concat(out@, other@);
    }
    out.append(other);
}

/// Sets `k` to `x` in an object's entries.
pub fn entries_put(es: &mut Vec<(String, Json)>, k: &str, x: Json)
    ensures
        view_entries(final(es)@) == put(view_entries(old(es)@), k@, x@),
{
    proof {
        lemma_view_entries(es@);
    }
    match find_key(es, k) {
        Some(i) => {
            let e = (owned(k), x);
            proof {
                lemma_key_index(view_entries(es@), k@);
                lemma_view_entries_update(es@, i as int, e);
            }
            es.set(i, e);
        },
        None => {
            let e = (owned(k), x);
            proof {
                lemma_view_entries_push(es@, e);
            }
            es.push(e);
        },
    }
}

/// Takes the entry for `k` out of an object's entries.
pub fn entries_delete(es: &mut Vec<(String, Json)>, k: &str)
    ensures
        view_entries(final(es)@) == delete(view_entries(old(es)@), k@),
{
    let ghost orig = es@;
    let n = es.len();
    let mut out: Vec<(String, Json)> = Vec::new();
    let mut c: usize = 0;
    assert(view_entries(out@) =~= delete(view_entries(orig.subrange(0, 0)), k@));
    while c < n
        invariant
            n == orig.len(),
            c <= n,
            es@ == orig.subrange(c as int, n as int),
            view_entries(out@) == delete(view_entries(orig.subrange(0, c as int)), k@),
        decreases n - c,
    {
        let e = es.remove(0);
        assert(e == orig[c as int]);
        proof {
            lemma_view_entries_prefix(orig, c as int);
        }
        let ghost pre = view_entries(orig.subrange(0, c as int));
        let ghost post = view_entries(orig.subrange(0, c + 1));
        assert(post.drop_last() == pre);
        if !str_eq(e.0.as_str(), k) {
            let ghost o = out@;
            proof {
                lemma_view_entries_push(o, e);
            }
            out.push(e);
        } else {
            assert(delete(post, k@) =~= delete(pre, k@));
        }
        assert(es@ =~= orig.subrange(c + 1, n as int));
        c = c + 1;
    }
    assert(orig.subrange(0, n as int) =~= orig);
    *es = out;
}

/// Finds the first entry with key `k`.
pub fn find_key(es: &Vec<(String, Json)>, k: &str) -> (r: Option<usize>)
    ensures
        r matches Some(i) ==> key_index(view_entries(es@), k@) == Some(i as int),
        r is None ==> key_index(view_entries(es@), k@) is None,
{
    proof {
        lemma_view_entries(es@);
        lemma_key_index(view_entries(es@), k@);
    }
    let mut i: usize = 0;
    while i < es.len()
        invariant
            i <= es@.len(),
            view_entries(es@).len() == es@.len(),
            forall|j: int| 0 <= j < es@.len() ==> #[trigger] view_entries(es@)[j] == (es@[j].0@, view_json(es@[j].1)),
            forall|j: int| 0 <= j < i ==> view_entries(es@)[j].0 != k@,
            key_index(view_entries(es@), k@) matches Some(x) ==> i <= x && x < es@.len()
                && view_entries(es@)[x].0 == k@ && forall|j: int|
                0 <= j < x ==> view_entries(es@)[j].0 != k@,
            key_index(view_entries(es@), k@) is None ==> forall|j: int|
                0 <= j < es@.len() ==> view_entries(es@)[j].0 != k@,
        decreases es@.len() - i,
    {
        if str_eq(es[i].0.as_str(), k) {
            assert(view_entries(es@)[i as int].0 == k@);
            return Some(i);
        }
        i = i + 1;
    }
    None
}

impl Json {
    /// A string value.
    pub fn string(s: &str) -> (r: Json)
        ensures
            r@ == Tree::Str(s@),
    {
        Json::String(owned(s))
    }

    /// A number value from its JSON text.
    pub fn number(s: &str) -> (r: Json)
        ensures
            r@ == Tree::Number(s@),
    {
        Json::Number(owned(s))
    }

    /// The value under `key` when `self` is an object that has it.
    pub fn get(&self, key: &str) -> (r: Option<&Json>)
        ensures
            match self@ {
                Tree::Object(es) => match lookup(es, key@) {
                    Some(v) => r matches Some(x) && x@ == v,
                    None => r is None,
                },
                _ => r is None,
            },
    {
        match self {
            Json::Object(es) => {
                match find_key(es, key) {
                    Some(i) => {
                        proof {
                            lemma_view_entries(es@);
                            lemma_key_index(view_entries(es@), key@);
                        }
                        Some(&es[i].1)
                    },
                    None => None,
                }
            },
            _ => None,
        }
    }

    /// The text of a string value.
    pub fn as_str(&self) -> (r: Option<&str>)
        ensures
            match self@ {
                Tree::Str(s) => r matches Some(x) && x@ == s,
                _ => r is None,
            },
    {
        match self {
            Json::String(s) => Some(s.as_str()),
            _ => None,
        }
    }
}

} // verus!
