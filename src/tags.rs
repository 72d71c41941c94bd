//! The tag resolution pass: filter, default, normalize and order the tags of
//! every operation of a document.
use vstd::prelude::*;
use crate::endpoint::contains_str;
use crate::openapi::{OpenApiSpec, Operation, PathItem, Tag};
use crate::order::{sort_tags, tags_sorted};
use crate::text::{
    is_prefix, lower_text, lower_text_of, owned, split_on, split_seq, starts_with, views,
};

verus! {

broadcast use vstd::std_specs::vec::group_vec_axioms;

pub open spec fn opt_tags(o: Option<Operation>) -> Seq<Seq<char>> {
    match o {
        Some(op) => views(op.tags@),
        None => Seq::empty(),
    }
}

/// The tags of a path item's operations, in the order GET, POST, PUT,
/// DELETE, PATCH, OPTIONS, HEAD, TRACE.
pub open spec fn item_tags(p: PathItem) -> Seq<Seq<char>> {
    opt_tags(p.get) + opt_tags(p.post) + opt_tags(p.put) + opt_tags(p.delete) + opt_tags(p.patch)
        + opt_tags(p.options) + opt_tags(p.head) + opt_tags(p.trace)
}

/// Every tag of every operation of a document, with repeats.
pub open spec fn doc_tags(paths: Seq<(String, PathItem)>) -> Seq<Seq<char>>
    decreases paths.len(),
{
    if paths.len() == 0 {
        Seq::empty()
    } else {
        doc_tags(paths.drop_last()) + item_tags(paths.last().1)
    }
}

/// How often `t` occurs in `s`.
pub open spec fn count_in(s: Seq<Seq<char>>, t: Seq<char>) -> nat
    decreases s.len(),
{
    if s.len() == 0 {
        0
    } else {
        count_in(s.drop_last(), t) + if s.last() == t {
            1nat
        } else {
            0nat
        }
    }
}

/// A tag stays when it is used more than once in the document, or names a plugin.
pub open spec fn keep_tag(all: Seq<Seq<char>>, t: Seq<char>) -> bool {
    count_in(all, t) > 1 || is_prefix("Plugin"@, t)
}

pub open spec fn kept_tags(tags: Seq<Seq<char>>, all: Seq<Seq<char>>) -> Seq<Seq<char>>
    decreases tags.len(),
{
    if tags.len() == 0 {
        Seq::empty()
    } else {
        kept_tags(tags.drop_last(), all) + if keep_tag(all, tags.last()) {
            seq![tags.last()]
        } else {
            Seq::empty()
        }
    }
}

/// The tag of an operation left without one: the first segment of its path,
/// or `other`.
pub open spec fn default_tag(path: Seq<char>) -> Seq<char> {
    let segs = split_seq(path, '/');
    if segs.len() >= 2 {
        segs[1]
    } else {
        "other"@
    }
}

/// `u` without a leading `$`.
pub open spec fn strip_dollar(u: Seq<char>) -> Seq<char> {
    if u.len() > 0 && u[0] == '$' {
        u.drop_first()
    } else {
        u
    }
}

/// Lower case but for plugin tags, and without a leading `$`.
pub open spec fn normalize_tag(t: Seq<char>) -> Seq<char> {
    strip_dollar(
        if is_prefix("Plugin "@, t) {
            t
        } else {
            lower_text(t)
        },
    )
}

pub open spec fn normalize_all(s: Seq<Seq<char>>) -> Seq<Seq<char>>
    decreases s.len(),
{
    if s.len() == 0 {
        Seq::empty()
    } else {
        normalize_all(s.drop_last()).push(normalize_tag(s.last()))
    }
}

/// The tags an operation on `path` ends up with.
pub open spec fn new_tags(tags: Seq<Seq<char>>, all: Seq<Seq<char>>, path: Seq<char>) -> Seq<Seq<char>> {
    let k = kept_tags(tags, all);
    normalize_all(
        if k.len() == 0 {
            seq![default_tag(path)]
        } else {
            k
        },
    )
}

/// `b` is `a` with its tags resolved.
pub open spec fn retagged(a: Option<Operation>, b: Option<Operation>, all: Seq<Seq<char>>, path: Seq<char>) -> bool {
    match (a, b) {
        (None, None) => true,
        (Some(x), Some(y)) => views(y.tags@) == new_tags(views(x.tags@), all, path) && y == (Operation {
            tags: y.tags,
            ..x
        }),
        _ => false,
    }
}

pub open spec fn item_retagged(a: PathItem, b: PathItem, all: Seq<Seq<char>>, path: Seq<char>) -> bool {
    &&& retagged(a.get, b.get, all, path)
    &&& retagged(a.post, b.post, all, path)
    &&& retagged(a.put, b.put, all, path)
    &&& retagged(a.delete, b.delete, all, path)
    &&& retagged(a.patch, b.patch, all, path)
    &&& retagged(a.options, b.options, all, path)
    &&& retagged(a.head, b.head, all, path)
    &&& retagged(a.trace, b.trace, all, path)
}

/// Each path of `b` is the same path of `a` with its tags resolved.
pub open spec fn paths_retagged(a: Seq<(String, PathItem)>, b: Seq<(String, PathItem)>, all: Seq<Seq<char>>, n: int) -> bool {
    forall|k: int|
        0 <= k < n ==> (#[trigger] b[k]).0@ == a[k].0@ && item_retagged(a[k].1, b[k].1, all, a[k].0@)
}

pub open spec fn tag_names(s: Seq<Tag>) -> Seq<Seq<char>> {
    s.map_values(|t: Tag| t.name@)
}

proof fn lemma_kept_tags_drops(tags: Seq<Seq<char>>, all: Seq<Seq<char>>, t: Seq<char>)
    requires
        !keep_tag(all, t),
    ensures
        !kept_tags(tags, all).contains(t),
    decreases tags.len(),
{
    if tags.len() > 0 {
        lemma_kept_tags_drops(tags.drop_last(), all, t);
        let k0 = kept_tags(tags.drop_last(), all);
        if keep_tag(all, tags.last()) {
            assert(kept_tags(tags, all) == k0 + seq![tags.last()]);
            if kept_tags(tags, all).contains(t) {
                let j = choose|j: int| 0 <= j < kept_tags(tags, all).len() && kept_tags(tags, all)[j] == t;
                if j < k0.len() {
                    assert(k0[j] == t);
                }
            }
        } else {
            assert(kept_tags(tags, all) =~= k0);
        }
    }
}

proof fn lemma_kept_tags_keeps(tags: Seq<Seq<char>>, all: Seq<Seq<char>>, t: Seq<char>)
    requires
        keep_tag(all, t),
        tags.contains(t),
    ensures
        kept_tags(tags, all).contains(t),
    decreases tags.len(),
{
    let k0 = kept_tags(tags.drop_last(), all);
    if tags.last() == t {
        assert(kept_tags(tags, all) == k0 + seq![t]);
        assert(kept_tags(tags, all)[k0.len() as int] == t);
    } else {
        let j = choose|j: int| 0 <= j < tags.len() && tags[j] == t;
        assert(tags.drop_last()[j] == t);
        lemma_kept_tags_keeps(tags.drop_last(), all, t);
        let w = choose|w: int| 0 <= w < k0.len() && k0[w] == t;
        if keep_tag(all, tags.last()) {
            assert((k0 + seq![tags.last()])[w] == t);
        } else {
            assert(kept_tags(tags, all) =~= k0);
        }
    }
}

proof fn lemma_kept_tags_none(tags: Seq<Seq<char>>, all: Seq<Seq<char>>)
    requires
        forall|i: int| 0 <= i < tags.len() ==> !keep_tag(all, #[trigger] tags[i]),
    ensures
        kept_tags(tags, all).len() == 0,
    decreases tags.len(),
{
    if tags.len() > 0 {
        lemma_kept_tags_none(tags.drop_last(), all);
        assert(!keep_tag(all, tags[tags.len() - 1]));
    }
}

proof fn lemma_normalize_all(s: Seq<Seq<char>>)
    ensures
        normalize_all(s).len() == s.len(),
        forall|i: int| 0 <= i < s.len() ==> #[trigger] normalize_all(s)[i] == normalize_tag(s[i]),
    decreases s.len(),
{
    if s.len() > 0 {
        lemma_normalize_all(s.drop_last());
    }
}

/// Tag resolution, for one operation on `path` whose tags are `tags` in a
/// document whose tags are `all`: a tag used only once that does not name a
/// plugin is dropped; an operation all of whose tags are such gets the
/// normalized first segment of its path instead; a tag that names a plugin
/// is kept (normalized) however rarely it is used, and a `Plugin ` tag is
/// kept unchanged.
pub proof fn lemma_tag_resolution(tags: Seq<Seq<char>>, all: Seq<Seq<char>>, path: Seq<char>, t: Seq<char>)
    ensures
        count_in(all, t) <= 1 && !is_prefix("Plugin"@, t) ==> !kept_tags(tags, all).contains(t),
        (forall|i: int|
            0 <= i < tags.len() ==> count_in(all, #[trigger] tags[i]) <= 1 && !is_prefix("Plugin"@, tags[i]))
            ==> new_tags(tags, all, path) == seq![normalize_tag(default_tag(path))],
        tags.contains(t) && is_prefix("Plugin"@, t) ==> new_tags(tags, all, path).contains(normalize_tag(t)),
        tags.contains(t) && is_prefix("Plugin "@, t) ==> new_tags(tags, all, path).contains(t),
{
    if is_prefix("Plugin "@, t) {
        reveal_strlit("Plugin ");
        reveal_strlit("Plugin");
        assert(t.subrange(0, 6) =~= t.subrange(0, 7).subrange(0, 6));
        assert(t.subrange(0, 6) =~= "Plugin"@);
        assert(is_prefix("Plugin"@, t));
        assert(t[0] == t.subrange(0, 7)[0]);
        assert(normalize_tag(t) == t);
    }
    if count_in(all, t) <= 1 && !is_prefix("Plugin"@, t) {
        lemma_kept_tags_drops(tags, all, t);
    }
    if forall|i: int|
        0 <= i < tags.len() ==> count_in(all, #[trigger] tags[i]) <= 1 && !is_prefix("Plugin"@, tags[i]) {
        lemma_kept_tags_none(tags, all);
        let d = seq![default_tag(path)];
        lemma_normalize_all(d);
        assert(new_tags(tags, all, path) =~= seq![normalize_tag(default_tag(path))]);
    }
    if tags.contains(t) && is_prefix("Plugin"@, t) {
        lemma_kept_tags_keeps(tags, all, t);
        let k = kept_tags(tags, all);
        lemma_normalize_all(k);
        let w = choose|w: int| 0 <= w < k.len() && k[w] == t;
        assert(new_tags(tags, all, path)[w] == normalize_tag(t));
    }
}

fn push_all(out: &mut Vec<String>, v: &Vec<String>)
    ensures
        views(final(out)@) == views(old(out)@) + views(v@),
{
    let ghost start = views(out@);
    let mut i: usize = 0;
    assert(views(v@.subrange(0, 0)) =~= Seq::<Seq<char>>::empty());
    assert(start + Seq::<Seq<char>>::empty() =~= start);
    while i < v.len()
        invariant
            i <= v@.len(),
            views(out@) == start + views(v@.subrange(0, i as int)),
        decreases v@.len() - i,
    {
        let ghost o = out@;
        out.push(owned(v[i].as_str()));
        assert(views(out@) =~= views(o).push(v@[i as int]@));
        assert(views(v@.subrange(0, i + 1)) =~= views(v@.subrange(0, i as int)).push(v@[i as int]@));
        i = i + 1;
    }
    assert(v@.subrange(0, i as int) =~= v@);
}

fn push_slot(out: &mut Vec<String>, o: &Option<Operation>)
    ensures
        views(final(out)@) == views(old(out)@) + opt_tags(*o),
{
    match o {
        Some(op) => push_all(out, &op.tags),
        None => {
            assert(views(out@) + Seq::<Seq<char>>::empty() =~= views(out@));
        },
    }
}

/// Every tag of every operation, with repeats.
pub fn all_tags(paths: &Vec<(String, PathItem)>) -> (r: Vec<String>)
    ensures
        views(r@) == doc_tags(paths@),
{
    let mut out: Vec<String> = Vec::new();
    let mut i: usize = 0;
    assert(views(out@) =~= Seq::<Seq<char>>::empty());
    while i < paths.len()
        invariant
            i <= paths@.len(),
            views(out@) == doc_tags(paths@.subrange(0, i as int)),
        decreases paths@.len() - i,
    {
        let item = &paths[i].1;
        let ghost start = views(out@);
        push_slot(&mut out, &item.get);
        push_slot(&mut out, &item.post);
        push_slot(&mut out, &item.put);
        push_slot(&mut out, &item.delete);
        push_slot(&mut out, &item.patch);
        push_slot(&mut out, &item.options);
        push_slot(&mut out, &item.head);
        push_slot(&mut out, &item.trace);
        assert(views(out@) =~= start + item_tags(*item));
        assert(paths@.subrange(0, i + 1).drop_last() =~= paths@.subrange(0, i as int));
        i = i + 1;
    }
    assert(paths@.subrange(0, i as int) =~= paths@);
    out
}

/// `min(count_in(all, t), 2)`.
fn count_capped(all: &Vec<String>, t: &str) -> (r: usize)
    ensures
        r as nat == if count_in(views(all@), t@) > 2 {
            2
        } else {
            count_in(views(all@), t@)
        },
{
    let mut c: usize = 0;
    let mut i: usize = 0;
    while i < all.len()
        invariant
            i <= all@.len(),
            c as nat == if count_in(views(all@.subrange(0, i as int)), t@) > 2 {
                2
            } else {
                count_in(views(all@.subrange(0, i as int)), t@)
            },
        decreases all@.len() - i,
    {
        assert(views(all@.subrange(0, i + 1)).drop_last() =~= views(all@.subrange(0, i as int)));
        if crate::text::str_eq(all[i].as_str(), t) && c < 2 {
            c = c + 1;
        }
        i = i + 1;
    }
    assert(all@.subrange(0, i as int) =~= all@);
    c
}

fn default_tag_of(path: &str) -> (r: String)
    ensures
        r@ == default_tag(path@),
{
    let segs = split_on(path, '/');
    if segs.len() >= 2 {
        assert(views(segs@)[1] == segs@[1]@);
        owned(segs[1].as_str())
    } else {
        owned("other")
    }
}

fn normalize(t: &str) -> (r: String)
    ensures
        r@ == normalize_tag(t@),
{
    let base = if starts_with(t, "Plugin ") {
        owned(t)
    } else {
        lower_text_of(t)
    };
    let n = base.unicode_len();
    if n > 0 && base.get_char(0) == '$' {
        let r = owned(base.as_str().substring_char(1, n));
        assert(r@ =~= base@.drop_first());
        r
    } else {
        base
    }
}

/// The resolved tags of one operation.
fn resolve_op_tags(tags: &Vec<String>, all: &Vec<String>, path: &str) -> (r: Vec<String>)
    ensures
        views(r@) == new_tags(views(tags@), views(all@), path@),
{
    let mut kept: Vec<String> = Vec::new();
    let mut i: usize = 0;
    assert(views(kept@) =~= kept_tags(views(tags@.subrange(0, 0)), views(all@)));
    while i < tags.len()
        invariant
            i <= tags@.len(),
            views(kept@) == kept_tags(views(tags@.subrange(0, i as int)), views(all@)),
        decreases tags@.len() - i,
    {
        let t = tags[i].as_str();
        let ghost pre = views(tags@.subrange(0, i as int));
        assert(views(tags@.subrange(0, i + 1)).drop_last() =~= pre);
        assert(views(tags@.subrange(0, i + 1)).last() == t@);
        let keep = count_capped(all, t) > 1 || starts_with(t, "Plugin");
        let ghost o = views(kept@);
        if keep {
            kept.push(owned(t));
            assert(views(kept@) =~= o + seq![t@]);
        } else {
            assert(views(kept@) =~= o + Seq::<Seq<char>>::empty());
        }
        i = i + 1;
    }
    assert(tags@.subrange(0, i as int) =~= tags@);
    let chosen = if kept.len() == 0 {
        let mut v: Vec<String> = Vec::new();
        v.push(default_tag_of(path));
        assert(views(v@) =~= seq![default_tag(path@)]);
        v
    } else {
        kept
    };
    let mut out: Vec<String> = Vec::new();
    let mut j: usize = 0;
    assert(views(out@) =~= normalize_all(views(chosen@).subrange(0, 0)));
    while j < chosen.len()
        invariant
            j <= chosen@.len(),
            views(out@) == normalize_all(views(chosen@).subrange(0, j as int)),
        decreases chosen@.len() - j,
    {
        let ghost o = views(out@);
        out.push(normalize(chosen[j].as_str()));
        assert(views(chosen@).subrange(0, j + 1).drop_last() =~= views(chosen@).subrange(0, j as int));
        assert(views(out@) =~= o.push(normalize_tag(chosen@[j as int]@)));
        j = j + 1;
    }
    assert(views(chosen@).subrange(0, j as int) =~= views(chosen@));
    out
}

fn retag(o: Option<Operation>, all: &Vec<String>, path: &str) -> (r: Option<Operation>)
    ensures
        retagged(o, r, views(all@), path@),
{
    match o {
        Some(op) => {
            let mut op = op;
            let t = resolve_op_tags(&op.tags, all, path);
            op.tags = t;
            Some(op)
        },
        None => None,
    }
}

/// The distinct strings of `v`.
fn distinct(v: &Vec<String>) -> (r: Vec<String>)
    ensures
        forall|k: int| 0 <= k < r@.len() ==> views(v@).contains(#[trigger] r@[k]@),
        forall|k: int| 0 <= k < v@.len() ==> views(r@).contains(#[trigger] v@[k]@),
        forall|i: int, j: int| 0 <= i < j < r@.len() ==> r@[i]@ != r@[j]@,
{
    let mut out: Vec<String> = Vec::new();
    let mut i: usize = 0;
    while i < v.len()
        invariant
            i <= v@.len(),
            forall|k: int| 0 <= k < out@.len() ==> views(v@).contains(#[trigger] out@[k]@),
            forall|k: int| 0 <= k < i ==> views(out@).contains(#[trigger] v@[k]@),
            forall|a: int, b: int| 0 <= a < b < out@.len() ==> out@[a]@ != out@[b]@,
        decreases v@.len() - i,
    {
        let t = v[i].as_str();
        assert(views(v@)[i as int] == t@);
        let ghost o = out@;
        if !contains_str(&out, t) {
            out.push(owned(t));
            assert(views(out@)[o.len() as int] == t@);
            assert forall|k: int| 0 <= k < i + 1 implies views(out@).contains(#[trigger] v@[k]@) by {
                if k < i {
                    let w = choose|w: int| 0 <= w < views(o).len() && views(o)[w] == v@[k]@;
                    assert(views(out@)[w] == v@[k]@);
                }
            }
            assert forall|a: int, b: int| 0 <= a < b < out@.len() implies out@[a]@ != out@[b]@ by {
                if b == out@.len() - 1 {
                    assert(views(o)[a] == o[a]@);
                }
            }
        }
        i = i + 1;
    }
    out
}

/// A path item with every operation's tags resolved.
fn retag_item(item: PathItem, all: &Vec<String>, p: &str) -> (r: PathItem)
    ensures
        item_retagged(item, r, views(all@), p@),
{
    PathItem {
        ref_: item.ref_,
        summary: item.summary,
        description: item.description,
        servers: item.servers,
        get: retag(item.get, all, p),
        post: retag(item.post, all, p),
        put: retag(item.put, all, p),
        delete: retag(item.delete, all, p),
        options: retag(item.options, all, p),
        head: retag(item.head, all, p),
        patch: retag(item.patch, all, p),
        trace: retag(item.trace, all, p),
    }
}

impl OpenApiSpec {
    /// Resolves the tags of every operation: a tag stays when it is used more
    /// than once or names a plugin; an operation left without tags gets the
    /// first segment of its path (or `other`); tags are lower-cased but for
    /// plugin tags, and lose a leading `$`. The document's tag list is then
    /// every resulting tag once, sorted.
    pub fn resolve_tags(&mut self)
        ensures
            final(self).paths@.len() == old(self).paths@.len(),
            paths_retagged(old(self).paths@, final(self).paths@, doc_tags(old(self).paths@), old(self).paths@.len() as int),
            forall|k: int|
                0 <= k < final(self).tags@.len() ==> doc_tags(final(self).paths@).contains(
                    #[trigger] final(self).tags@[k].name@,
                ),
            forall|k: int|
                0 <= k < doc_tags(final(self).paths@).len() ==> tag_names(final(self).tags@).contains(
                    #[trigger] doc_tags(final(self).paths@)[k],
                ),
            forall|i: int, j: int|
                0 <= i < j < final(self).tags@.len() ==> final(self).tags@[i].name@ != final(self).tags@[j].name@,
            tags_sorted(final(self).tags@),
            forall|k: int|
                0 <= k < final(self).tags@.len() ==> (#[trigger] final(self).tags@[k]).description is None
                    && final(self).tags@[k].external_docs is None,
            final(self).components.schemas@ == old(self).components.schemas@,
    {
        let all = all_tags(&self.paths);
        let ghost orig = self.paths@;
        let ghost all_v = views(all@);
        let mut rest: Vec<(String, PathItem)> = Vec::new();
        core::mem::swap(&mut rest, &mut self.paths);
        let n = rest.len();
        let mut i: usize = 0;
        while i < n
            invariant
                n == orig.len(),
                i <= n,
                all_v == doc_tags(orig) && all_v == views(all@),
                self.components.schemas@ == old(self).components.schemas@,
                rest@ == orig.subrange(i as int, n as int),
                self.paths@.len() == i,
                paths_retagged(orig, self.paths@, all_v, i as int),
            decreases n - i,
        {
            let ghost before = self.paths@;
            let (path, item) = rest.remove(0);
            assert(orig[i as int] == (path, item));
            let ghost pv = path@;
            let ghost old_item = item;
            let item2 = retag_item(item, &all, path.as_str());
            assert(item_retagged(old_item, item2, all_v, pv));
            self.paths.push((path, item2));
            assert(self.paths@[i as int].1 == item2);
            assert(orig[i as int].1 == old_item);
            assert(self.paths@[i as int].0@ == pv);
            let ghost i0 = i as int;
            i = i + 1;
            assert forall|k: int| 0 <= k < i implies (#[trigger] self.paths@[k]).0@ == orig[k].0@ && item_retagged(
                orig[k].1,
                self.paths@[k].1,
                all_v,
                orig[k].0@,
            ) by {
                if k < i0 {
                    assert(self.paths@[k] == before[k]);
                    assert(before[k].0@ == orig[k].0@ && item_retagged(orig[k].1, before[k].1, all_v, orig[k].0@));
                } else {
                    assert(orig[k].1 == old_item);
                    assert(orig[k].0@ == pv);
                }
            }
            assert(rest@ =~= orig.subrange(i as int, n as int));
        }
        let flat = all_tags(&self.paths);
        let names = distinct(&flat);
        let mut tags: Vec<Tag> = Vec::new();
        let mut j: usize = 0;
        while j < names.len()
            invariant
                j <= names@.len(),
                tags@.len() == j,
                forall|k: int| 0 <= k < j ==> #[trigger] tags@[k].name@ == names@[k]@,
                forall|k: int| 0 <= k < j ==> (#[trigger] tags@[k]).description is None && tags@[k].external_docs is None,
            decreases names@.len() - j,
        {
            tags.push(Tag::from(owned(names[j].as_str())));
            j = j + 1;
        }
        let ghost unsorted = tags@;
        let tags = sort_tags(tags);
        proof {
            broadcast use vstd::seq_lib::group_to_multiset_ensures;
            let b = tags@;
            let a = unsorted;
            assert forall|k: int| 0 <= k < b.len() implies (#[trigger] b[k]).description is None && b[k].external_docs is None by {
                let e = b[k];
                assert(b.contains(e));
                assert(b.to_multiset().count(e) > 0);
                assert(a.to_multiset().count(e) > 0);
                assert(a.contains(e));
            }
            assert(b.to_multiset().len() == a.to_multiset().len());
            assert forall|k: int| 0 <= k < b.len() implies views(flat@).contains(#[trigger] b[k].name@) by {
                let e = b[k];
                assert(b.contains(e));
                assert(b.to_multiset().count(e) > 0);
                assert(a.to_multiset().count(e) > 0);
                assert(a.contains(e));
                let m = choose|m: int| 0 <= m < a.len() && a[m] == e;
                assert(a[m].name@ == names@[m]@);
            }
            assert forall|k: int| 0 <= k < views(flat@).len() implies tag_names(b).contains(#[trigger] views(flat@)[k]) by {
                assert(views(flat@)[k] == flat@[k]@);
                let w = choose|w: int| 0 <= w < views(names@).len() && views(names@)[w] == flat@[k]@;
                let e = a[w];
                assert(a.contains(e));
                assert(a.to_multiset().count(e) > 0);
                assert(b.to_multiset().count(e) > 0);
                assert(b.contains(e));
                let m = choose|m: int| 0 <= m < b.len() && b[m] == e;
                assert(tag_names(b)[m] == flat@[k]@);
            }
            assert forall|x: int, y: int| 0 <= x < y < b.len() implies b[x].name@ != b[y].name@ by {
                let ex = b[x];
                let ey = b[y];
                assert(b.contains(ex) && b.contains(ey));
                assert(b.to_multiset().count(ex) > 0 && b.to_multiset().count(ey) > 0);
                assert(a.to_multiset().count(ex) > 0 && a.to_multiset().count(ey) > 0);
                assert(a.contains(ex) && a.contains(ey));
                let i1 = choose|m: int| 0 <= m < a.len() && a[m] == ex;
                let j1 = choose|m: int| 0 <= m < a.len() && a[m] == ey;
                if i1 == j1 {
                    lemma_count_two(b, x, y);
                    lemma_count_at_most_one(a, ex, names@);
                } else {
                    assert(a[i1].name@ == names@[i1]@ && a[j1].name@ == names@[j1]@);
                }
            }
        }
        self.tags = tags;
    }
}

proof fn lemma_count_two(s: Seq<Tag>, x: int, y: int)
    requires
        0 <= x < y < s.len(),
        s[x] == s[y],
    ensures
        s.to_multiset().count(s[x]) >= 2,
    decreases s.len(),
{
    broadcast use vstd::seq_lib::group_to_multiset_ensures;
    let l = s.len() - 1;
    let p = s.drop_last();
    assert(s =~= p.push(s.last()));
    assert(s.to_multiset() =~= p.to_multiset().insert(s.last()));
    if y < l {
        lemma_count_two(p, x, y);
        assert(p[x] == s[x]);
    } else {
        assert(p[x] == s[x]);
        assert(p.contains(s[x]));
        assert(p.to_multiset().count(s[x]) > 0);
    }
}

proof fn lemma_count_at_most_one(a: Seq<Tag>, e: Tag, names: Seq<String>)
    requires
        a.len() <= names.len(),
        forall|k: int| 0 <= k < a.len() ==> #[trigger] a[k].name@ == names[k]@,
        forall|i: int, j: int| 0 <= i < j < names.len() ==> names[i]@ != names[j]@,
    ensures
        a.to_multiset().count(e) <= 1,
    decreases a.len(),
{
    broadcast use vstd::seq_lib::group_to_multiset_ensures;
    if a.len() > 0 {
        let p = a.drop_last();
        assert forall|k: int| 0 <= k < p.len() implies #[trigger] p[k].name@ == names[k]@ by {
            assert(p[k] == a[k]);
        }
        lemma_count_at_most_one(p, e, names);
        assert(a =~= p.push(a.last()));
        assert(a.to_multiset() =~= p.to_multiset().insert(a.last()));
        if a.last() == e && p.to_multiset().count(e) > 0 {
            assert(p.contains(e));
            let k = choose|k: int| 0 <= k < p.len() && p[k] == e;
            assert(a[k] == a[a.len() - 1]);
            assert(a[k].name@ == names[k]@);
            assert(a[a.len() - 1].name@ == names[a.len() - 1]@);
        }
    }
}

} // verus!
