//! Orders used for stable output: enumeration keys and names, tags, and
//! plain strings, with the sorts that produce them.
use vstd::prelude::*;
use itertools::Itertools;
use core::cmp::Ordering;
use vstd::multiset::Multiset;
use crate::openapi::{EnumKey, EnumVariant, Key, Tag, Variant, key_view, opt_str, variants_view};
use crate::text::{is_prefix, seq_lt, starts_with, str_eq, str_lt, views, owned};

verus! {

broadcast use vstd::std_specs::vec::group_vec_axioms;

pub proof fn lemma_seq_lt_asym(a: Seq<char>, b: Seq<char>)
    ensures
        seq_lt(a, b) ==> !seq_lt(b, a),
        !seq_lt(a, a),
    decreases a.len(),
{
    if a.len() > 0 && b.len() > 0 && a[0] == b[0] {
        lemma_seq_lt_asym(a.drop_first(), b.drop_first());
    }
    if a.len() > 0 {
        lemma_seq_lt_asym(a.drop_first(), a.drop_first());
    }
}

/// Rank of a key's kind when the kinds differ: booleans, then numbers, then strings.
pub open spec fn key_rank(k: Key) -> int {
    match k {
        Key::Null => 0,
        Key::Bool(_) => 1,
        Key::Num(_) => 2,
        Key::Str(_) => 3,
    }
}

/// The order of enumeration keys: null first, then by kind, then by value
/// (numbers by their text).
pub open spec fn key_lt(a: Key, b: Key) -> bool {
    match (a, b) {
        (Key::Bool(x), Key::Bool(y)) => !x && y,
        (Key::Num(x), Key::Num(y)) => seq_lt(x, y),
        (Key::Str(x), Key::Str(y)) => seq_lt(x, y),
        _ => key_rank(a) < key_rank(b),
    }
}

pub open spec fn key_cmp_spec(a: Key, b: Key) -> Ordering {
    if key_lt(a, b) {
        Ordering::Less
    } else if key_lt(b, a) {
        Ordering::Greater
    } else {
        Ordering::Equal
    }
}

pub proof fn lemma_key_lt_asym(a: Key, b: Key)
    ensures
        key_lt(a, b) ==> !key_lt(b, a),
{
    match (a, b) {
        (Key::Num(x), Key::Num(y)) => lemma_seq_lt_asym(x, y),
        (Key::Str(x), Key::Str(y)) => lemma_seq_lt_asym(x, y),
        _ => {},
    }
}

/// The order of optional names: a missing name first.
pub open spec fn name_lt(a: Option<Seq<char>>, b: Option<Seq<char>>) -> bool {
    match (a, b) {
        (None, Some(_)) => true,
        (Some(x), Some(y)) => seq_lt(x, y),
        _ => false,
    }
}

pub proof fn lemma_name_lt_asym(a: Option<Seq<char>>, b: Option<Seq<char>>)
    ensures
        name_lt(a, b) ==> !name_lt(b, a),
{
    if let (Some(x), Some(y)) = (a, b) {
        lemma_seq_lt_asym(x, y);
    }
}

/// Whether `a` must come after `b` in a sorted list of variants: by name when
/// `by_name`, else by key.
pub open spec fn variant_lt(a: Variant, b: Variant, by_name: bool) -> bool {
    if by_name {
        name_lt(a.name, b.name)
    } else {
        key_lt(a.key, b.key)
    }
}

/// Some variant has no key.
pub open spec fn has_null_key(s: Seq<Variant>) -> bool {
    exists|i: int| 0 <= i < s.len() && (#[trigger] s[i]).key is Null
}

/// Neither variant sorts before the other.
pub open spec fn variant_tie(a: Variant, b: Variant, by_name: bool) -> bool {
    !variant_lt(a, b, by_name) && !variant_lt(b, a, by_name)
}

/// `s` is `o` rearranged by `perm` (`s[j]` is `o[perm[j]]`), and variants
/// that tie keep their order.
pub open spec fn stable_arrangement(s: Seq<Variant>, o: Seq<Variant>, perm: Seq<int>, by_name: bool) -> bool {
    &&& perm.len() == s.len()
    &&& forall|j: int| 0 <= j < s.len() ==> 0 <= #[trigger] perm[j] < o.len() && s[j] == o[perm[j]]
    &&& forall|j: int, k: int| 0 <= j < k < s.len() ==> perm[j] != perm[k]
    &&& forall|j: int, k: int|
        0 <= j < k < s.len() && variant_tie(s[j], s[k], by_name) ==> perm[j] < perm[k]
}

proof fn lemma_insert_stable(
    before: Seq<Variant>,
    orig: Seq<Variant>,
    old_perm: Seq<int>,
    xv: Variant,
    p: int,
    c: int,
    by_name: bool,
)
    requires
        stable_arrangement(before, orig, old_perm, by_name),
        forall|j: int| 0 <= j < before.len() ==> #[trigger] old_perm[j] < before.len(),
        before.len() == c,
        0 <= c < orig.len(),
        orig[c] == xv,
        0 <= p <= c,
        forall|k: int| p <= k < before.len() ==> variant_lt(xv, #[trigger] before[k], by_name),
    ensures
        stable_arrangement(before.insert(p, xv), orig, old_perm.insert(p, c), by_name),
        forall|j: int| 0 <= j <= c ==> #[trigger] old_perm.insert(p, c)[j] < c + 1,
{
    let o = before.insert(p, xv);
    let perm = old_perm.insert(p, c);
    assert forall|j: int| 0 <= j < o.len() implies 0 <= #[trigger] perm[j] < orig.len() && o[j] == orig[perm[j]] && perm[j] < c + 1 by {
        if j < p {
            assert(perm[j] == old_perm[j] && o[j] == before[j]);
        } else if j > p {
            assert(perm[j] == old_perm[j - 1] && o[j] == before[j - 1]);
        }
    }
    assert forall|j: int, k: int| 0 <= j < k < o.len() implies perm[j] != perm[k] by {
        if j != p && k != p {
            let j0 = if j < p { j } else { j - 1 };
            let k0 = if k < p { k } else { k - 1 };
            assert(perm[j] == old_perm[j0] && perm[k] == old_perm[k0]);
        } else if j == p {
            assert(perm[k] == old_perm[k - 1]);
        } else {
            assert(perm[j] == old_perm[j]);
        }
    }
    assert forall|j: int, k: int| 0 <= j < k < o.len() && variant_tie(o[j], o[k], by_name) implies perm[j] < perm[k] by {
        if j != p && k != p {
            let j0 = if j < p { j } else { j - 1 };
            let k0 = if k < p { k } else { k - 1 };
            assert(perm[j] == old_perm[j0] && perm[k] == old_perm[k0]);
            assert(o[j] == before[j0] && o[k] == before[k0]);
        } else if j == p {
            assert(o[k] == before[k - 1]);
            assert(variant_lt(xv, before[k - 1], by_name));
        } else {
            assert(perm[j] == old_perm[j]);
        }
    }
}

/// `out` with `x` put after every variant that does not sort after it.
pub open spec fn insert_sorted(out: Seq<Variant>, x: Variant, by_name: bool) -> Seq<Variant>
    decreases out.len(),
{
    if out.len() > 0 && variant_lt(x, out.last(), by_name) {
        insert_sorted(out.drop_last(), x, by_name).push(out.last())
    } else {
        out.push(x)
    }
}

/// The stable insertion sort of `s`.
pub open spec fn sort_spec(s: Seq<Variant>, by_name: bool) -> Seq<Variant>
    decreases s.len(),
{
    if s.len() == 0 {
        Seq::empty()
    } else {
        insert_sorted(sort_spec(s.drop_last(), by_name), s.last(), by_name)
    }
}

/// The variants of `s` sorted as [`sort_enum_variants`] sorts them.
pub open spec fn sorted_variants(s: Seq<Variant>) -> Seq<Variant> {
    sort_spec(s, has_null_key(s))
}

proof fn lemma_insert_at(out: Seq<Variant>, x: Variant, p: int, by_name: bool)
    requires
        0 <= p <= out.len(),
        forall|k: int| p <= k < out.len() ==> variant_lt(x, #[trigger] out[k], by_name),
        p == 0 || !variant_lt(x, out[p - 1], by_name),
    ensures
        insert_sorted(out, x, by_name) == out.insert(p, x),
    decreases out.len(),
{
    if p == out.len() {
        assert(out.insert(p, x) =~= out.push(x));
    } else {
        let d = out.drop_last();
        assert(variant_lt(x, out[out.len() - 1], by_name));
        assert forall|k: int| p <= k < d.len() implies variant_lt(x, #[trigger] d[k], by_name) by {
            assert(d[k] == out[k]);
        }
        if p > 0 {
            assert(d[p - 1] == out[p - 1]);
        }
        lemma_insert_at(d, x, p, by_name);
        assert(out.insert(p, x) =~= d.insert(p, x).push(out.last()));
    }
}

/// Each variant sorts no later than the next one.
pub open spec fn variants_sorted(s: Seq<Variant>, by_name: bool) -> bool {
    forall|i: int| 0 <= i < s.len() - 1 ==> !variant_lt(#[trigger] s[i + 1], s[i], by_name)
}

fn key_lt_exec(a: &EnumKey, b: &EnumKey) -> (r: bool)
    ensures
        r == key_lt(key_view(*a), key_view(*b)),
{
    match (a, b) {
        (EnumKey::Bool(x), EnumKey::Bool(y)) => !*x && *y,
        (EnumKey::Number(x), EnumKey::Number(y)) => str_lt(x.as_str(), y.as_str()),
        (EnumKey::String(x), EnumKey::String(y)) => str_lt(x.as_str(), y.as_str()),
        _ => key_rank_exec(a) < key_rank_exec(b),
    }
}

fn key_rank_exec(a: &EnumKey) -> (r: u8)
    ensures
        r as int == key_rank(key_view(*a)),
{
    match a {
        EnumKey::Null => 0,
        EnumKey::Bool(_) => 1,
        EnumKey::Number(_) => 2,
        EnumKey::String(_) => 3,
    }
}

fn name_lt_exec(a: &Option<String>, b: &Option<String>) -> (r: bool)
    ensures
        r == name_lt(opt_str(*a), opt_str(*b)),
{
    match (a, b) {
        (None, Some(_)) => true,
        (Some(x), Some(y)) => str_lt(x.as_str(), y.as_str()),
        _ => false,
    }
}

fn variant_lt_exec(a: &EnumVariant, b: &EnumVariant, by_name: bool) -> (r: bool)
    ensures
        r == variant_lt(a@, b@, by_name),
{
    if by_name {
        name_lt_exec(&a.name, &b.name)
    } else {
        key_lt_exec(&a.key, &b.key)
    }
}

impl PartialEq for EnumKey {
    fn eq(&self, other: &EnumKey) -> (r: bool) {
        match (self, other) {
            (EnumKey::Null, EnumKey::Null) => true,
            (EnumKey::String(a), EnumKey::String(b)) => str_eq(a.as_str(), b.as_str()),
            (EnumKey::Number(a), EnumKey::Number(b)) => str_eq(a.as_str(), b.as_str()),
            (EnumKey::Bool(a), EnumKey::Bool(b)) => *a == *b,
            _ => false,
        }
    }
}

impl vstd::std_specs::cmp::PartialEqSpecImpl for EnumKey {
    open spec fn obeys_eq_spec() -> bool {
        true
    }

    open spec fn eq_spec(&self, other: &EnumKey) -> bool {
        key_view(*self) == key_view(*other)
    }
}

impl PartialOrd for EnumKey {
    fn partial_cmp(&self, other: &EnumKey) -> (r: Option<Ordering>) {
        if key_lt_exec(self, other) {
            Some(Ordering::Less)
        } else if key_lt_exec(other, self) {
            Some(Ordering::Greater)
        } else {
            Some(Ordering::Equal)
        }
    }
}

impl vstd::std_specs::cmp::PartialOrdSpecImpl for EnumKey {
    open spec fn obeys_partial_cmp_spec() -> bool {
        true
    }

    open spec fn partial_cmp_spec(&self, other: &EnumKey) -> Option<Ordering> {
        Some(key_cmp_spec(key_view(*self), key_view(*other)))
    }
}

/// Sorts `variants` by display name when some variant has no key, else by
/// key. Variants that compare equal keep their relative order.
#[verifier::loop_isolation(false)]
pub fn sort_enum_variants(variants: &mut Vec<EnumVariant>)
    ensures
        variants_view(final(variants)@).to_multiset() == variants_view(old(variants)@).to_multiset(),
        variants_sorted(variants_view(final(variants)@), has_null_key(variants_view(old(variants)@))),
        exists|perm: Seq<int>|
            stable_arrangement(
                variants_view(final(variants)@),
                variants_view(old(variants)@),
                perm,
                has_null_key(variants_view(old(variants)@)),
            ),
        variants_view(final(variants)@) == sorted_variants(variants_view(old(variants)@)),
{
    let ghost orig = variants_view(variants@);
    let mut by_name = false;
    let mut i: usize = 0;
    while i < variants.len()
        invariant
            variants_view(variants@) == orig,
            i <= orig.len(),
            by_name == exists|j: int| 0 <= j < i && (#[trigger] orig[j]).key is Null,
        decreases orig.len() - i,
    {
        if let EnumKey::Null = variants[i].key {
            by_name = true;
        }
        assert(orig[i as int] == variants@[i as int]@);
        i = i + 1;
    }
    let mut out: Vec<EnumVariant> = Vec::new();
    let ghost mut perm: Seq<int> = Seq::empty();
    proof {
        broadcast use vstd::seq_lib::group_to_multiset_ensures;
        assert(variants_view(out@).to_multiset().add(variants_view(variants@).to_multiset()) =~= orig.to_multiset());
        assert(orig.subrange(0, 0) =~= Seq::<Variant>::empty());
        assert(variants_view(variants@) =~= orig.subrange(0, orig.len() as int));
    }
    while variants.len() > 0
        invariant
            variants_view(out@).to_multiset().add(variants_view(variants@).to_multiset()) == orig.to_multiset(),
            variants_sorted(variants_view(out@), by_name),
            by_name == has_null_key(orig),
            out@.len() + variants@.len() == orig.len(),
            variants_view(variants@) == orig.subrange(out@.len() as int, orig.len() as int),
            stable_arrangement(variants_view(out@), orig, perm, by_name),
            variants_view(out@) == sort_spec(orig.subrange(0, out@.len() as int), by_name),
            forall|j: int| 0 <= j < out@.len() ==> #[trigger] perm[j] < out@.len(),
        decreases variants@.len(),
    {
        let ghost c = out@.len() as int;
        let ghost rest = variants_view(variants@);
        let x = variants.remove(0);
        let ghost xv = x@;
        proof {
            assert(rest =~= seq![xv] + variants_view(variants@));
            vstd::seq_lib::lemma_multiset_commutative(seq![xv], variants_view(variants@));
            assert(seq![xv].to_multiset() =~= Multiset::empty().insert(xv)) by {
                broadcast use vstd::seq_lib::group_to_multiset_ensures;
                assert(seq![xv] =~= Seq::<Variant>::empty().push(xv));
            }
        }
        assert(rest[0] == xv);
        assert(rest[0] == orig[c]);
        let mut p = out.len();
        while p > 0 && variant_lt_exec(&x, &out[p - 1], by_name)
            invariant
                p <= out@.len(),
                forall|k: int| p <= k < out@.len() ==> variant_lt(xv, #[trigger] out@[k]@, by_name),
            decreases p,
        {
            p = p - 1;
        }
        let ghost before = variants_view(out@);
        let ghost old_perm = perm;
        assert forall|k: int| p <= k < before.len() implies variant_lt(xv, #[trigger] before[k], by_name) by {
            assert(before[k] == out@[k]@);
        }
        proof {
            if p > 0 {
                assert(!variant_lt(xv, before[p - 1], by_name));
            }
            if p < before.len() {
                lemma_key_lt_asym(xv.key, before[p as int].key);
                lemma_name_lt_asym(xv.name, before[p as int].name);
            }
        }
        out.insert(p, x);
        proof {
            broadcast use vstd::seq_lib::group_to_multiset_ensures;
            let o = variants_view(out@);
            assert(o =~= before.insert(p as int, xv));
            vstd::seq_lib::to_multiset_insert(before, p as int, xv);
            assert forall|k: int| 0 <= k < o.len() - 1 implies !variant_lt(
                #[trigger] o[k + 1],
                o[k],
                by_name,
            ) by {
                if k + 1 < p {
                    assert(o[k] == before[k] && o[k + 1] == before[k + 1]);
                    assert(!variant_lt(before[k + 1], before[k], by_name));
                } else if k + 1 == p {
                    assert(o[k] == before[k] && o[k + 1] == xv);
                } else if k == p {
                    assert(o[k] == xv && o[k + 1] == before[k]);
                    assert(variant_lt(xv, before[k], by_name));
                } else {
                    assert(o[k] == before[k - 1] && o[k + 1] == before[k]);
                    assert(!variant_lt(before[(k - 1) + 1], before[k - 1], by_name));
                }
            }
            assert(o.to_multiset().add(variants_view(variants@).to_multiset()) =~= orig.to_multiset());
            perm = old_perm.insert(p as int, c);
            assert(variants_view(variants@) =~= rest.drop_first());
            assert(rest.drop_first() =~= orig.subrange(c + 1, orig.len() as int));
            lemma_insert_stable(before, orig, old_perm, xv, p as int, c, by_name);
            lemma_insert_at(before, xv, p as int, by_name);
            assert(orig.subrange(0, c + 1).drop_last() =~= orig.subrange(0, c));
            assert(stable_arrangement(o, orig, perm, by_name));
        }
    }
    *variants = out;
    proof {
        broadcast use vstd::seq_lib::group_to_multiset_ensures;
        assert(variants@.len() == 0 ==> variants_view(variants@).to_multiset() =~= Multiset::empty());
    }
}

/// The order of tags: non-plugin tags before `Plugin` tags, other plugin
/// tags before `Plugin lol` tags, `other` last, and otherwise by name. Two
/// `other` tags are not comparable.
pub open spec fn tag_cmp(a: Seq<char>, b: Seq<char>) -> Option<Ordering> {
    let ap = is_prefix("Plugin"@, a);
    let bp = is_prefix("Plugin"@, b);
    let al = is_prefix("Plugin lol"@, a);
    let bl = is_prefix("Plugin lol"@, b);
    let ao = a == "other"@;
    let bo = b == "other"@;
    if ap && !bp {
        Some(Ordering::Greater)
    } else if !ap && bp {
        Some(Ordering::Less)
    } else if al && !bl {
        Some(Ordering::Greater)
    } else if !al && bl {
        Some(Ordering::Less)
    } else if ao && !bo {
        Some(Ordering::Greater)
    } else if !ao && bo {
        Some(Ordering::Less)
    } else if ao && bo {
        None
    } else if seq_lt(a, b) {
        Some(Ordering::Less)
    } else if a == b {
        Some(Ordering::Equal)
    } else {
        Some(Ordering::Greater)
    }
}

/// `a` sorts strictly before `b` (an incomparable pair counts as equal).
pub open spec fn tag_lt(a: Seq<char>, b: Seq<char>) -> bool {
    tag_cmp(a, b) == Some(Ordering::Less)
}

/// Each tag sorts no later than the next one.
pub open spec fn tags_sorted(s: Seq<Tag>) -> bool {
    forall|i: int| 0 <= i < s.len() - 1 ==> !tag_lt(#[trigger] s[i + 1].name@, s[i].name@)
}

impl Tag {
    /// Compares two tags by [`tag_cmp`] on their names.
    pub fn partial_cmp(&self, b: &Tag) -> (r: Option<Ordering>)
        ensures
            r == tag_cmp(self.name@, b.name@),
    {
        let a_plugin = starts_with(self.name.as_str(), "Plugin");
        let b_plugin = starts_with(b.name.as_str(), "Plugin");
        let a_lol = starts_with(self.name.as_str(), "Plugin lol");
        let b_lol = starts_with(b.name.as_str(), "Plugin lol");
        let a_other = str_eq(self.name.as_str(), "other");
        let b_other = str_eq(b.name.as_str(), "other");
        if a_plugin && !b_plugin {
            Some(Ordering::Greater)
        } else if !a_plugin && b_plugin {
            Some(Ordering::Less)
        } else if a_lol && !b_lol {
            Some(Ordering::Greater)
        } else if !a_lol && b_lol {
            Some(Ordering::Less)
        } else if a_other && !b_other {
            Some(Ordering::Greater)
        } else if !a_other && b_other {
            Some(Ordering::Less)
        } else if a_other && b_other {
            None
        } else if str_lt(self.name.as_str(), b.name.as_str()) {
            Some(Ordering::Less)
        } else if str_eq(self.name.as_str(), b.name.as_str()) {
            Some(Ordering::Equal)
        } else {
            Some(Ordering::Greater)
        }
    }
}

impl Tag {
    /// The order that sorting uses: [`tag_cmp`], with two incomparable tags
    /// taken as equal.
    pub fn sort_order(&self, b: &Tag) -> (r: Ordering)
        ensures
            r == match tag_cmp(self.name@, b.name@) {
                Some(o) => o,
                None => Ordering::Equal,
            },
    {
        match self.partial_cmp(b) {
            Some(o) => o,
            None => Ordering::Equal,
        }
    }
}

/// Relies on `itertools::Itertools::sorted_by`, a stable `slice::sort_by`,
/// called with [`Tag::sort_order`]. That order compares the key (plugin tag,
/// `Plugin lol` tag, `other`, name) field by field, so it is a total order,
/// and the result holds the same tags, each no later than the next.
#[verifier::external_body]
pub(crate) fn sort_tags(tags: Vec<Tag>) -> (r: Vec<Tag>)
    ensures
        r@.to_multiset() == tags@.to_multiset(),
        tags_sorted(r@),
{
    tags.into_iter().sorted_by(|a, b| a.sort_order(b)).collect()
}

/// Each string sorts no later than the next one.
pub open spec fn strings_sorted(s: Seq<Seq<char>>) -> bool {
    forall|i: int| 0 <= i < s.len() - 1 ==> !seq_lt(#[trigger] s[i + 1], s[i])
}

/// A sorted copy of `value`.
#[verifier::loop_isolation(false)]
pub fn serialize_strings_sorted(value: &Vec<String>) -> (r: Vec<String>)
    ensures
        views(r@).to_multiset() == views(value@).to_multiset(),
        strings_sorted(views(r@)),
{
    let mut out: Vec<String> = Vec::new();
    let mut i: usize = 0;
    proof {
        broadcast use vstd::seq_lib::group_to_multiset_ensures;
        assert(views(out@) =~= views(value@.subrange(0, 0)));
    }
    while i < value.len()
        invariant
            i <= value@.len(),
            views(out@).to_multiset() == views(value@.subrange(0, i as int)).to_multiset(),
            strings_sorted(views(out@)),
        decreases value@.len() - i,
    {
        let x = owned(value[i].as_str());
        let mut p = out.len();
        while p > 0 && str_lt(x.as_str(), out[p - 1].as_str())
            invariant
                p <= out@.len(),
                p < out@.len() ==> seq_lt(x@, out@[p as int]@),
            decreases p,
        {
            p = p - 1;
        }
        let ghost before = views(out@);
        proof {
            if p < before.len() {
                lemma_seq_lt_asym(x@, before[p as int]);
            }
        }
        out.insert(p, x);
        proof {
            broadcast use vstd::seq_lib::group_to_multiset_ensures;
            assert(views(out@) =~= before.insert(p as int, x@));
            vstd::seq_lib::to_multiset_insert(before, p as int, x@);
            assert(views(value@.subrange(0, i + 1)) =~= views(value@.subrange(0, i as int)).push(x@));
            assert forall|k: int| 0 <= k < views(out@).len() - 1 implies !seq_lt(
                #[trigger] views(out@)[k + 1],
                views(out@)[k],
            ) by {
                let o = views(out@);
                if k + 1 < p {
                    assert(o[k] == before[k] && o[k + 1] == before[k + 1]);
                    assert(!seq_lt(before[k + 1], before[k]));
                } else if k + 1 == p {
                    assert(o[k] == before[k] && o[k + 1] == x@);
                } else if k == p {
                    assert(o[k] == x@ && o[k + 1] == before[k]);
                    assert(seq_lt(x@, before[k]));
                } else {
                    assert(o[k] == before[k - 1] && o[k + 1] == before[k]);
                    assert(!seq_lt(before[(k - 1) + 1], before[k - 1]));
                }
            }
        }
        i = i + 1;
    }
    assert(value@.subrange(0, i as int) =~= value@);
    out
}

} // verus!
