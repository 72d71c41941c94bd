//! Point corrections to the raw endpoint listing, applied by name before the
//! listing is read into typed endpoints.
use vstd::prelude::*;
use crate::error::ParseError;
use crate::json::{Json, Tree, lookup, view_items, lemma_view_items};
use crate::mutate::patch_spec;
use crate::patch::{DotPathStr, tokenize_spec};
use crate::text::{owned, str_eq};

verus! {

broadcast use vstd::std_specs::vec::group_vec_axioms;

/// Corrections for the endpoint named `name`: each field path is set to its value.
#[derive(Debug)]
pub struct EndpointPatch {
    pub name: String,
    pub fields: Vec<(String, Json)>,
}

/// The `name` of an endpoint's raw form, when it is a string.
pub open spec fn name_of(t: Tree) -> Option<Seq<char>> {
    match t {
        Tree::Object(es) => match lookup(es, "name"@) {
            Some(Tree::Str(s)) => Some(s),
            _ => None,
        },
        _ => None,
    }
}

/// Setting each field path of `fs` in turn.
pub open spec fn apply_fields(t: Tree, fs: Seq<(String, Json)>) -> Option<Tree>
    decreases fs.len(),
{
    if fs.len() == 0 {
        Some(t)
    } else {
        match apply_fields(t, fs.drop_last()) {
            None => None,
            Some(t1) => patch_spec(t1, tokenize_spec(fs.last().0@), 0, Some(fs.last().1@)),
        }
    }
}

/// Applying each patch in turn to the endpoint whose name it bears.
pub open spec fn apply_all(t: Tree, ps: Seq<EndpointPatch>) -> Option<Tree>
    decreases ps.len(),
{
    if ps.len() == 0 {
        Some(t)
    } else {
        match apply_all(t, ps.drop_last()) {
            None => None,
            Some(t1) => match name_of(t1) {
                None => None,
                Some(n) => if n == ps.last().name@ {
                    apply_fields(t1, ps.last().fields@)
                } else {
                    Some(t1)
                },
            },
        }
    }
}

/// Every patch names an endpoint of the listing.
pub open spec fn all_named(ts: Seq<Tree>, ps: Seq<EndpointPatch>) -> bool {
    forall|p: int|
        0 <= p < ps.len() ==> exists|k: int| 0 <= k < ts.len() && name_of(ts[k]) == Some((#[trigger] ps[p]).name@)
}

fn name_is(j: &Json, name: &str) -> (r: Option<bool>)
    ensures
        match name_of(j@) {
            Some(n) => r == Some(n == name@),
            None => r is None,
        },
{
    proof {
        reveal_strlit("name");
    }
    match j.get("name") {
        Some(v) => match v.as_str() {
            Some(s) => Some(str_eq(s, name)),
            None => None,
        },
        None => None,
    }
}

#[verifier::loop_isolation(false)]
fn apply_fields_to(j: &mut Json, fs: &Vec<(String, Json)>) -> (r: Result<(), ParseError>)
    ensures
        match apply_fields(old(j)@, fs@) {
            Some(t) => r is Ok && final(j)@ == t,
            None => r is Err,
        },
{
    let ghost start = j@;
    let mut i: usize = 0;
    while i < fs.len()
        invariant
            i <= fs@.len(),
            apply_fields(start, fs@.subrange(0, i as int)) == Some(j@),
        decreases fs@.len() - i,
    {
        assert(fs@.subrange(0, i + 1).drop_last() =~= fs@.subrange(0, i as int));
        let v = crate::json::deep_copy(&fs[i].1);
        match j.patch_mut(DotPathStr(fs[i].0.as_str()), Some(v)) {
            Ok(()) => {},
            Err(e) => {
                proof {
                    lemma_fields_prefix_none(start, fs@, i + 1);
                }
                return Err(e);
            },
        }
        i = i + 1;
    }
    assert(fs@.subrange(0, i as int) =~= fs@);
    Ok(())
}

proof fn lemma_fields_prefix_none(t: Tree, fs: Seq<(String, Json)>, i: int)
    requires
        0 <= i <= fs.len(),
        apply_fields(t, fs.subrange(0, i)) is None,
    ensures
        apply_fields(t, fs) is None,
    decreases fs.len() - i,
{
    if i < fs.len() {
        assert(fs.subrange(0, i + 1).drop_last() =~= fs.subrange(0, i));
        lemma_fields_prefix_none(t, fs, i + 1);
    } else {
        assert(fs.subrange(0, i) =~= fs);
    }
}

proof fn lemma_all_prefix_none(t: Tree, ps: Seq<EndpointPatch>, i: int)
    requires
        0 <= i <= ps.len(),
        apply_all(t, ps.subrange(0, i)) is None,
    ensures
        apply_all(t, ps) is None,
    decreases ps.len() - i,
{
    if i < ps.len() {
        assert(ps.subrange(0, i + 1).drop_last() =~= ps.subrange(0, i));
        lemma_all_prefix_none(t, ps, i + 1);
    } else {
        assert(ps.subrange(0, i) =~= ps);
    }
}

#[verifier::loop_isolation(false)]
fn apply_all_to(j: &mut Json, ps: &Vec<EndpointPatch>) -> (r: Result<(), ParseError>)
    ensures
        match apply_all(old(j)@, ps@) {
            Some(t) => r is Ok && final(j)@ == t,
            None => r is Err,
        },
{
    let ghost start = j@;
    let mut i: usize = 0;
    while i < ps.len()
        invariant
            i <= ps@.len(),
            apply_all(start, ps@.subrange(0, i as int)) == Some(j@),
        decreases ps@.len() - i,
    {
        assert(ps@.subrange(0, i + 1).drop_last() =~= ps@.subrange(0, i as int));
        match name_is(j, ps[i].name.as_str()) {
            None => {
                proof {
                    lemma_all_prefix_none(start, ps@, i + 1);
                }
                return Err(ParseError::MissingField);
            },
            Some(true) => {
                match apply_fields_to(j, &ps[i].fields) {
                    Ok(()) => {},
                    Err(e) => {
                        proof {
                            lemma_all_prefix_none(start, ps@, i + 1);
                        }
                        return Err(e);
                    },
                }
            },
            Some(false) => {},
        }
        i = i + 1;
    }
    assert(ps@.subrange(0, i as int) =~= ps@);
    Ok(())
}

/// Whether some endpoint of `jsons` is named `name`.
fn is_named(jsons: &Vec<Json>, name: &str) -> (r: bool)
    ensures
        r == exists|k: int| 0 <= k < jsons@.len() && name_of(jsons@[k]@) == Some(name@),
{
    let mut k: usize = 0;
    while k < jsons.len()
        invariant
            k <= jsons@.len(),
            forall|m: int| 0 <= m < k ==> name_of(jsons@[m]@) != Some(name@),
        decreases jsons@.len() - k,
    {
        if let Some(true) = name_is(&jsons[k], name) {
            return true;
        }
        k = k + 1;
    }
    false
}

/// Applies `patches` to the raw endpoints `jsons`: each endpoint whose `name`
/// matches a patch gets that patch's fields set. A patch that names no
/// endpoint, an endpoint without a string `name`, or a field path that does
/// not apply is an error.
pub fn apply_endpoint_patches(jsons: &mut Vec<Json>, patches: &Vec<EndpointPatch>) -> (r: Result<(), ParseError>)
    ensures
        !all_named(view_items(old(jsons)@), patches@) ==> r == Err::<(), ParseError>(ParseError::InvalidData)
            && final(jsons)@ == old(jsons)@,
        all_named(view_items(old(jsons)@), patches@) ==> (r is Ok <==> forall|k: int|
            0 <= k < old(jsons)@.len() ==> apply_all(#[trigger] old(jsons)@[k]@, patches@) is Some),
        r is Ok ==> final(jsons)@.len() == old(jsons)@.len() && forall|k: int|
            0 <= k < old(jsons)@.len() ==> apply_all(#[trigger] old(jsons)@[k]@, patches@) == Some(
                final(jsons)@[k]@,
            ),
{
    proof {
        lemma_view_items(jsons@);
    }
    let mut p: usize = 0;
    while p < patches.len()
        invariant
            p <= patches@.len(),
            jsons@ == old(jsons)@,
            view_items(jsons@).len() == jsons@.len(),
            forall|m: int| 0 <= m < jsons@.len() ==> #[trigger] view_items(jsons@)[m] == jsons@[m]@,
            forall|q: int|
                0 <= q < p ==> exists|k: int| 0 <= k < jsons@.len() && name_of(jsons@[k]@) == Some((#[trigger] patches@[q]).name@),
        decreases patches@.len() - p,
    {
        if !is_named(jsons, patches[p].name.as_str()) {
            proof {
                if all_named(view_items(jsons@), patches@) {
                    let k = choose|k: int|
                        0 <= k < view_items(jsons@).len() && name_of(view_items(jsons@)[k]) == Some(patches@[p as int].name@);
                    assert(name_of(jsons@[k]@) == Some(patches@[p as int].name@));
                }
            }
            return Err(ParseError::InvalidData);
        }
        p = p + 1;
    }
    assert(all_named(view_items(jsons@), patches@)) by {
        assert forall|q: int| 0 <= q < patches@.len() implies exists|k: int|
            0 <= k < view_items(jsons@).len() && name_of(view_items(jsons@)[k]) == Some((#[trigger] patches@[q]).name@) by {
            let k = choose|k: int| 0 <= k < jsons@.len() && name_of(jsons@[k]@) == Some(patches@[q].name@);
            assert(view_items(jsons@)[k] == jsons@[k]@);
        }
    }
    let ghost orig = jsons@;
    assert(orig == old(jsons)@);
    let mut out: Vec<Json> = Vec::new();
    let n = jsons.len();
    let mut i: usize = 0;
    while i < n
        invariant
            n == orig.len(),
            orig == old(jsons)@,
            all_named(view_items(orig), patches@),
            i <= n,
            jsons@ == orig.subrange(i as int, n as int),
            out@.len() == i,
            forall|k: int| 0 <= k < i ==> apply_all(#[trigger] orig[k]@, patches@) == Some(out@[k]@),
        decreases n - i,
    {
        let mut j = jsons.remove(0);
        assert(j == orig[i as int]);
        match apply_all_to(&mut j, patches) {
            Ok(()) => {
                out.push(j);
            },
            Err(e) => {
                proof {
                    assert(apply_all(orig[i as int]@, patches@) is None);
                }
                return Err(e);
            },
        }
        assert(jsons@ =~= orig.subrange(i + 1, n as int));
        i = i + 1;
    }
    *jsons = out;
    Ok(())
}

/// The field paths and values of a correction.
pub open spec fn fields_view(fs: Seq<(String, Json)>) -> Seq<(Seq<char>, Tree)> {
    fs.map_values(|f: (String, Json)| (f.0@, f.1@))
}

/// Setting `method` to `post` and `path` to `path`.
pub open spec fn post_at(path: Seq<char>) -> Seq<(Seq<char>, Tree)> {
    seq![("method"@, Tree::Str("post"@)), ("path"@, Tree::Str(path))]
}

fn method_and_path(name: &str, path: &str) -> (r: EndpointPatch)
    ensures
        r.name@ == name@,
        fields_view(r.fields@) == post_at(path@),
{
    let mut fs: Vec<(String, Json)> = Vec::new();
    fs.push((owned("method"), Json::string("post")));
    fs.push((owned("path"), Json::string(path)));
    assert(fields_view(fs@) =~= post_at(path@));
    EndpointPatch { name: owned(name), fields: fs }
}

/// The paths that the corrections give the built-in endpoints, in order.
pub open spec fn table_paths() -> Seq<Seq<char>> {
    seq![
        "/Help"@, "/Subscribe"@, "/Unsubscribe"@, "/AsyncDelete"@, "/AsyncResult"@, "/AsyncStatus"@,
        "/Cancel"@, "/Exit"@, "/WebSocketFormat"@, "/LoggingGetEntries"@, "/LoggingMetrics"@,
        "/LoggingMetricsMetadata"@, "/LoggingStart"@, "/LoggingStop"@,
    ]
}

/// The endpoints that the fixed corrections name, in order.
pub open spec fn table_names() -> Seq<Seq<char>> {
    seq![
        "Help"@, "Subscribe"@, "Unsubscribe"@, "AsyncDelete"@, "AsyncResult"@, "AsyncStatus"@,
        "Cancel"@, "Exit"@, "WebSocketFormat"@, "LoggingGetEntries"@, "LoggingMetrics"@,
        "LoggingMetricsMetadata"@, "LoggingStart"@, "LoggingStop"@, "GetRiotclientRegionLocale"@,
    ]
}

/// The fixed corrections for the client's endpoint listing: built-in
/// endpoints that lack a method and path get `POST /<name>`, and one
/// mistagged endpoint gets its tag.
pub fn endpoint_patch_table() -> (r: Vec<EndpointPatch>)
    ensures
        r@.len() == table_names().len(),
        forall|i: int| 0 <= i < r@.len() ==> (#[trigger] r@[i]).name@ == table_names()[i],
        forall|i: int| 0 <= i < r@.len() - 1 ==> fields_view((#[trigger] r@[i]).fields@) == post_at(table_paths()[i]),
        fields_view(r@[r@.len() - 1].fields@) == seq![("tags"@, Tree::Array(seq![Tree::Str("riotclient"@)]))],
{
    let mut t: Vec<EndpointPatch> = Vec::new();
    t.push(method_and_path("Help", "/Help"));
    t.push(method_and_path("Subscribe", "/Subscribe"));
    t.push(method_and_path("Unsubscribe", "/Unsubscribe"));
    t.push(method_and_path("AsyncDelete", "/AsyncDelete"));
    t.push(method_and_path("AsyncResult", "/AsyncResult"));
    t.push(method_and_path("AsyncStatus", "/AsyncStatus"));
    t.push(method_and_path("Cancel", "/Cancel"));
    t.push(method_and_path("Exit", "/Exit"));
    t.push(method_and_path("WebSocketFormat", "/WebSocketFormat"));
    t.push(method_and_path("LoggingGetEntries", "/LoggingGetEntries"));
    t.push(method_and_path("LoggingMetrics", "/LoggingMetrics"));
    t.push(method_and_path("LoggingMetricsMetadata", "/LoggingMetricsMetadata"));
    t.push(method_and_path("LoggingStart", "/LoggingStart"));
    t.push(method_and_path("LoggingStop", "/LoggingStop"));
    let mut tags: Vec<Json> = Vec::new();
    let s0 = Json::string("riotclient");
    proof {
        crate::json::lemma_view_items_push(tags@, s0);
    }
    tags.push(s0);
    assert(view_items(tags@) =~= seq![Tree::Str("riotclient"@)]);
    let mut fs: Vec<(String, Json)> = Vec::new();
    fs.push((owned("tags"), Json::Array(tags)));
    assert(fields_view(fs@) =~= seq![("tags"@, Tree::Array(seq![Tree::Str("riotclient"@)]))]);
    t.push(EndpointPatch { name: owned("GetRiotclientRegionLocale"), fields: fs });
    t
}

} // verus!
