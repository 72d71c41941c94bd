//! Assembling the document: components from named types, paths from
//! endpoints, then the tag pass.
use vstd::prelude::*;
use crate::endpoint::{comps_view, operation_result, params_spec, response_spec};
use crate::error::ParseError;
use crate::help::{Endpoint, ExtendedHelp, HttpMethod, Type};
use crate::openapi::{OpenApiInfo, OpenApiSpec, Operation, PathItem, Schema, SchemaObject};
use crate::order::tags_sorted;
use crate::resolve::{type_error, type_schema, type_wf};
use crate::text::{owned, str_eq};

verus! {

broadcast use vstd::std_specs::vec::group_vec_axioms;

/// The first error, other than a private type, that resolving `ts` gives.
pub open spec fn components_error(ts: Seq<Type>) -> Option<ParseError>
    decreases ts.len(),
{
    if ts.len() == 0 {
        None
    } else {
        match components_error(ts.drop_last()) {
            Some(e) => Some(e),
            None => match type_error(ts.last()) {
                Some(ParseError::PrivateApiTypeNotSupported) => None,
                Some(e) => Some(e),
                None => None,
            },
        }
    }
}

/// Position of the first component named `k`.
pub open spec fn comp_index(cs: Seq<(Seq<char>, Schema)>, k: Seq<char>) -> Option<int>
    decreases cs.len(),
{
    if cs.len() == 0 {
        None
    } else if cs.last().0 == k && comp_index(cs.drop_last(), k) is None {
        Some(cs.len() - 1)
    } else {
        comp_index(cs.drop_last(), k)
    }
}

/// Components with `k` set to `s`: replaced in place, or added at the end.
pub open spec fn comp_put(cs: Seq<(Seq<char>, Schema)>, k: Seq<char>, s: Schema) -> Seq<(Seq<char>, Schema)> {
    match comp_index(cs, k) {
        Some(i) => cs.update(i, (k, s)),
        None => cs.push((k, s)),
    }
}

/// The components after resolving the types `ts` onto `base`.
pub open spec fn components_spec(base: Seq<(Seq<char>, Schema)>, ts: Seq<Type>) -> Seq<(Seq<char>, Schema)>
    decreases ts.len(),
{
    if ts.len() == 0 {
        base
    } else {
        let prev = components_spec(base, ts.drop_last());
        match type_schema(ts.last()) {
            Ok(s) => comp_put(prev, ts.last().info.name@, s),
            Err(_) => prev,
        }
    }
}

proof fn lemma_comp_index(cs: Seq<(Seq<char>, Schema)>, k: Seq<char>, i: int)
    requires
        0 <= i < cs.len(),
        cs[i].0 == k,
        forall|j: int| 0 <= j < i ==> cs[j].0 != k,
    ensures
        comp_index(cs, k) == Some(i),
    decreases cs.len(),
{
    if i < cs.len() - 1 {
        lemma_comp_index(cs.drop_last(), k, i);
    } else {
        lemma_comp_none(cs.drop_last(), k);
    }
}

proof fn lemma_comp_none(cs: Seq<(Seq<char>, Schema)>, k: Seq<char>)
    requires
        forall|j: int| 0 <= j < cs.len() ==> cs[j].0 != k,
    ensures
        comp_index(cs, k) is None,
    decreases cs.len(),
{
    if cs.len() > 0 {
        lemma_comp_none(cs.drop_last(), k);
    }
}

pub open spec fn slot(p: PathItem, m: HttpMethod) -> Option<Operation> {
    match m {
        HttpMethod::Get => p.get,
        HttpMethod::Post => p.post,
        HttpMethod::Put => p.put,
        HttpMethod::Delete => p.delete,
        HttpMethod::Patch => p.patch,
        HttpMethod::Options => p.options,
        HttpMethod::Head => p.head,
        HttpMethod::Trace => p.trace,
    }
}

/// The verb an endpoint is filed under: its own, GET when it has none.
pub open spec fn filed_method(m: Option<HttpMethod>) -> HttpMethod {
    match m {
        Some(x) => x,
        None => HttpMethod::Get,
    }
}

/// The paths hold `op` on path `p` for method `m`.
pub open spec fn op_at(paths: Seq<(String, PathItem)>, p: Seq<char>, m: HttpMethod, op: Operation) -> bool {
    exists|j: int| 0 <= j < paths.len() && paths[j].0@ == p && slot(paths[j].1, m) == Some(op)
}

/// Two endpoints go to the same path and verb.
pub open spec fn same_slot(a: Endpoint, b: Endpoint) -> bool {
    a.path is Some && b.path is Some && a.path->0@ == b.path->0@ && filed_method(a.method)
        == filed_method(b.method)
}

/// Endpoint `k` of `eps` is filed: its slot holds the operation of an
/// endpoint of `eps[..n]` that goes to the same slot.
pub open spec fn filed(paths: Seq<(String, PathItem)>, eps: Seq<Endpoint>, k: int, n: int, cs: Seq<(Seq<char>, Schema)>) -> bool {
    exists|op: Operation|
        #![trigger op_at(paths, eps[k].path->0@, filed_method(eps[k].method), op)]
        op_at(paths, eps[k].path->0@, filed_method(eps[k].method), op) && exists|j: int|
            0 <= j < n && same_slot(#[trigger] eps[j], eps[k]) && operation_result(eps[j], cs, Ok::<Operation, ParseError>(op))
}

proof fn lemma_filed_step(
    before: Seq<(String, PathItem)>,
    after: Seq<(String, PathItem)>,
    eps: Seq<Endpoint>,
    i: int,
    cs: Seq<(Seq<char>, Schema)>,
    opv: Operation,
)
    requires
        0 <= i < eps.len(),
        eps[i].path is Some,
        operation_result(eps[i], cs, Ok::<Operation, ParseError>(opv)),
        op_at(after, eps[i].path->0@, filed_method(eps[i].method), opv),
        forall|q: Seq<char>, n: HttpMethod, o: Operation|
            !(q == eps[i].path->0@ && n == filed_method(eps[i].method)) && op_at(before, q, n, o) ==> #[trigger] op_at(after, q, n, o),
        forall|k: int| 0 <= k < i ==> (#[trigger] eps[k]).path is Some && filed(before, eps, k, i, cs),
    ensures
        forall|k: int| 0 <= k < i + 1 ==> (#[trigger] eps[k]).path is Some && filed(after, eps, k, i + 1, cs),
{
    assert forall|k: int| 0 <= k < i + 1 implies (#[trigger] eps[k]).path is Some && filed(after, eps, k, i + 1, cs) by {
        if k == i || same_slot(eps[k], eps[i]) {
            assert(op_at(after, eps[k].path->0@, filed_method(eps[k].method), opv));
            assert(same_slot(eps[i], eps[k]));
        } else {
            assert(filed(before, eps, k, i, cs));
            let o = choose|o: Operation|
                #![trigger op_at(before, eps[k].path->0@, filed_method(eps[k].method), o)]
                op_at(before, eps[k].path->0@, filed_method(eps[k].method), o) && exists|j: int|
                    0 <= j < i && same_slot(#[trigger] eps[j], eps[k]) && operation_result(eps[j], cs, Ok::<Operation, ParseError>(o));
            assert(op_at(after, eps[k].path->0@, filed_method(eps[k].method), o));
            let j = choose|j: int|
                0 <= j < i && same_slot(#[trigger] eps[j], eps[k]) && operation_result(eps[j], cs, Ok::<Operation, ParseError>(o));
            assert(0 <= j < i + 1);
        }
    }
}

/// The paths hold an operation on path `p` for method `m`.
pub open spec fn has_operation(paths: Seq<(String, PathItem)>, p: Seq<char>, m: HttpMethod) -> bool {
    exists|j: int| 0 <= j < paths.len() && paths[j].0@ == p && slot(paths[j].1, m) is Some
}

/// Sets the schema for `name`, replacing the first one of the same name.
fn put_component(cs: &mut Vec<(String, SchemaObject)>, name: &str, s: SchemaObject)
    ensures
        comps_view(final(cs)@) == comp_put(comps_view(old(cs)@), name@, s@),
{
    let ghost sv = s@;
    let mut i: usize = 0;
    while i < cs.len()
        invariant
            i <= cs@.len(),
            cs@ == old(cs)@,
            sv == s@,
            forall|j: int| 0 <= j < i ==> comps_view(cs@)[j].0 != name@,
        decreases cs@.len() - i,
    {
        if str_eq(cs[i].0.as_str(), name) {
            let ghost before = cs@;
            proof {
                lemma_comp_index(comps_view(before), name@, i as int);
            }
            let e = (owned(name), s);
            assert(e.0@ == name@ && e.1@ == sv);
            cs.set(i, e);
            assert(cs@ == before.update(i as int, e));
            assert(comps_view(cs@) =~= comps_view(before).update(i as int, (name@, sv)));
            return;
        }
        i = i + 1;
    }
    let ghost before = cs@;
    proof {
        lemma_comp_none(comps_view(before), name@);
    }
    cs.push((owned(name), s));
    assert(comps_view(cs@) =~= comps_view(before).push((name@, sv)));
}

impl OpenApiSpec {
    /// Adds a component schema for every named type that resolves; a private
    /// type is skipped, any other error stops the pass.
    pub fn resolve_components(&mut self, extended_help: &ExtendedHelp) -> (r: Result<(), ParseError>)
        requires
            forall|k: int| 0 <= k < extended_help.types@.len() ==> type_wf(#[trigger] extended_help.types@[k]),
        ensures
            match components_error(extended_help.types@) {
                Some(e) => r == Err::<(), ParseError>(e),
                None => r is Ok && comps_view(final(self).components.schemas@) == components_spec(
                    comps_view(old(self).components.schemas@),
                    extended_help.types@,
                ),
            },
            final(self).paths@ == old(self).paths@,
    {
        let mut i: usize = 0;
        while i < extended_help.types.len()
            invariant
                i <= extended_help.types@.len(),
                self.paths@ == old(self).paths@,
                forall|k: int| 0 <= k < extended_help.types@.len() ==> type_wf(#[trigger] extended_help.types@[k]),
                components_error(extended_help.types@.subrange(0, i as int)) is None,
                comps_view(self.components.schemas@) == components_spec(
                    comps_view(old(self).components.schemas@),
                    extended_help.types@.subrange(0, i as int),
                ),
            decreases extended_help.types@.len() - i,
        {
            let ty = &extended_help.types[i];
            assert(extended_help.types@.subrange(0, i + 1).drop_last() =~= extended_help.types@.subrange(0, i as int));
            let res = SchemaObject::try_from_type(ty);
            assert(extended_help.types@.subrange(0, i + 1).last() == *ty);
            match res {
                Ok(schema) => {
                    put_component(&mut self.components.schemas, ty.info.name.as_str(), schema);
                },
                Err(ParseError::PrivateApiTypeNotSupported) => {},
                Err(e) => {
                    proof {
                        let pre = extended_help.types@.subrange(0, i + 1);
                        assert(pre.last() == *ty);
                        assert(pre.drop_last() =~= extended_help.types@.subrange(0, i as int));
                        assert(type_error(*ty) == Some(e));
                        assert(components_error(pre) == Some(e));
                        lemma_components_error_prefix(extended_help.types@, i + 1);
                        assert(components_error(extended_help.types@) == Some(e));
                    }
                    return Err(e);
                },
            }
            i = i + 1;
        }
        assert(extended_help.types@.subrange(0, i as int) =~= extended_help.types@);
        Ok(())
    }

    /// Adds the operation of every endpoint under its path and verb (GET
    /// when it has none); of endpoints that share a path and verb the last
    /// one stays. The first endpoint that does not resolve (one without a
    /// path among them) stops the pass with its error.
    pub fn resolve_paths(&mut self, extended_help: &ExtendedHelp) -> (r: Result<(), ParseError>)
        ensures
            r is Ok ==> forall|k: int|
                0 <= k < extended_help.endpoints@.len() ==> (#[trigger] extended_help.endpoints@[k]).path is Some
                    && filed(
                    final(self).paths@,
                    extended_help.endpoints@,
                    k,
                    extended_help.endpoints@.len() as int,
                    comps_view(old(self).components.schemas@),
                ),
            r matches Err(e) ==> exists|k: int|
                0 <= k < extended_help.endpoints@.len() && operation_result(
                    #[trigger] extended_help.endpoints@[k],
                    comps_view(old(self).components.schemas@),
                    Err::<Operation, ParseError>(e),
                ),
            (forall|k: int|
                0 <= k < extended_help.endpoints@.len() ==> (#[trigger] extended_help.endpoints@[k]).path is Some
                    && params_spec(extended_help.endpoints@[k], comps_view(old(self).components.schemas@)) is Ok
                    && response_spec(extended_help.endpoints@[k]) is Ok) ==> r is Ok,
            final(self).components.schemas@ == old(self).components.schemas@,
    {
        let ghost eps = extended_help.endpoints@;
        let ghost cs = comps_view(old(self).components.schemas@);
        let mut i: usize = 0;
        while i < extended_help.endpoints.len()
            invariant
                i <= eps.len(),
                eps == extended_help.endpoints@,
                cs == comps_view(old(self).components.schemas@),
                self.components.schemas@ == old(self).components.schemas@,
                forall|k: int| 0 <= k < i ==> (#[trigger] eps[k]).path is Some && filed(self.paths@, eps, k, i as int, cs),
            decreases eps.len() - i,
        {
            let ep = &extended_help.endpoints[i];
            let op = match ep.operation(self) {
                Ok(op) => op,
                Err(e) => {
                    assert(params_spec(*ep, comps_view(self.components.schemas@)) is Err || response_spec(*ep) is Err
                        || ep.path is None);
                    assert(!(eps[i as int].path is Some
                        && params_spec(eps[i as int], cs) is Ok
                        && response_spec(eps[i as int]) is Ok));
                    assert(operation_result(eps[i as int], cs, Err::<Operation, ParseError>(e)));
                    return Err(e);
                },
            };
            let ghost opv = op;
            let path = match &ep.path {
                Some(p) => p,
                None => {
                    return Err(ParseError::EndpointPathCannotBeNone);
                },
            };
            let m = match ep.method {
                Some(m) => m,
                None => HttpMethod::Get,
            };
            let ghost before = self.paths@;
            self.put_operation(path.as_str(), m, op);
            proof {
                lemma_filed_step(before, self.paths@, eps, i as int, cs, opv);
            }
            i = i + 1;
        }
        Ok(())
    }

    /// Sets the operation for `path` and `m`, adding the path if needed.
    fn put_operation(&mut self, path: &str, m: HttpMethod, op: Operation)
        ensures
            op_at(final(self).paths@, path@, m, op),
            forall|q: Seq<char>, n: HttpMethod, o: Operation|
                !(q == path@ && n == m) && op_at(old(self).paths@, q, n, o) ==> #[trigger] op_at(final(self).paths@, q, n, o),
            final(self).components.schemas@ == old(self).components.schemas@,
    {
        let ghost opv = op;
        let idx = match find_path(&self.paths, path) {
            Some(i) => i,
            None => {
                let ghost before = self.paths@;
                self.paths.push((owned(path), PathItem::new()));
                assert forall|q: Seq<char>, n: HttpMethod, o: Operation| op_at(before, q, n, o) implies op_at(self.paths@, q, n, o) by {
                    let j = choose|j: int| 0 <= j < before.len() && before[j].0@ == q && slot(before[j].1, n) == Some(o);
                    assert(self.paths@[j] == before[j]);
                }
                assert(self.paths@[self.paths@.len() - 1].0@ == path@);
                self.paths.len() - 1
            },
        };
        assert(idx < self.paths@.len() && self.paths@[idx as int].0@ == path@);
        let ghost before = self.paths@;
        assert(forall|q: Seq<char>, n: HttpMethod, o: Operation| op_at(old(self).paths@, q, n, o) ==> op_at(before, q, n, o));
        let (p, item) = self.paths.remove(idx);
        let mut item = item;
        let ghost old_item = item;
        match m {
            HttpMethod::Get => item.get = Some(op),
            HttpMethod::Post => item.post = Some(op),
            HttpMethod::Put => item.put = Some(op),
            HttpMethod::Delete => item.delete = Some(op),
            HttpMethod::Patch => item.patch = Some(op),
            HttpMethod::Options => item.options = Some(op),
            HttpMethod::Head => item.head = Some(op),
            HttpMethod::Trace => item.trace = Some(op),
        }
        self.paths.insert(idx, (p, item));
        assert(self.paths@ =~= before.update(idx as int, (p, item)));
        assert(slot(item, m) == Some(opv));
        assert(self.paths@[idx as int].0@ == path@);
        assert(op_at(self.paths@, path@, m, opv));
        assert forall|q: Seq<char>, n: HttpMethod, o: Operation| !(q == path@ && n == m) && op_at(before, q, n, o) implies op_at(self.paths@, q, n, o) by {
            let j = choose|j: int| 0 <= j < before.len() && before[j].0@ == q && slot(before[j].1, n) == Some(o);
            if j != idx {
                assert(self.paths@[j] == before[j]);
            } else {
                assert(n != m);
                assert(slot(item, n) == slot(old_item, n));
            }
        }
    }
}

/// Position of the path item for `path`, if there is one.
fn find_path(paths: &Vec<(String, PathItem)>, path: &str) -> (r: Option<usize>)
    ensures
        r matches Some(i) ==> i < paths@.len() && paths@[i as int].0@ == path@,
{
    let mut i: usize = 0;
    while i < paths.len()
        invariant
            i <= paths@.len(),
        decreases paths@.len() - i,
    {
        if str_eq(paths[i].0.as_str(), path) {
            return Some(i);
        }
        i = i + 1;
    }
    None
}

proof fn lemma_components_error_prefix(ts: Seq<Type>, i: int)
    requires
        0 <= i <= ts.len(),
        components_error(ts.subrange(0, i)) is Some,
    ensures
        components_error(ts) == components_error(ts.subrange(0, i)),
    decreases ts.len() - i,
{
    if i < ts.len() {
        assert(ts.subrange(0, i + 1).drop_last() =~= ts.subrange(0, i));
        lemma_components_error_prefix(ts, i + 1);
    } else {
        assert(ts.subrange(0, i) =~= ts);
    }
}

/// The OpenAPI document for a snapshot: components from the named types,
/// operations from the endpoints, then the tag pass.
pub fn build_openapi(info: OpenApiInfo, extended_help: &ExtendedHelp) -> (r: Result<OpenApiSpec, ParseError>)
    requires
        forall|k: int| 0 <= k < extended_help.types@.len() ==> type_wf(#[trigger] extended_help.types@[k]),
    ensures
        components_error(extended_help.types@) matches Some(e) ==> r == Err::<OpenApiSpec, ParseError>(e),
        r matches Ok(spec) ==> tags_sorted(spec.tags@) && comps_view(spec.components.schemas@)
            == components_spec(Seq::empty(), extended_help.types@),
        r matches Ok(spec) ==> forall|k: int|
            0 <= k < extended_help.endpoints@.len() ==> (#[trigger] extended_help.endpoints@[k]).path is Some
                && has_operation(spec.paths@, extended_help.endpoints@[k].path->0@, filed_method(extended_help.endpoints@[k].method)),
        components_error(extended_help.types@) is None && (forall|k: int|
            0 <= k < extended_help.endpoints@.len() ==> (#[trigger] extended_help.endpoints@[k]).path is Some
                && params_spec(extended_help.endpoints@[k], components_spec(Seq::empty(), extended_help.types@)) is Ok
                && response_spec(extended_help.endpoints@[k]) is Ok) ==> r is Ok,
{
    let mut spec = OpenApiSpec::from(info);
    assert(comps_view(spec.components.schemas@) =~= Seq::empty());
    match spec.resolve_components(extended_help) {
        Ok(()) => {},
        Err(e) => {
            return Err(e);
        },
    }
    match spec.resolve_paths(extended_help) {
        Ok(()) => {},
        Err(e) => {
            return Err(e);
        },
    }
    let ghost before = spec.paths@;
    proof {
        assert forall|k: int| 0 <= k < extended_help.endpoints@.len() implies has_operation(before, (#[trigger] extended_help.endpoints@[k]).path->0@, filed_method(extended_help.endpoints@[k].method)) by {
            let ep = extended_help.endpoints@[k];
            let o = choose|o: Operation|
                #![trigger op_at(before, ep.path->0@, filed_method(ep.method), o)]
                op_at(before, ep.path->0@, filed_method(ep.method), o) && exists|j: int|
                    0 <= j < extended_help.endpoints@.len() && same_slot(#[trigger] extended_help.endpoints@[j], ep) && operation_result(extended_help.endpoints@[j], comps_view(spec.components.schemas@), Ok::<Operation, ParseError>(o));
            let j = choose|j: int| 0 <= j < before.len() && before[j].0@ == ep.path->0@ && slot(before[j].1, filed_method(ep.method)) == Some(o);
            assert(slot(before[j].1, filed_method(ep.method)) is Some);
        }
    }
    spec.resolve_tags();
    proof {
        let all = crate::tags::doc_tags(before);
        assert forall|p: Seq<char>, m: HttpMethod| has_operation(before, p, m) implies has_operation(spec.paths@, p, m) by {
            let j = choose|j: int| 0 <= j < before.len() && before[j].0@ == p && slot(before[j].1, m) is Some;
            assert(spec.paths@[j].0@ == before[j].0@);
            assert(crate::tags::item_retagged(before[j].1, spec.paths@[j].1, all, before[j].0@));
        }
    }
    Ok(spec)
}

} // verus!
