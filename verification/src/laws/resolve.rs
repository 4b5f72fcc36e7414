//! What holds of the packages that a crate is built from.

use crate::cfg::synthetic_cfg;
use crate::order::{item_keys, key_before, text_before};
use crate::resolve::{activated, declares, dev_only, enabled, found_id, holds, is_path, is_seed,
    leads_to, node_of, package_of, pulled_in, resolved, some_value_enables, synthetic_only,
    value_enables, Dependency, DependencyKind, Metadata, Node, NodeDep, Package, Resolve};
use vstd::prelude::*;

verus! {

/// The name by which features refer to a dependency: its rename, if any.
pub open spec fn feature_key(dep: Dependency) -> Seq<char> {
    if dep.rename is Some {
        dep.rename->0@
    } else {
        dep.name@
    }
}

/// An optional dependency is pulled in where an active feature has, at whatever position
/// among its values, `dep:` and the dependency's local name.
pub proof fn dep_value_pulls_in(
    parent: Package,
    active: Seq<String>,
    d: int,
    f: int,
    a: int,
    j: int,
)
    requires
        0 <= d < parent.dependencies@.len(),
        parent.dependencies@[d].kind != DependencyKind::Development,
        0 <= f < parent.features@.len(),
        0 <= a < active.len(),
        active[a]@ == parent.features@[f].0@,
        0 <= j < parent.features@[f].1@.len(),
        parent.features@[f].1@[j]@ == "dep:"@ + feature_key(parent.dependencies@[d]),
    ensures
        enabled(parent, active, parent.dependencies@[d].name@),
{
    let key = feature_key(parent.dependencies@[d]);
    assert(value_enables(parent.features@[f].1@[j]@, key));
    enabled_by_value(parent, active, d, f, a, j);
}

/// Likewise where the value is the local name, a `/` and a feature.
pub proof fn feature_of_dependency_pulls_in(
    parent: Package,
    active: Seq<String>,
    d: int,
    f: int,
    a: int,
    j: int,
    feature: Seq<char>,
)
    requires
        0 <= d < parent.dependencies@.len(),
        parent.dependencies@[d].kind != DependencyKind::Development,
        0 <= f < parent.features@.len(),
        0 <= a < active.len(),
        active[a]@ == parent.features@[f].0@,
        0 <= j < parent.features@[f].1@.len(),
        parent.features@[f].1@[j]@ == feature_key(parent.dependencies@[d]) + "/"@ + feature,
    ensures
        enabled(parent, active, parent.dependencies@[d].name@),
{
    let key = feature_key(parent.dependencies@[d]);
    let part = key + "/"@;
    assert((part + feature).subrange(0, part.len() as int) == part);
    assert(value_enables(parent.features@[f].1@[j]@, key));
    enabled_by_value(parent, active, d, f, a, j);
}

proof fn enabled_by_value(parent: Package, active: Seq<String>, d: int, f: int, a: int, j: int)
    requires
        0 <= d < parent.dependencies@.len(),
        parent.dependencies@[d].kind != DependencyKind::Development,
        0 <= f < parent.features@.len(),
        0 <= a < active.len(),
        active[a]@ == parent.features@[f].0@,
        0 <= j < parent.features@[f].1@.len(),
        value_enables(parent.features@[f].1@[j]@, feature_key(parent.dependencies@[d])),
    ensures
        enabled(parent, active, parent.dependencies@[d].name@),
{
    let dep = parent.dependencies@[d];
    assert(some_value_enables(parent.features@[f].1@, feature_key(dep)));
    assert(holds(active, parent.features@[f].0@));
    assert(activated(parent, active, feature_key(dep)));
    assert(pulled_in(parent, active, dep));
    assert(declares(parent.dependencies@[d], dep.name@));
}

/// An optional dependency is pulled in where its local name is an active feature.
pub proof fn own_feature_pulls_in(parent: Package, active: Seq<String>, d: int, a: int)
    requires
        0 <= d < parent.dependencies@.len(),
        parent.dependencies@[d].kind != DependencyKind::Development,
        0 <= a < active.len(),
        active[a]@ == feature_key(parent.dependencies@[d]),
    ensures
        enabled(parent, active, parent.dependencies@[d].name@),
{
    let dep = parent.dependencies@[d];
    assert(holds(active, feature_key(dep)));
    assert(pulled_in(parent, active, dep));
    assert(declares(parent.dependencies@[d], dep.name@));
}

/// A dependency that is not optional is pulled in whatever the features.
pub proof fn needed_dependency_is_pulled_in(parent: Package, active: Seq<String>, d: int)
    requires
        0 <= d < parent.dependencies@.len(),
        parent.dependencies@[d].kind != DependencyKind::Development,
        !parent.dependencies@[d].optional,
    ensures
        enabled(parent, active, parent.dependencies@[d].name@),
{
    assert(pulled_in(parent, active, parent.dependencies@[d]));
    assert(declares(parent.dependencies@[d], parent.dependencies@[d].name@));
}

/// A package that the manifest declares nowhere but for development is kept.
pub proof fn undeclared_package_is_kept(parent: Package, active: Seq<String>, name: Seq<char>)
    requires
        forall|d: int|
            0 <= d < parent.dependencies@.len() && (#[trigger] parent.dependencies@[d]).name@ == name
                ==> parent.dependencies@[d].kind == DependencyKind::Development,
    ensures
        enabled(parent, active, name),
{
}

/// Nothing else pulls in a declared package: where each of its declarations is optional,
/// its local name is no active feature, and no value of an active feature is `dep:` and
/// that name or begins with that name and `/`, the package is left out.
pub proof fn nothing_else_pulls_in(parent: Package, active: Seq<String>, name: Seq<char>, d: int)
    requires
        0 <= d < parent.dependencies@.len(),
        parent.dependencies@[d].name@ == name,
        parent.dependencies@[d].kind != DependencyKind::Development,
        forall|i: int|
            0 <= i < parent.dependencies@.len() && (#[trigger] parent.dependencies@[i]).name@ == name
                && parent.dependencies@[i].kind != DependencyKind::Development
                ==> parent.dependencies@[i].optional,
        forall|i: int, a: int|
            0 <= i < parent.dependencies@.len() && (#[trigger] parent.dependencies@[i]).name@ == name
                && 0 <= a < active.len() ==> (#[trigger] active[a])@ != feature_key(
                parent.dependencies@[i],
            ),
        forall|i: int, f: int, a: int, j: int|
            0 <= i < parent.dependencies@.len() && (#[trigger] parent.dependencies@[i]).name@ == name
                && 0 <= f < parent.features@.len() && 0 <= a < active.len() && (
            #[trigger] active[a])@ == parent.features@[f].0@ && 0 <= j
                < parent.features@[f].1@.len() ==> {
                let value = (#[trigger] parent.features@[f].1@[j])@;
                let key = feature_key(parent.dependencies@[i]);
                &&& value != "dep:"@ + key
                &&& forall|rest: Seq<char>| value != #[trigger] (key + "/"@ + rest)
            },
    ensures
        !enabled(parent, active, name),
{
    if enabled(parent, active, name) {
        assert(declares(parent.dependencies@[d], name));
        let i = choose|i: int|
            0 <= i < parent.dependencies@.len() && declares(
                #[trigger] parent.dependencies@[i],
                name,
            ) && pulled_in(parent, active, parent.dependencies@[i]);
        let key = feature_key(parent.dependencies@[i]);
        if holds(active, key) {
            let a = choose|a: int| 0 <= a < active.len() && #[trigger] active[a]@ == key;
            assert(active[a]@ != key);
        } else {
            let f = choose|f: int|
                0 <= f < parent.features@.len() && holds(
                    active,
                    (#[trigger] parent.features@[f]).0@,
                ) && some_value_enables(parent.features@[f].1@, key);
            let values = parent.features@[f].1@;
            let a = choose|a: int|
                0 <= a < active.len() && #[trigger] active[a]@ == parent.features@[f].0@;
            let j = choose|j: int|
                0 <= j < values.len() && value_enables(#[trigger] values[j]@, key);
            let value = parent.features@[f].1@[j]@;
            assert(active[a]@ == parent.features@[f].0@);
            assert(value != "dep:"@ + key);
            let part = key + "/"@;
            assert(value == part + value.skip(part.len() as int));
        }
    }
}

/// Whether an edge counts in a normal build: no reason is given for it, or one that is not
/// for development and is not limited to a synthetic build flag.
pub open spec fn counts_in_a_build(dep: NodeDep) -> bool {
    dep.dep_kinds@.len() == 0 || exists|k: int|
        0 <= k < dep.dep_kinds@.len() && (#[trigger] dep.dep_kinds@[k]).kind
            != DependencyKind::Development && (dep.dep_kinds@[k].target is None || !synthetic_cfg(
            dep.dep_kinds@[k].target->0@,
        ))
}

proof fn edge_counts_unless_dropped(dep: NodeDep)
    ensures
        counts_in_a_build(dep) <==> !dev_only(dep) && !synthetic_only(dep),
{
    if counts_in_a_build(dep) && dep.dep_kinds@.len() > 0 {
        let k = choose|k: int|
            0 <= k < dep.dep_kinds@.len() && (#[trigger] dep.dep_kinds@[k]).kind
                != DependencyKind::Development && (dep.dep_kinds@[k].target is None
                || !synthetic_cfg(dep.dep_kinds@[k].target->0@));
        assert(dep.dep_kinds@[k].kind != DependencyKind::Development);
    }
    if !dev_only(dep) && !synthetic_only(dep) && dep.dep_kinds@.len() > 0 {
        let i = choose|i: int|
            0 <= i < dep.dep_kinds@.len() && (#[trigger] dep.dep_kinds@[i]).kind
                != DependencyKind::Development;
        assert(dep.dep_kinds@[i].kind != DependencyKind::Development);
        let k = choose|k: int|
            0 <= k < dep.dep_kinds@.len() && (#[trigger] dep.dep_kinds@[k]).kind
                != DependencyKind::Development && !crate::resolve::under_synthetic_cfg(
                dep.dep_kinds@[k],
            );
        assert(dep.dep_kinds@[k].kind != DependencyKind::Development);
    }
}

/// Whether `p` is the position of a package, the last one with its id.
pub open spec fn at_package(packages: Seq<Package>, p: int) -> bool {
    0 <= p < packages.len() && forall|q: int|
        p < q < packages.len() ==> (#[trigger] packages[q]).id@ != packages[p].id@
}

/// Whether `n` is the position of a node, the last one with its id.
pub open spec fn at_node(nodes: Seq<Node>, n: int) -> bool {
    0 <= n < nodes.len() && forall|m: int|
        n < m < nodes.len() ==> (#[trigger] nodes[m]).id@ != nodes[n].id@
}

proof fn last_package_is_the_one(packages: Seq<Package>, p: int)
    requires
        at_package(packages, p),
    ensures
        package_of(packages, packages[p].id@) == Some(packages[p]),
    decreases packages.len(),
{
    if p < packages.len() - 1 {
        let rest = packages.drop_last();
        assert(packages[packages.len() - 1].id@ != packages[p].id@);
        assert forall|q: int| p < q < rest.len() implies (#[trigger] rest[q]).id@ != rest[p].id@ by {
            assert(rest[q] == packages[q]);
        }
        last_package_is_the_one(rest, p);
    }
}

proof fn package_has_a_position(packages: Seq<Package>, id: Seq<char>) -> (p: int)
    requires
        package_of(packages, id) is Some,
    ensures
        at_package(packages, p),
        packages[p].id@ == id,
        package_of(packages, id) == Some(packages[p]),
    decreases packages.len(),
{
    let last = packages.len() - 1;
    if packages.last().id@ == id {
        last
    } else {
        let rest = packages.drop_last();
        let p = package_has_a_position(rest, id);
        assert forall|q: int| p < q < packages.len() implies (#[trigger] packages[q]).id@
            != packages[p].id@ by {
            if q < last {
                assert(rest[q] == packages[q]);
            }
        }
        p
    }
}

proof fn last_node_is_the_one(nodes: Seq<Node>, n: int)
    requires
        at_node(nodes, n),
    ensures
        node_of(nodes, nodes[n].id@) == Some(nodes[n]),
    decreases nodes.len(),
{
    if n < nodes.len() - 1 {
        let rest = nodes.drop_last();
        assert(nodes[nodes.len() - 1].id@ != nodes[n].id@);
        assert forall|m: int| n < m < rest.len() implies (#[trigger] rest[m]).id@ != rest[n].id@ by {
            assert(rest[m] == nodes[m]);
        }
        last_node_is_the_one(rest, n);
    }
}

proof fn node_has_a_position(nodes: Seq<Node>, id: Seq<char>) -> (n: int)
    requires
        node_of(nodes, id) is Some,
    ensures
        at_node(nodes, n),
        nodes[n].id@ == id,
        node_of(nodes, id) == Some(nodes[n]),
    decreases nodes.len(),
{
    let last = nodes.len() - 1;
    if nodes.last().id@ == id {
        last
    } else {
        let rest = nodes.drop_last();
        let n = node_has_a_position(rest, id);
        assert forall|m: int| n < m < nodes.len() implies (#[trigger] nodes[m]).id@ != nodes[n].id@ by {
            if m < last {
                assert(rest[m] == nodes[m]);
            }
        }
        n
    }
}

/// Whether the package `package` is among those found.
pub open spec fn is_found(found: Seq<&Package>, package: Package) -> bool {
    exists|m: int| 0 <= m < found.len() && *(#[trigger] found[m]) == package
}

proof fn found_id_is_found(
    metadata: Metadata,
    resolve: Resolve,
    found: Seq<&Package>,
    p: int,
)
    requires
        resolved(metadata, resolve, found),
        at_package(metadata.packages@, p),
    ensures
        found_id(found, metadata.packages@[p].id@) <==> is_found(found, metadata.packages@[p]),
{
    let package = metadata.packages@[p];
    last_package_is_the_one(metadata.packages@, p);
    if found_id(found, package.id@) {
        let m = choose|m: int| 0 <= m < found.len() && (#[trigger] found[m]).id@ == package.id@;
        assert(*found[m] == package);
    }
    if is_found(found, package) {
        let m = choose|m: int| 0 <= m < found.len() && *(#[trigger] found[m]) == package;
        assert(found[m].id@ == package.id@);
    }
}

/// What a found package pulls in, along an edge that counts in a normal build, is found.
/// `n` and `e` give the edge, `p` and `q` the packages at its two ends.
pub proof fn pulled_in_package_is_found(
    metadata: Metadata,
    resolve: Resolve,
    found: Seq<&Package>,
    n: int,
    e: int,
    p: int,
    q: int,
)
    requires
        resolved(metadata, resolve, found),
        at_node(resolve.nodes@, n),
        at_package(metadata.packages@, p),
        at_package(metadata.packages@, q),
        0 <= e < resolve.nodes@[n].deps@.len(),
        resolve.nodes@[n].id@ == metadata.packages@[p].id@,
        resolve.nodes@[n].deps@[e].pkg@ == metadata.packages@[q].id@,
        is_found(found, metadata.packages@[p]),
        counts_in_a_build(resolve.nodes@[n].deps@[e]),
        enabled(
            metadata.packages@[p],
            resolve.nodes@[n].features@,
            metadata.packages@[q].name@,
        ),
    ensures
        is_found(found, metadata.packages@[q]),
{
    let from = metadata.packages@[p].id@;
    let to = metadata.packages@[q].id@;
    last_node_is_the_one(resolve.nodes@, n);
    last_package_is_the_one(metadata.packages@, p);
    last_package_is_the_one(metadata.packages@, q);
    found_id_is_found(metadata, resolve, found, p);
    found_id_is_found(metadata, resolve, found, q);
    edge_counts_unless_dropped(resolve.nodes@[n].deps@[e]);
    assert(leads_to(metadata.packages@, resolve.nodes@, from, to));
    crate::resolve::found_packages_are_closed(metadata, resolve, found, from, to);
}

/// An optional dependency of a found package is found where an active feature has, at
/// whatever position `j` among its values, `dep:` and the local name of the dependency, or
/// that name, a `/` and a feature.
pub proof fn dependency_behind_a_feature_is_found(
    metadata: Metadata,
    resolve: Resolve,
    found: Seq<&Package>,
    n: int,
    e: int,
    p: int,
    q: int,
    d: int,
    f: int,
    a: int,
    j: int,
)
    requires
        resolved(metadata, resolve, found),
        at_node(resolve.nodes@, n),
        at_package(metadata.packages@, p),
        at_package(metadata.packages@, q),
        0 <= e < resolve.nodes@[n].deps@.len(),
        resolve.nodes@[n].id@ == metadata.packages@[p].id@,
        resolve.nodes@[n].deps@[e].pkg@ == metadata.packages@[q].id@,
        is_found(found, metadata.packages@[p]),
        counts_in_a_build(resolve.nodes@[n].deps@[e]),
        0 <= d < metadata.packages@[p].dependencies@.len(),
        metadata.packages@[p].dependencies@[d].kind != DependencyKind::Development,
        metadata.packages@[p].dependencies@[d].name@ == metadata.packages@[q].name@,
        0 <= f < metadata.packages@[p].features@.len(),
        0 <= a < resolve.nodes@[n].features@.len(),
        resolve.nodes@[n].features@[a]@ == metadata.packages@[p].features@[f].0@,
        0 <= j < metadata.packages@[p].features@[f].1@.len(),
        ({
            let value = metadata.packages@[p].features@[f].1@[j]@;
            let key = feature_key(metadata.packages@[p].dependencies@[d]);
            value == "dep:"@ + key || exists|feature: Seq<char>|
                value == #[trigger] (key + "/"@ + feature)
        }),
    ensures
        is_found(found, metadata.packages@[q]),
{
    let parent = metadata.packages@[p];
    let active = resolve.nodes@[n].features@;
    let value = parent.features@[f].1@[j]@;
    let key = feature_key(parent.dependencies@[d]);
    if value == "dep:"@ + key {
        dep_value_pulls_in(parent, active, d, f, a, j);
    } else {
        let feature = choose|feature: Seq<char>| value == #[trigger] (key + "/"@ + feature);
        feature_of_dependency_pulls_in(parent, active, d, f, a, j, feature);
    }
    pulled_in_package_is_found(metadata, resolve, found, n, e, p, q);
}

/// Whether the walk starts at the package with `id`: it is the root, or, where there is
/// none, a member of the workspace.
pub open spec fn starts_at(metadata: Metadata, resolve: Resolve, id: Seq<char>) -> bool {
    if resolve.root is Some {
        resolve.root->0@ == id
    } else {
        exists|w: int|
            0 <= w < metadata.workspace_members@.len() && (
            #[trigger] metadata.workspace_members@[w])@ == id
    }
}

/// The package at which the walk starts is found.
pub proof fn start_is_found(metadata: Metadata, resolve: Resolve, found: Seq<&Package>, p: int)
    requires
        resolved(metadata, resolve, found),
        at_package(metadata.packages@, p),
        starts_at(metadata, resolve, metadata.packages@[p].id@),
    ensures
        is_found(found, metadata.packages@[p]),
{
    let id = metadata.packages@[p].id@;
    if resolve.root is None {
        let w = choose|w: int|
            0 <= w < metadata.workspace_members@.len() && (
            #[trigger] metadata.workspace_members@[w])@ == id;
        assert(metadata.workspace_members@[w]@ == id);
    }
    assert(is_seed(metadata, resolve, id));
    last_package_is_the_one(metadata.packages@, p);
    crate::resolve::seeds_are_found(metadata, resolve, found, id);
    found_id_is_found(metadata, resolve, found, p);
}

/// Whether the package `from` has, with the active features of its node, an edge that
/// counts in a normal build to the package `to` and pulls it in.
pub open spec fn pulls_in(resolve: Resolve, from: Package, to: Package) -> bool {
    exists|n: int, e: int|
        at_node(resolve.nodes@, n) && 0 <= e < resolve.nodes@[n].deps@.len()
            && resolve.nodes@[n].id@ == from.id@ && (
        #[trigger] resolve.nodes@[n].deps@[e]).pkg@ == to.id@ && counts_in_a_build(
            resolve.nodes@[n].deps@[e],
        ) && enabled(from, resolve.nodes@[n].features@, to.name@)
}

proof fn edge_pulls_in(metadata: Metadata, resolve: Resolve, from: Package, to: Package)
    requires
        leads_to(metadata.packages@, resolve.nodes@, from.id@, to.id@),
        package_of(metadata.packages@, from.id@) == Some(from),
        package_of(metadata.packages@, to.id@) == Some(to),
    ensures
        pulls_in(resolve, from, to),
{
    let n = node_has_a_position(resolve.nodes@, from.id@);
    let node = resolve.nodes@[n];
    let e = choose|e: int|
        0 <= e < node.deps@.len() && (#[trigger] node.deps@[e]).pkg@ == to.id@
            && crate::resolve::followed(
            metadata.packages@,
            from,
            node.features@,
            node.deps@[e],
        );
    edge_counts_unless_dropped(node.deps@[e]);
    assert(resolve.nodes@[n].deps@[e].pkg@ == to.id@);
}

/// Whether `way` goes through found packages, from one at which the walk starts, each
/// pulling in the next.
pub open spec fn is_way(
    metadata: Metadata,
    resolve: Resolve,
    found: Seq<&Package>,
    way: Seq<int>,
) -> bool {
    &&& way.len() > 0
    &&& forall|i: int| 0 <= i < way.len() ==> 0 <= #[trigger] way[i] < found.len()
    &&& starts_at(metadata, resolve, found[way[0]].id@)
    &&& forall|i: int|
        0 < i < way.len() ==> pulls_in(resolve, *found[way[i - 1]], *found[#[trigger] way[i]])
}

/// No package is found without a reason: a way leads to it from where the walk starts.
pub proof fn found_package_has_a_way(
    metadata: Metadata,
    resolve: Resolve,
    found: Seq<&Package>,
    m: int,
) -> (way: Seq<int>)
    requires
        resolved(metadata, resolve, found),
        0 <= m < found.len(),
    ensures
        is_way(metadata, resolve, found, way),
        way.last() == m,
{
    let id = found[m].id@;
    assert(found_id(found, id));
    let path = choose|path: Seq<Seq<char>>| #[trigger]
        is_path(metadata, resolve, path) && path.last() == id;
    let last = path.len() - 1;
    let way = Seq::new(
        path.len(),
        |i: int|
            if i == last {
                m
            } else {
                choose|k: int| 0 <= k < found.len() && (#[trigger] found[k]).id@ == path[i]
            },
    );
    assert forall|i: int| 0 <= i < way.len() implies 0 <= #[trigger] way[i] < found.len()
        && found[way[i]].id@ == path[i] by {
        if i < last {
            assert(leads_to(metadata.packages@, resolve.nodes@, path[i + 1 - 1], path[i + 1]));
            let start = path.take(i + 1);
            assert forall|k: int| 0 < k < start.len() implies leads_to(
                metadata.packages@,
                resolve.nodes@,
                start[k - 1],
                #[trigger] start[k],
            ) by {
                assert(start[k] == path[k]);
            }
            assert(is_path(metadata, resolve, start) && start.last() == path[i]);
            assert(crate::resolve::reached(metadata, resolve, path[i]));
            assert(found_id(found, path[i]));
        }
    }
    assert forall|i: int| 0 < i < way.len() implies pulls_in(
        resolve,
        *found[way[i - 1]],
        *found[#[trigger] way[i]],
    ) by {
        assert(leads_to(metadata.packages@, resolve.nodes@, path[i - 1], path[i]));
        assert(0 <= way[i - 1] < found.len());
        edge_pulls_in(metadata, resolve, *found[way[i - 1]], *found[way[i]]);
    }
    assert(0 <= way[0] < found.len());
    assert(is_seed(metadata, resolve, path[0]));
    if resolve.root is None {
        let members = metadata.workspace_members@;
        let w = choose|w: int| 0 <= w < members.len() && #[trigger] members[w]@ == path[0];
        assert(metadata.workspace_members@[w]@ == path[0]);
    }
    way
}

/// The found packages are packages of the metadata, in strictly ascending order of their
/// ids.
pub proof fn found_packages_are_those_of_the_metadata(
    metadata: Metadata,
    resolve: Resolve,
    found: Seq<&Package>,
    m: int,
)
    requires
        resolved(metadata, resolve, found),
        0 <= m < found.len(),
    ensures
        exists|p: int|
            #![trigger metadata.packages@[p]]
            at_package(metadata.packages@, p) && *found[m] == metadata.packages@[p],
        forall|k: int| 0 <= k < m ==> text_before((#[trigger] found[k]).id@, found[m].id@),
{
    assert(package_of(metadata.packages@, found[m].id@) == Some(*found[m]));
    let p = package_has_a_position(metadata.packages@, found[m].id@);
    assert(*found[m] == metadata.packages@[p]);
    let keys = item_keys(found);
    assert forall|k: int| 0 <= k < m implies text_before((#[trigger] found[k]).id@, found[m].id@) by {
        assert(key_before(keys[k], keys[m]));
        crate::order::text_order_is_irreflexive(""@);
    }
}

} // verus!
