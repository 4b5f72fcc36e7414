//! The packages that a crate is built from, out of `cargo metadata`'s graph.

use crate::cfg::{is_synthetic_cfg, synthetic_cfg};
use crate::error::{Failure, LicenseError};
use crate::order::{ascending, ascending_keys_are_determined, item_key, item_keys, place, placed,
    placing_keeps_order, Key, Keyed};
use crate::text::begins_with;
use vstd::prelude::*;

verus! {

/// Skip dependencies reachable only through dev-dependency edges.
pub const IGNORE_DEV_DEPENDENCIES: bool = true;

/// What a dependency is needed for.
#[derive(Debug, Clone, Copy, PartialEq, Eq, Structural)]
pub enum DependencyKind {
    Normal,
    Development,
    Build,
    Unknown,
}

/// A dependency as the manifest of a package declares it.
#[derive(Debug)]
pub struct Dependency {
    pub name: String,
    pub kind: DependencyKind,
    pub optional: bool,
    /// The local name, where it differs from the name of the package.
    pub rename: Option<String>,
}

/// A package of the metadata.
#[derive(Debug)]
pub struct Package {
    pub id: String,
    pub name: String,
    pub version: String,
    pub license: Option<String>,
    pub repository: Option<String>,
    pub manifest_path: String,
    pub dependencies: Vec<Dependency>,
    /// Each feature with what it enables.
    pub features: Vec<(String, Vec<String>)>,
}

/// One of the reasons for an edge of the graph.
#[derive(Debug)]
pub struct DepKindInfo {
    pub kind: DependencyKind,
    /// The platforms to which the reason is limited.
    pub target: Option<String>,
}

/// An edge of the graph.
#[derive(Debug)]
pub struct NodeDep {
    pub pkg: String,
    pub dep_kinds: Vec<DepKindInfo>,
}

/// A package in the graph, with its edges and its active features.
#[derive(Debug)]
pub struct Node {
    pub id: String,
    pub deps: Vec<NodeDep>,
    pub features: Vec<String>,
}

/// The resolved graph. A virtual workspace has no root.
#[derive(Debug)]
pub struct Resolve {
    pub root: Option<String>,
    pub nodes: Vec<Node>,
}

/// What `cargo metadata` says of a manifest.
#[derive(Debug)]
pub struct Metadata {
    pub packages: Vec<Package>,
    pub workspace_members: Vec<String>,
    pub resolve: Option<Resolve>,
}

/// Whether `text` is one of `list`.
pub open spec fn holds(list: Seq<String>, text: Seq<char>) -> bool {
    exists|i: int| 0 <= i < list.len() && #[trigger] list[i]@ == text
}

/// The name by which features refer to a dependency.
pub open spec fn local_name(dep: Dependency) -> Seq<char> {
    match dep.rename {
        Some(name) => name@,
        None => dep.name@,
    }
}

/// Whether a feature with `value` among what it enables pulls in the dependency
/// `key`. The weak form `key?/feature` does not.
pub open spec fn value_enables(value: Seq<char>, key: Seq<char>) -> bool {
    value == "dep:"@ + key || (key + "/"@).is_prefix_of(value)
}

/// Whether one of `values` pulls in the dependency `key`.
pub open spec fn some_value_enables(values: Seq<String>, key: Seq<char>) -> bool {
    exists|j: int| 0 <= j < values.len() && value_enables(#[trigger] values[j]@, key)
}

/// Whether the `active` features of `parent` pull in its dependency `key`.
pub open spec fn activated(parent: Package, active: Seq<String>, key: Seq<char>) -> bool {
    ||| holds(active, key)
    ||| exists|i: int|
        0 <= i < parent.features@.len() && holds(active, (#[trigger] parent.features@[i]).0@)
            && some_value_enables(parent.features@[i].1@, key)
}

/// Whether `dep` declares the package `name` for other than development.
pub open spec fn declares(dep: Dependency, name: Seq<char>) -> bool {
    dep.kind != DependencyKind::Development && dep.name@ == name
}

/// Whether `dep` is pulled in with the features `active`.
pub open spec fn pulled_in(parent: Package, active: Seq<String>, dep: Dependency) -> bool {
    !dep.optional || activated(parent, active, local_name(dep))
}

/// Whether `parent` pulls in the package `name` with the features `active`: some
/// declaration of it is pulled in, or there is none.
pub open spec fn enabled(parent: Package, active: Seq<String>, name: Seq<char>) -> bool {
    ||| exists|i: int|
        0 <= i < parent.dependencies@.len() && declares(
            #[trigger] parent.dependencies@[i],
            name,
        ) && pulled_in(parent, active, parent.dependencies@[i])
    ||| forall|i: int|
        0 <= i < parent.dependencies@.len() ==> !declares(
            #[trigger] parent.dependencies@[i],
            name,
        )
}

/// Whether `dep` is there for development alone.
pub open spec fn dev_only(dep: NodeDep) -> bool {
    &&& dep.dep_kinds@.len() > 0
    &&& forall|i: int|
        0 <= i < dep.dep_kinds@.len() ==> (#[trigger] dep.dep_kinds@[i]).kind
            == DependencyKind::Development
}

/// Whether `info` is limited to a synthetic build flag.
pub open spec fn under_synthetic_cfg(info: DepKindInfo) -> bool {
    info.target is Some && synthetic_cfg(info.target->0@)
}

/// Whether `dep` is there, apart from development, under synthetic build flags
/// alone.
pub open spec fn synthetic_only(dep: NodeDep) -> bool {
    &&& exists|i: int|
        0 <= i < dep.dep_kinds@.len() && (#[trigger] dep.dep_kinds@[i]).kind
            != DependencyKind::Development
    &&& forall|i: int|
        0 <= i < dep.dep_kinds@.len() && (#[trigger] dep.dep_kinds@[i]).kind
            != DependencyKind::Development ==> under_synthetic_cfg(dep.dep_kinds@[i])
}

/// The package with `id`: the last one, where there are several.
pub open spec fn package_of(packages: Seq<Package>, id: Seq<char>) -> Option<Package>
    decreases packages.len(),
{
    if packages.len() == 0 {
        None
    } else if packages.last().id@ == id {
        Some(packages.last())
    } else {
        package_of(packages.drop_last(), id)
    }
}

/// The node with `id`: the last one, where there are several.
pub open spec fn node_of(nodes: Seq<Node>, id: Seq<char>) -> Option<Node>
    decreases nodes.len(),
{
    if nodes.len() == 0 {
        None
    } else if nodes.last().id@ == id {
        Some(nodes.last())
    } else {
        node_of(nodes.drop_last(), id)
    }
}

/// Whether the edge `dep` of a package is followed.
pub open spec fn followed(
    packages: Seq<Package>,
    parent: Package,
    active: Seq<String>,
    dep: NodeDep,
) -> bool {
    &&& !(IGNORE_DEV_DEPENDENCIES && dev_only(dep))
    &&& !synthetic_only(dep)
    &&& package_of(packages, dep.pkg@) is Some
    &&& enabled(parent, active, package_of(packages, dep.pkg@)->0.name@)
}

/// Whether the node of a package has a followed edge to `to`.
pub open spec fn node_leads_to(
    packages: Seq<Package>,
    parent: Package,
    node: Node,
    to: Seq<char>,
) -> bool {
    exists|i: int|
        0 <= i < node.deps@.len() && (#[trigger] node.deps@[i]).pkg@ == to && followed(
            packages,
            parent,
            node.features@,
            node.deps@[i],
        )
}

/// Whether a followed edge leads from the package `from` to the package `to`.
pub open spec fn leads_to(
    packages: Seq<Package>,
    nodes: Seq<Node>,
    from: Seq<char>,
    to: Seq<char>,
) -> bool {
    &&& node_of(nodes, from) is Some
    &&& package_of(packages, from) is Some
    &&& node_leads_to(packages, package_of(packages, from)->0, node_of(nodes, from)->0, to)
}

/// Where the walk starts: at the root, or at every member of the workspace.
pub open spec fn is_seed(metadata: Metadata, resolve: Resolve, id: Seq<char>) -> bool {
    match resolve.root {
        Some(root) => root@ == id,
        None => holds(metadata.workspace_members@, id),
    }
}

/// Whether `path` starts at a seed and goes along followed edges.
pub open spec fn is_path(metadata: Metadata, resolve: Resolve, path: Seq<Seq<char>>) -> bool {
    &&& path.len() > 0
    &&& is_seed(metadata, resolve, path[0])
    &&& forall|i: int|
        0 < i < path.len() ==> leads_to(
            metadata.packages@,
            resolve.nodes@,
            path[i - 1],
            #[trigger] path[i],
        )
}

/// Whether the package `id` is reached from a seed along followed edges.
pub open spec fn reached(metadata: Metadata, resolve: Resolve, id: Seq<char>) -> bool {
    exists|path: Seq<Seq<char>>| #[trigger]
        is_path(metadata, resolve, path) && path.last() == id
}

/// Whether `id` is the id of one of `found`.
pub open spec fn found_id(found: Seq<&Package>, id: Seq<char>) -> bool {
    exists|i: int| 0 <= i < found.len() && (#[trigger] found[i]).id@ == id
}

/// Whether `found` are the reached packages, each once, in the order of their ids.
pub open spec fn resolved(metadata: Metadata, resolve: Resolve, found: Seq<&Package>) -> bool {
    &&& ascending(item_keys(found))
    &&& forall|i: int|
        0 <= i < found.len() ==> package_of(
            metadata.packages@,
            (#[trigger] found[i]).id@,
        ) == Some(*found[i])
    &&& forall|id: Seq<char>| #[trigger]
        found_id(found, id) <==> reached(metadata, resolve, id) && package_of(
            metadata.packages@,
            id,
        ) is Some
}

impl<'a> Keyed for &'a Package {
    open spec fn key(&self) -> Key {
        (self.id@, ""@)
    }

    fn first(&self) -> (r: &str) {
        self.id.as_str()
    }

    fn second(&self) -> (r: &str) {
        ""
    }
}

/// Whether `text` is one of `list`.
fn listed(list: &Vec<String>, text: &str) -> (r: bool)
    ensures
        r == holds(list@, text@),
{
    let mut i: usize = 0;
    while i < list.len()
        invariant
            i <= list@.len(),
            forall|j: int| 0 <= j < i ==> (#[trigger] list@[j])@ != text@,
        decreases list@.len() - i,
    {
        if list[i].as_str().eq(text) {
            return true;
        }
        i += 1;
    }
    false
}

/// Whether one of `values` pulls in the dependency `key`.
fn enables(values: &Vec<String>, key: &str) -> (r: bool)
    ensures
        r == some_value_enables(values@, key@),
{
    let mut whole = String::new();
    whole.append("dep:");
    whole.append(key);
    assert(whole@ == "dep:"@ + key@);
    let mut part = String::new();
    part.append(key);
    part.append("/");
    assert(part@ == key@ + "/"@);
    let mut i: usize = 0;
    while i < values.len()
        invariant
            i <= values@.len(),
            whole@ == "dep:"@ + key@,
            part@ == key@ + "/"@,
            forall|j: int| 0 <= j < i ==> !value_enables((#[trigger] values@[j])@, key@),
        decreases values@.len() - i,
    {
        if values[i] == whole || begins_with(values[i].as_str(), part.as_str()) {
            assert(value_enables(values@[i as int]@, key@));
            return true;
        }
        i += 1;
    }
    false
}

/// Whether the `active` features of `parent` pull in its dependency `key`.
fn is_activated(parent: &Package, active: &Vec<String>, key: &str) -> (r: bool)
    ensures
        r == activated(*parent, active@, key@),
{
    if listed(active, key) {
        return true;
    }
    let mut i: usize = 0;
    while i < parent.features.len()
        invariant
            i <= parent.features@.len(),
            forall|j: int|
                0 <= j < i ==> !(holds(active@, (#[trigger] parent.features@[j]).0@)
                    && some_value_enables(parent.features@[j].1@, key@)),
        decreases parent.features@.len() - i,
    {
        if listed(active, parent.features[i].0.as_str()) && enables(&parent.features[i].1, key) {
            return true;
        }
        i += 1;
    }
    false
}

/// Whether `parent` actually pulls in the dependency crate named `dep_name`
/// given its resolved set of `active` features. A non-optional (non-dev)
/// dependency is always pulled in; an optional one only if some active feature
/// activates it (`name` / `dep:name` / `name/feature`, but not the weak
/// `name?/feature`). Where the manifest has no matching entry, the dependency is
/// kept.
pub fn dependency_enabled(parent: &Package, active: &Vec<String>, dep_name: &str) -> (r: bool)
    ensures
        r == enabled(*parent, active@, dep_name@),
{
    let mut matched: bool = false;
    let mut i: usize = 0;
    while i < parent.dependencies.len()
        invariant
            i <= parent.dependencies@.len(),
            forall|j: int|
                0 <= j < i && declares(#[trigger] parent.dependencies@[j], dep_name@)
                    ==> !pulled_in(*parent, active@, parent.dependencies@[j]),
            matched == exists|j: int|
                0 <= j < i && declares(#[trigger] parent.dependencies@[j], dep_name@),
        decreases parent.dependencies@.len() - i,
    {
        let dep = &parent.dependencies[i];
        if dep.kind != DependencyKind::Development && dep.name.as_str().eq(dep_name) {
            assert(declares(parent.dependencies@[i as int], dep_name@));
            matched = true;
            let key = match &dep.rename {
                Some(rename) => rename.as_str(),
                None => dep.name.as_str(),
            };
            if !dep.optional || is_activated(parent, active, key) {
                assert(pulled_in(*parent, active@, parent.dependencies@[i as int]));
                return true;
            }
        }
        i += 1;
    }
    !matched
}

/// Whether the edge `dep` is there for development or under synthetic build flags
/// alone.
fn dropped(dep: &NodeDep) -> (r: bool)
    ensures
        r == ((IGNORE_DEV_DEPENDENCIES && dev_only(*dep)) || synthetic_only(*dep)),
{
    let mut other: bool = false;
    let mut synthetic: bool = true;
    let mut i: usize = 0;
    while i < dep.dep_kinds.len()
        invariant
            i <= dep.dep_kinds@.len(),
            other == exists|j: int|
                0 <= j < i && (#[trigger] dep.dep_kinds@[j]).kind != DependencyKind::Development,
            synthetic == forall|j: int|
                0 <= j < i && (#[trigger] dep.dep_kinds@[j]).kind != DependencyKind::Development
                    ==> under_synthetic_cfg(dep.dep_kinds@[j]),
        decreases dep.dep_kinds@.len() - i,
    {
        let info = &dep.dep_kinds[i];
        assert(*info == dep.dep_kinds@[i as int]);
        if info.kind != DependencyKind::Development {
            other = true;
            let limited = match &info.target {
                Some(target) => is_synthetic_cfg(target.as_str()),
                None => false,
            };
            assert(limited == under_synthetic_cfg(dep.dep_kinds@[i as int]));
            if !limited {
                synthetic = false;
            }
        }
        i += 1;
    }
    if IGNORE_DEV_DEPENDENCIES && dep.dep_kinds.len() > 0 && !other {
        return true;
    }
    other && synthetic
}

/// The package with `id`.
fn find_package<'a>(packages: &'a Vec<Package>, id: &str) -> (r: Option<&'a Package>)
    ensures
        match r {
            Some(package) => package_of(packages@, id@) == Some(*package),
            None => package_of(packages@, id@) is None,
        },
{
    let mut end: usize = packages.len();
    assert(packages@.take(end as int) == packages@);
    while end > 0
        invariant
            end <= packages@.len(),
            package_of(packages@, id@) == package_of(packages@.take(end as int), id@),
        decreases end,
    {
        assert(packages@.take(end as int).drop_last() == packages@.take(end - 1));
        if packages[end - 1].id.as_str().eq(id) {
            return Some(&packages[end - 1]);
        }
        end -= 1;
    }
    None
}

/// The node with `id`.
fn find_node<'a>(nodes: &'a Vec<Node>, id: &str) -> (r: Option<&'a Node>)
    ensures
        match r {
            Some(node) => node_of(nodes@, id@) == Some(*node),
            None => node_of(nodes@, id@) is None,
        },
{
    let mut end: usize = nodes.len();
    assert(nodes@.take(end as int) == nodes@);
    while end > 0
        invariant
            end <= nodes@.len(),
            node_of(nodes@, id@) == node_of(nodes@.take(end as int), id@),
        decreases end,
    {
        assert(nodes@.take(end as int).drop_last() == nodes@.take(end - 1));
        if nodes[end - 1].id.as_str().eq(id) {
            return Some(&nodes[end - 1]);
        }
        end -= 1;
    }
    None
}

/// The ids in `list`.
spec fn ids_of(list: Seq<&String>) -> Seq<Seq<char>> {
    list.map_values(|s: &String| s@)
}

/// Every id at which the walk can arrive.
spec fn arrivals(metadata: Metadata, resolve: Resolve) -> Seq<Seq<char>> {
    let seeds = match resolve.root {
        Some(root) => seq![root@],
        None => metadata.workspace_members@.map_values(|s: String| s@),
    };
    seeds + metadata.packages@.map_values(|p: Package| p.id@)
}

proof fn package_is_listed(packages: Seq<Package>, id: Seq<char>)
    requires
        package_of(packages, id) is Some,
    ensures
        package_of(packages, id)->0.id@ == id,
        packages.map_values(|p: Package| p.id@).contains(id),
    decreases packages.len(),
{
    let ids = packages.map_values(|p: Package| p.id@);
    if packages.last().id@ == id {
        assert(ids[packages.len() - 1] == id);
    } else {
        package_is_listed(packages.drop_last(), id);
        let rest = packages.drop_last().map_values(|p: Package| p.id@);
        let i = choose|i: int| 0 <= i < rest.len() && rest[i] == id;
        assert(ids[i] == id);
    }
}

proof fn seed_is_arrival(metadata: Metadata, resolve: Resolve, id: Seq<char>)
    requires
        is_seed(metadata, resolve, id),
    ensures
        arrivals(metadata, resolve).contains(id),
{
    let all = arrivals(metadata, resolve);
    match resolve.root {
        Some(root) => {
            assert(all[0] == id);
        },
        None => {
            let members = metadata.workspace_members@;
            let i = choose|i: int| 0 <= i < members.len() && #[trigger] members[i]@ == id;
            assert(all[i] == id);
        },
    }
}

proof fn package_is_arrival(metadata: Metadata, resolve: Resolve, id: Seq<char>)
    requires
        package_of(metadata.packages@, id) is Some,
    ensures
        arrivals(metadata, resolve).contains(id),
{
    let all = arrivals(metadata, resolve);
    let ids = metadata.packages@.map_values(|p: Package| p.id@);
    package_is_listed(metadata.packages@, id);
    let i = choose|i: int| 0 <= i < ids.len() && ids[i] == id;
    assert(all[all.len() - ids.len() + i] == id);
}

/// Different ids out of `all` are no more than `all` has.
proof fn distinct_ids_are_bounded(ids: Seq<Seq<char>>, all: Seq<Seq<char>>)
    requires
        ids.no_duplicates(),
        forall|id: Seq<char>| ids.contains(id) ==> all.contains(id),
    ensures
        ids.len() <= all.to_set().len(),
{
    ids.unique_seq_to_set();
    vstd::seq_lib::seq_to_set_is_finite(all);
    assert(ids.to_set().subset_of(all.to_set()));
    vstd::set_lib::lemma_len_subset(ids.to_set(), all.to_set());
}

proof fn seed_is_reached(metadata: Metadata, resolve: Resolve, id: Seq<char>)
    requires
        is_seed(metadata, resolve, id),
    ensures
        reached(metadata, resolve, id),
{
    assert(is_path(metadata, resolve, seq![id]));
    assert(seq![id].last() == id);
}

proof fn step_is_reached(metadata: Metadata, resolve: Resolve, from: Seq<char>, to: Seq<char>)
    requires
        reached(metadata, resolve, from),
        leads_to(metadata.packages@, resolve.nodes@, from, to),
    ensures
        reached(metadata, resolve, to),
{
    let path = choose|path: Seq<Seq<char>>| #[trigger]
        is_path(metadata, resolve, path) && path.last() == from;
    let longer = path.push(to);
    assert forall|i: int| 0 < i < longer.len() implies leads_to(
        metadata.packages@,
        resolve.nodes@,
        longer[i - 1],
        #[trigger] longer[i],
    ) by {
        if i < path.len() {
            assert(longer[i] == path[i]);
        }
    }
    assert(is_path(metadata, resolve, longer));
    assert(longer.last() == to);
}

/// Ids that hold every seed and every target of their followed edges hold all that
/// is reached.
proof fn closed_ids_hold_reached(
    metadata: Metadata,
    resolve: Resolve,
    ids: Seq<Seq<char>>,
    path: Seq<Seq<char>>,
)
    requires
        is_path(metadata, resolve, path),
        forall|id: Seq<char>| is_seed(metadata, resolve, id) ==> ids.contains(id),
        forall|a: Seq<char>, b: Seq<char>|
            ids.contains(a) && #[trigger] leads_to(metadata.packages@, resolve.nodes@, a, b)
                ==> ids.contains(b),
    ensures
        ids.contains(path.last()),
    decreases path.len(),
{
    if path.len() > 1 {
        let shorter = path.drop_last();
        assert forall|i: int| 0 < i < shorter.len() implies leads_to(
            metadata.packages@,
            resolve.nodes@,
            shorter[i - 1],
            #[trigger] shorter[i],
        ) by {
            assert(shorter[i] == path[i]);
        }
        closed_ids_hold_reached(metadata, resolve, ids, shorter);
        let last = path.len() - 1;
        assert(leads_to(metadata.packages@, resolve.nodes@, path[last - 1], path[last]));
    }
}

/// Whether `id` is one of `seen`.
fn visited(seen: &Vec<&String>, id: &str) -> (r: bool)
    ensures
        r == ids_of(seen@).contains(id@),
{
    let mut i: usize = 0;
    while i < seen.len()
        invariant
            i <= seen@.len(),
            forall|j: int| 0 <= j < i ==> (#[trigger] seen@[j])@ != id@,
        decreases seen@.len() - i,
    {
        if seen[i].as_str().eq(id) {
            assert(ids_of(seen@)[i as int] == id@);
            return true;
        }
        i += 1;
    }
    false
}

/// Where the walk starts.
fn seeds<'a>(metadata: &'a Metadata, resolve: &'a Resolve) -> (r: Vec<&'a String>)
    ensures
        forall|id: Seq<char>|
            ids_of(r@).contains(id) <==> #[trigger] is_seed(*metadata, *resolve, id),
{
    let mut out: Vec<&'a String> = Vec::new();
    match &resolve.root {
        Some(root) => {
            out.push(root);
            assert forall|id: Seq<char>| is_seed(*metadata, *resolve, id) implies ids_of(
                out@,
            ).contains(id) by {
                assert(ids_of(out@)[0] == id);
            }
        },
        None => {
            let members = &metadata.workspace_members;
            let mut i: usize = 0;
            while i < members.len()
                invariant
                    i <= members@.len(),
                    out@.len() == i,
                    forall|j: int| 0 <= j < i ==> *(#[trigger] out@[j]) == members@[j],
                decreases members@.len() - i,
            {
                out.push(&members[i]);
                i += 1;
            }
            assert forall|id: Seq<char>| ids_of(out@).contains(id) <==> #[trigger] is_seed(
                *metadata,
                *resolve,
                id,
            ) by {
                if ids_of(out@).contains(id) {
                    let j = choose|j: int| 0 <= j < out@.len() && ids_of(out@)[j] == id;
                    assert(members@[j]@ == id);
                }
                if is_seed(*metadata, *resolve, id) {
                    let j = choose|j: int| 0 <= j < members@.len() && #[trigger] members@[j]@ == id;
                    assert(ids_of(out@)[j] == id);
                }
            }
        },
    }
    out
}

/// Puts the targets of the followed edges of `id` on `stack`.
fn push_targets<'a>(
    metadata: &'a Metadata,
    resolve: &'a Resolve,
    id: &str,
    stack: &mut Vec<&'a String>,
)
    ensures
        forall|to: Seq<char>|
            #![trigger ids_of(final(stack)@).contains(to)]
            #![trigger leads_to(metadata.packages@, resolve.nodes@, id@, to)]
            ids_of(final(stack)@).contains(to) <==> ids_of(old(stack)@).contains(to) || leads_to(
                metadata.packages@,
                resolve.nodes@,
                id@,
                to,
            ),
{
    let ghost start = stack@;
    let (node, parent) = match (find_node(&resolve.nodes, id), find_package(&metadata.packages, id)) {
        (Some(node), Some(parent)) => (node, parent),
        _ => {
            return ;
        },
    };
    let mut i: usize = 0;
    while i < node.deps.len()
        invariant
            i <= node.deps@.len(),
            forall|to: Seq<char>|
                #![trigger ids_of(stack@).contains(to)]
                ids_of(stack@).contains(to) <==> ids_of(start).contains(to) || exists|j: int|
                    0 <= j < i && (#[trigger] node.deps@[j]).pkg@ == to && followed(
                        metadata.packages@,
                        *parent,
                        node.features@,
                        node.deps@[j],
                    ),
        decreases node.deps@.len() - i,
    {
        let dep = &node.deps[i];
        let ghost before = stack@;
        let ghost here = node.deps@[i as int];
        let mut follow: bool = false;
        if !dropped(dep) {
            if let Some(dep_pkg) = find_package(&metadata.packages, dep.pkg.as_str()) {
                follow = dependency_enabled(parent, &node.features, dep_pkg.name.as_str());
            }
        }
        assert(follow == followed(metadata.packages@, *parent, node.features@, here));
        if follow {
            stack.push(&dep.pkg);
        }
        i += 1;
        assert forall|to: Seq<char>|
            #![trigger ids_of(stack@).contains(to)]
            ids_of(stack@).contains(to) <==> ids_of(start).contains(to) || exists|j: int|
                0 <= j < i && (#[trigger] node.deps@[j]).pkg@ == to && followed(
                    metadata.packages@,
                    *parent,
                    node.features@,
                    node.deps@[j],
                ) by {
            let old_ids = ids_of(before);
            let new_ids = ids_of(stack@);
            if follow {
                assert(new_ids == old_ids.push(here.pkg@));
                if new_ids.contains(to) && to != here.pkg@ {
                    let n = choose|n: int| 0 <= n < new_ids.len() && new_ids[n] == to;
                    assert(old_ids[n] == to);
                }
                if old_ids.contains(to) {
                    let n = choose|n: int| 0 <= n < old_ids.len() && old_ids[n] == to;
                    assert(new_ids[n] == to);
                }
                if to == here.pkg@ {
                    assert(new_ids[old_ids.len() as int] == to);
                    assert(node.deps@[i - 1].pkg@ == to);
                }
            } else {
                assert(new_ids == old_ids);
            }
            assert(old_ids.contains(to) <==> ids_of(before).contains(to));
        }
    }
}

/// The ids that are reached, each once.
fn walk<'a>(metadata: &'a Metadata, resolve: &'a Resolve) -> (seen: Vec<&'a String>)
    ensures
        ids_of(seen@).no_duplicates(),
        forall|id: Seq<char>|
            ids_of(seen@).contains(id) <==> #[trigger] reached(*metadata, *resolve, id),
{
    let ghost all = arrivals(*metadata, *resolve);
    let mut stack = seeds(metadata, resolve);
    let mut seen: Vec<&'a String> = Vec::new();
    proof {
        assert forall|id: Seq<char>| #[trigger] ids_of(stack@).contains(id) implies all.contains(id)
            && reached(*metadata, *resolve, id) by {
            assert(is_seed(*metadata, *resolve, id));
            seed_is_arrival(*metadata, *resolve, id);
            seed_is_reached(*metadata, *resolve, id);
        }
    }
    loop
        invariant
            all == arrivals(*metadata, *resolve),
            ids_of(seen@).no_duplicates(),
            forall|id: Seq<char>| #[trigger]
                ids_of(stack@).contains(id) ==> all.contains(id) && reached(
                    *metadata,
                    *resolve,
                    id,
                ),
            forall|id: Seq<char>| #[trigger]
                ids_of(seen@).contains(id) ==> all.contains(id) && reached(
                    *metadata,
                    *resolve,
                    id,
                ),
            forall|id: Seq<char>| #[trigger]
                is_seed(*metadata, *resolve, id) ==> ids_of(seen@).contains(id) || ids_of(
                    stack@,
                ).contains(id),
            forall|a: Seq<char>, b: Seq<char>|
                ids_of(seen@).contains(a) && #[trigger] leads_to(
                    metadata.packages@,
                    resolve.nodes@,
                    a,
                    b,
                ) ==> ids_of(seen@).contains(b) || ids_of(stack@).contains(b),
        ensures
            stack@.len() == 0,
        decreases all.to_set().len() - seen@.len(), stack@.len(),
    {
        let ghost old_stack = stack@;
        let ghost old_seen = seen@;
        proof {
            distinct_ids_are_bounded(ids_of(seen@), all);
        }
        let id = match stack.pop() {
            Some(id) => id,
            None => {
                break ;
            },
        };
        proof {
            let before = ids_of(old_stack);
            let after = ids_of(stack@);
            assert(before == after.push(id@));
            assert(before[after.len() as int] == id@);
            assert(ids_of(old_stack).contains(id@));
            assert(all.contains(id@) && reached(*metadata, *resolve, id@));
            assert forall|x: Seq<char>| before.contains(x) <==> after.contains(x) || x == id@ by {
                if before.contains(x) && x != id@ {
                    let n = choose|n: int| 0 <= n < before.len() && before[n] == x;
                    assert(after[n] == x);
                }
                if after.contains(x) {
                    let n = choose|n: int| 0 <= n < after.len() && after[n] == x;
                    assert(before[n] == x);
                }
            }
        }
        if visited(&seen, id.as_str()) {
            continue ;
        }
        seen.push(id);
        let ghost popped = stack@;
        push_targets(metadata, resolve, id.as_str(), &mut stack);
        proof {
            let before = ids_of(old_seen);
            let after = ids_of(seen@);
            assert(after == before.push(id@));
            assert(after[before.len() as int] == id@);
            assert forall|x: Seq<char>| after.contains(x) <==> before.contains(x) || x == id@ by {
                if after.contains(x) && x != id@ {
                    let n = choose|n: int| 0 <= n < after.len() && after[n] == x;
                    assert(before[n] == x);
                }
                if before.contains(x) {
                    let n = choose|n: int| 0 <= n < before.len() && before[n] == x;
                    assert(after[n] == x);
                }
            }
            assert forall|x: Seq<char>| #[trigger] ids_of(stack@).contains(x) implies all.contains(
                x,
            ) && reached(*metadata, *resolve, x) by {
                if !ids_of(popped).contains(x) {
                    assert(leads_to(metadata.packages@, resolve.nodes@, id@, x));
                    step_is_reached(*metadata, *resolve, id@, x);
                    package_is_arrival(*metadata, *resolve, x);
                } else {
                    assert(ids_of(old_stack).contains(x));
                }
            }
            distinct_ids_are_bounded(ids_of(seen@), all);
        }
    }
    proof {
        let ids = ids_of(seen@);
        assert(ids_of(stack@) == Seq::<Seq<char>>::empty());
        assert forall|id: Seq<char>| #[trigger] reached(*metadata, *resolve, id) implies ids.contains(
            id,
        ) by {
            let path = choose|path: Seq<Seq<char>>| #[trigger]
                is_path(*metadata, *resolve, path) && path.last() == id;
            closed_ids_hold_reached(*metadata, *resolve, ids, path);
        }
    }
    seen
}

/// Resolve the dependency packages across all target platforms, restricted to
/// the features enabled in the analyzed crate and honoring
/// [`IGNORE_DEV_DEPENDENCIES`], in the order of their ids.
///
/// The graph of `cargo metadata` spans every target. It keeps optional
/// dependencies even when no active feature enables them, so the walk follows only
/// the edges that the resolved feature set of each crate actually activates.
pub fn resolve_packages<'a>(metadata: &'a Metadata) -> (r: Result<Vec<&'a Package>, LicenseError>)
    ensures
        match r {
            Ok(found) => metadata.resolve is Some && resolved(
                *metadata,
                metadata.resolve->0,
                found@,
            ),
            Err(error) => metadata.resolve is None && error@ == Failure::NoResolveGraph,
        },
{
    let resolve = match &metadata.resolve {
        Some(resolve) => resolve,
        None => {
            return Err(LicenseError::NoResolveGraph);
        },
    };
    let seen = walk(metadata, resolve);
    let ghost ids = ids_of(seen@);
    let mut found: Vec<&'a Package> = Vec::new();
    let mut i: usize = 0;
    while i < seen.len()
        invariant
            i <= seen@.len(),
            ids == ids_of(seen@),
            ascending(item_keys(found@)),
            forall|j: int|
                0 <= j < found@.len() ==> package_of(
                    metadata.packages@,
                    (#[trigger] found@[j]).id@,
                ) == Some(*found@[j]),
            forall|id: Seq<char>| #[trigger]
                found_id(found@, id) <==> ids.take(i as int).contains(id) && package_of(
                    metadata.packages@,
                    id,
                ) is Some,
        decreases seen@.len() - i,
    {
        let ghost before = found@;
        let ghost here = seen@[i as int]@;
        assert(ids.take(i + 1) == ids.take(i as int).push(here));
        if let Some(package) = find_package(&metadata.packages, seen[i].as_str()) {
            proof {
                package_is_listed(metadata.packages@, here);
                placing_keeps_order(before, item_key::<&Package>(), package);
            }
            place(&mut found, package);
            proof {
                placing_finds(metadata.packages@, before, package);
            }
        }
        assert forall|id: Seq<char>| #[trigger] found_id(found@, id) <==> ids.take(i + 1).contains(
            id,
        ) && package_of(metadata.packages@, id) is Some by {
            let a = ids.take(i as int);
            assert(found_id(before, id) <==> a.contains(id) && package_of(
                metadata.packages@,
                id,
            ) is Some);
            assert(a.push(here).contains(id) <==> a.contains(id) || id == here) by {
                if a.contains(id) {
                    let n = choose|n: int| 0 <= n < a.len() && a[n] == id;
                    assert(a.push(here)[n] == id);
                }
                assert(a.push(here)[a.len() as int] == here);
            }
        }
        i += 1;
    }
    assert(ids.take(seen@.len() as int) == ids);
    Ok(found)
}

/// Placing the package of an id adds that id to those that are found.
proof fn placing_finds(packages: Seq<Package>, found: Seq<&Package>, package: &Package)
    requires
        ascending(item_keys(found)),
        package_of(packages, package.id@) == Some(*package),
        forall|j: int|
            0 <= j < found.len() ==> package_of(packages, (#[trigger] found[j]).id@) == Some(
                *found[j],
            ),
    ensures
        ({
            let out = placed(found, item_key::<&Package>(), package);
            &&& forall|j: int|
                0 <= j < out.len() ==> package_of(packages, (#[trigger] out[j]).id@) == Some(
                    *out[j],
                )
            &&& forall|id: Seq<char>| #[trigger]
                found_id(out, id) <==> found_id(found, id) || id == package.id@
        }),
{
    let key = item_key::<&Package>();
    let out = placed(found, key, package);
    placing_keeps_order(found, key, package);
    assert forall|j: int| 0 <= j < out.len() implies package_of(
        packages,
        (#[trigger] out[j]).id@,
    ) == Some(*out[j]) by {
        assert(out.contains(out[j]));
        if found.contains(out[j]) {
            let n = choose|n: int| 0 <= n < found.len() && found[n] == out[j];
        }
    }
    assert forall|id: Seq<char>| #[trigger] found_id(out, id) <==> found_id(found, id) || id
        == package.id@ by {
        if found_id(out, id) {
            let j = choose|j: int| 0 <= j < out.len() && (#[trigger] out[j]).id@ == id;
            assert(out.contains(out[j]));
            if found.contains(out[j]) {
                let n = choose|n: int| 0 <= n < found.len() && found[n] == out[j];
                assert(found[n].id@ == id);
            }
        }
        if found_id(found, id) {
            let n = choose|n: int| 0 <= n < found.len() && (#[trigger] found[n]).id@ == id;
            assert(found.contains(found[n]));
            assert(out.contains(found[n]));
            let j = choose|j: int| 0 <= j < out.len() && out[j] == found[n];
            assert(out[j].id@ == id);
        }
        if id == package.id@ {
            if item_keys(found).contains(package.key()) {
                let n = choose|n: int|
                    0 <= n < item_keys(found).len() && item_keys(found)[n] == package.key();
                assert(found[n].id@ == id);
                assert(found.contains(found[n]));
                assert(out.contains(found[n]));
                let j = choose|j: int| 0 <= j < out.len() && out[j] == found[n];
                assert(out[j].id@ == id);
            } else {
                assert(out.contains(package));
                let j = choose|j: int| 0 <= j < out.len() && out[j] == package;
                assert(out[j].id@ == id);
            }
        }
    }
}

/// The metadata determine the resolved packages: two resolutions are the same.
pub proof fn resolution_is_determined(
    metadata: Metadata,
    resolve: Resolve,
    a: Seq<&Package>,
    b: Seq<&Package>,
)
    requires
        resolved(metadata, resolve, a),
        resolved(metadata, resolve, b),
    ensures
        a == b,
{
    assert forall|k: Key| item_keys(a).contains(k) <==> item_keys(b).contains(k) by {
        same_keys_one_way(metadata, resolve, a, b, k);
        same_keys_one_way(metadata, resolve, b, a, k);
    }
    ascending_keys_are_determined(item_keys(a), item_keys(b));
    assert forall|i: int| 0 <= i < a.len() implies a[i] == b[i] by {
        assert(item_keys(a)[i] == item_keys(b)[i]);
    }
    assert(a.len() == item_keys(a).len() && b.len() == item_keys(b).len());
}

proof fn same_keys_one_way(
    metadata: Metadata,
    resolve: Resolve,
    a: Seq<&Package>,
    b: Seq<&Package>,
    k: Key,
)
    requires
        resolved(metadata, resolve, a),
        resolved(metadata, resolve, b),
    ensures
        item_keys(a).contains(k) ==> item_keys(b).contains(k),
{
    if item_keys(a).contains(k) {
        let i = choose|i: int| 0 <= i < item_keys(a).len() && item_keys(a)[i] == k;
        assert(a[i].id@ == k.0);
        assert(found_id(a, k.0));
        assert(found_id(b, k.0));
        let j = choose|j: int| 0 <= j < b.len() && (#[trigger] b[j]).id@ == k.0;
        assert(item_keys(b)[j] == k);
    }
}

/// The seeds of the walk are found, as far as they have a package: the listing
/// covers the analyzed crate itself.
pub proof fn seeds_are_found(
    metadata: Metadata,
    resolve: Resolve,
    found: Seq<&Package>,
    id: Seq<char>,
)
    requires
        resolved(metadata, resolve, found),
        is_seed(metadata, resolve, id),
        package_of(metadata.packages@, id) is Some,
    ensures
        found_id(found, id),
{
    seed_is_reached(metadata, resolve, id);
}

/// Whether the node `from` has an edge to `to` that is there for more than development
/// and synthetic build flags.
pub open spec fn plain_edge(nodes: Seq<Node>, from: Seq<char>, to: Seq<char>) -> bool {
    &&& node_of(nodes, from) is Some
    &&& exists|i: int|
        0 <= i < node_of(nodes, from)->0.deps@.len() && (#[trigger] node_of(
            nodes,
            from,
        )->0.deps@[i]).pkg@ == to && !dev_only(node_of(nodes, from)->0.deps@[i])
            && !synthetic_only(node_of(nodes, from)->0.deps@[i])
}

/// Whether `path` starts at a seed and goes along such edges.
pub open spec fn is_plain_path(metadata: Metadata, resolve: Resolve, path: Seq<Seq<char>>) -> bool {
    &&& path.len() > 0
    &&& is_seed(metadata, resolve, path[0])
    &&& forall|i: int|
        0 < i < path.len() ==> plain_edge(resolve.nodes@, path[i - 1], #[trigger] path[i])
}

/// A package that is reachable only through edges for development, or under a
/// synthetic `cfg` such as `cfg(fuzzing)`, is left out: to each found one leads a path
/// without any such edge.
pub proof fn found_package_needs_no_dropped_edge(
    metadata: Metadata,
    resolve: Resolve,
    found: Seq<&Package>,
    id: Seq<char>,
)
    requires
        resolved(metadata, resolve, found),
        found_id(found, id),
    ensures
        exists|path: Seq<Seq<char>>| #[trigger]
            is_plain_path(metadata, resolve, path) && path.last() == id,
{
    let path = choose|path: Seq<Seq<char>>| #[trigger]
        is_path(metadata, resolve, path) && path.last() == id;
    assert forall|i: int| 0 < i < path.len() implies plain_edge(
        resolve.nodes@,
        path[i - 1],
        #[trigger] path[i],
    ) by {
        assert(leads_to(metadata.packages@, resolve.nodes@, path[i - 1], path[i]));
    }
    assert(is_plain_path(metadata, resolve, path));
}

/// What a found package pulls in along an edge that is not dropped is found too.
pub proof fn found_packages_are_closed(
    metadata: Metadata,
    resolve: Resolve,
    found: Seq<&Package>,
    from: Seq<char>,
    to: Seq<char>,
)
    requires
        resolved(metadata, resolve, found),
        found_id(found, from),
        leads_to(metadata.packages@, resolve.nodes@, from, to),
    ensures
        found_id(found, to),
{
    step_is_reached(metadata, resolve, from, to);
}

/// A dependency that is declared, not for development, as other than optional is
/// always pulled in.
pub proof fn required_dependency_is_enabled(
    parent: Package,
    active: Seq<String>,
    name: Seq<char>,
    i: int,
)
    requires
        0 <= i < parent.dependencies@.len(),
        declares(parent.dependencies@[i], name),
        !parent.dependencies@[i].optional,
    ensures
        enabled(parent, active, name),
{
    assert(pulled_in(parent, active, parent.dependencies@[i]));
}

/// A dependency that is declared only as optional is not pulled in unless an active
/// feature activates it.
pub proof fn optional_dependency_needs_feature(
    parent: Package,
    active: Seq<String>,
    name: Seq<char>,
)
    requires
        exists|i: int|
            0 <= i < parent.dependencies@.len() && declares(
                #[trigger] parent.dependencies@[i],
                name,
            ),
        forall|i: int|
            0 <= i < parent.dependencies@.len() && declares(
                #[trigger] parent.dependencies@[i],
                name,
            ) ==> parent.dependencies@[i].optional && !activated(
                parent,
                active,
                local_name(parent.dependencies@[i]),
            ),
    ensures
        !enabled(parent, active, name),
{
}

/// The weak form `key?/feature` does not pull in the dependency `key`.
pub proof fn weak_feature_does_not_enable(key: Seq<char>, feature: Seq<char>)
    ensures
        !value_enables(key + "?/"@ + feature, key),
{
    reveal_strlit("?/");
    reveal_strlit("/");
    reveal_strlit("dep:");
    let value = key + "?/"@ + feature;
    let mark = key.len() as int;
    assert(value[mark] == '?');
    let part = key + "/"@;
    assert(part[mark] == '/');
    if part.is_prefix_of(value) {
        assert(value.subrange(0, part.len() as int)[mark] == '?');
    }
    let whole = "dep:"@ + key;
    if value == whole {
        assert forall|i: int| 0 <= i < mark implies whole[i] == key[i] by {
            assert(value[i] == key[i]);
        }
        shifted_prefix(key, mark);
    }
}

/// Where `dep:` in front of `key` begins with `key`, no `?` can follow.
proof fn shifted_prefix(key: Seq<char>, i: int)
    requires
        0 <= i <= key.len(),
        forall|j: int| 0 <= j < key.len() ==> ("dep:"@ + key)[j] == key[j],
    ensures
        ("dep:"@ + key)[i] != '?',
    decreases i,
{
    reveal_strlit("dep:");
    if i >= 4 {
        shifted_prefix(key, i - 4);
        assert(("dep:"@ + key)[i] == key[i - 4]);
    }
}

/// A found package other than a seed is pulled in by a found package: an optional one
/// that no active feature enables is left out.
pub proof fn found_package_is_pulled_in(
    metadata: Metadata,
    resolve: Resolve,
    found: Seq<&Package>,
    id: Seq<char>,
)
    requires
        resolved(metadata, resolve, found),
        found_id(found, id),
        !is_seed(metadata, resolve, id),
    ensures
        exists|from: Seq<char>|
            found_id(found, from) && #[trigger] leads_to(
                metadata.packages@,
                resolve.nodes@,
                from,
                id,
            ),
{
    let path = choose|path: Seq<Seq<char>>| #[trigger]
        is_path(metadata, resolve, path) && path.last() == id;
    let last = path.len() - 1;
    let from = path[last - 1];
    assert(leads_to(metadata.packages@, resolve.nodes@, path[last - 1], path[last]));
    let shorter = path.drop_last();
    assert forall|i: int| 0 < i < shorter.len() implies leads_to(
        metadata.packages@,
        resolve.nodes@,
        shorter[i - 1],
        #[trigger] shorter[i],
    ) by {
        assert(shorter[i] == path[i]);
    }
    assert(is_path(metadata, resolve, shorter));
    assert(shorter.last() == from);
    assert(reached(metadata, resolve, from));
    assert(found_id(found, from));
}

} // verus!
