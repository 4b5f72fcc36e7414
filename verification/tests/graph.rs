use third_party_licenses::cfg::is_synthetic_cfg;
use third_party_licenses::error::LicenseError;
use third_party_licenses::resolve::{
    dependency_enabled, resolve_packages, DepKindInfo, Dependency, DependencyKind, Metadata, Node,
    NodeDep, Package, Resolve,
};

fn texts(list: &[&str]) -> Vec<String> {
    list.iter().map(|s| s.to_string()).collect()
}

fn package(id: &str, dependencies: Vec<Dependency>, features: &[(&str, &[&str])]) -> Package {
    Package {
        id: id.to_string(),
        name: id.to_string(),
        version: "1.0.0".to_string(),
        license: Some("MIT".to_string()),
        repository: None,
        manifest_path: format!("/cache/{id}/Cargo.toml"),
        dependencies,
        features: features.iter().map(|(f, v)| (f.to_string(), texts(v))).collect(),
    }
}

fn needs(name: &str, kind: DependencyKind, optional: bool, rename: Option<&str>) -> Dependency {
    Dependency {
        name: name.to_string(),
        kind,
        optional,
        rename: rename.map(|r| r.to_string()),
    }
}

fn edge(pkg: &str, kinds: &[(DependencyKind, Option<&str>)]) -> NodeDep {
    NodeDep {
        pkg: pkg.to_string(),
        dep_kinds: kinds
            .iter()
            .map(|(kind, target)| DepKindInfo { kind: *kind, target: target.map(|t| t.to_string()) })
            .collect(),
    }
}

fn node(id: &str, deps: Vec<NodeDep>, features: &[&str]) -> Node {
    Node { id: id.to_string(), deps, features: texts(features) }
}

fn ids(metadata: &Metadata) -> Vec<String> {
    resolve_packages(metadata).unwrap().iter().map(|p| p.id.clone()).collect()
}

const NORMAL: DependencyKind = DependencyKind::Normal;
const DEV: DependencyKind = DependencyKind::Development;
const BUILD: DependencyKind = DependencyKind::Build;

#[test]
fn synthetic_predicates() {
    assert!(is_synthetic_cfg("cfg(test)"));
    assert!(is_synthetic_cfg("cfg(fuzzing)"));
    assert!(is_synthetic_cfg("cfg(miri)"));
    assert!(is_synthetic_cfg("cfg(any(unix, clippy))"));
    assert!(is_synthetic_cfg("test"));
    assert!(is_synthetic_cfg("cfg(not(test))"));
    assert!(!is_synthetic_cfg(""));
    assert!(!is_synthetic_cfg("cfg(unix)"));
    assert!(!is_synthetic_cfg("cfg(tests)"));
    assert!(!is_synthetic_cfg("cfg(my_test)"));
    assert!(!is_synthetic_cfg("cfg(test2)"));
    assert!(!is_synthetic_cfg("cfg(Test)"));
    assert!(!is_synthetic_cfg("x86_64-pc-windows-msvc"));
}

#[test]
fn quoted_values_do_not_count() {
    assert!(!is_synthetic_cfg("cfg(feature = \"test\")"));
    assert!(is_synthetic_cfg("cfg(feature = \"test\", test)"));
    assert!(!is_synthetic_cfg("cfg(feature = \"a, test\", target_os = \"miri\")"));
    assert!(is_synthetic_cfg("te\"quoted\"st"));
    for value in ["", "x", "test", "fuzzing miri", "(clippy)"] {
        assert!(!is_synthetic_cfg(&format!("cfg(target_os = \"{value}\")")));
        assert!(is_synthetic_cfg(&format!("cfg(all(target_os = \"{value}\", miri))")));
    }
}

#[test]
fn names_are_unicode_words() {
    assert!(!is_synthetic_cfg("cfg(\u{e9}test)"));
    assert!(!is_synthetic_cfg("cfg(test\u{4e2d})"));
    assert!(!is_synthetic_cfg("cfg(test\u{b2})"));
    assert!(is_synthetic_cfg("cfg(\u{2192}test\u{2190})"));
    for n in 0..0x3000u32 {
        if let Some(c) = char::from_u32(n) {
            let whole = c.is_alphanumeric() || c == '_';
            if c != '"' {
                assert_eq!(is_synthetic_cfg(&format!("{c}test")), !whole, "{n:x}");
                assert_eq!(is_synthetic_cfg(&format!("miri{c}")), !whole, "{n:x}");
            }
        }
    }
}

#[test]
fn required_dependencies_are_enabled() {
    let p = package("p", vec![needs("a", NORMAL, false, None), needs("b", BUILD, false, None)], &[]);
    assert!(dependency_enabled(&p, &vec![], "a"));
    assert!(dependency_enabled(&p, &vec![], "b"));
    assert!(dependency_enabled(&p, &vec![], "unknown"));
}

#[test]
fn optional_dependencies_need_a_feature() {
    let p = package(
        "p",
        vec![needs("a", NORMAL, true, None), needs("b", NORMAL, true, Some("c"))],
        &[
            ("plain", &["std"]),
            ("whole", &["dep:a"]),
            ("part", &["a/std"]),
            ("weak", &["a?/std"]),
            ("other", &["dep:ab", "ab/std"]),
            ("renamed", &["dep:c"]),
            ("by_name", &["dep:b"]),
        ],
    );
    assert!(!dependency_enabled(&p, &vec![], "a"));
    assert!(!dependency_enabled(&p, &texts(&["plain", "weak", "other"]), "a"));
    assert!(dependency_enabled(&p, &texts(&["a"]), "a"));
    assert!(dependency_enabled(&p, &texts(&["plain", "whole"]), "a"));
    assert!(dependency_enabled(&p, &texts(&["part"]), "a"));
    assert!(!dependency_enabled(&p, &texts(&["by_name", "b"]), "b"));
    assert!(dependency_enabled(&p, &texts(&["renamed"]), "b"));
    assert!(dependency_enabled(&p, &texts(&["c"]), "b"));
}

#[test]
fn declarations_for_development_do_not_count() {
    let p = package("p", vec![needs("a", DEV, false, None), needs("a", NORMAL, true, None)], &[]);
    assert!(!dependency_enabled(&p, &vec![], "a"));
    let only_dev = package("p", vec![needs("a", DEV, true, None)], &[]);
    assert!(dependency_enabled(&only_dev, &vec![], "a"));
}

fn example() -> Metadata {
    Metadata {
        packages: vec![
            package(
                "root",
                vec![
                    needs("zed", NORMAL, false, None),
                    needs("dev", DEV, false, None),
                    needs("opt", NORMAL, true, None),
                    needs("fuzz", NORMAL, false, None),
                    needs("tool", BUILD, false, None),
                ],
                &[("extra", &["dep:opt"])],
            ),
            package("zed", vec![needs("leaf", NORMAL, false, None)], &[]),
            package("leaf", vec![needs("zed", NORMAL, false, None)], &[]),
            package("dev", vec![], &[]),
            package("opt", vec![], &[]),
            package("fuzz", vec![], &[]),
            package("tool", vec![], &[]),
            package("member", vec![], &[]),
        ],
        workspace_members: texts(&["member", "root"]),
        resolve: Some(Resolve {
            root: Some("root".to_string()),
            nodes: vec![
                node(
                    "root",
                    vec![
                        edge("zed", &[(NORMAL, None), (DEV, None)]),
                        edge("dev", &[(DEV, None)]),
                        edge("opt", &[(NORMAL, None)]),
                        edge("fuzz", &[(NORMAL, Some("cfg(fuzzing)")), (DEV, None)]),
                        edge("tool", &[(BUILD, Some("cfg(unix)"))]),
                        edge("gone", &[(NORMAL, None)]),
                    ],
                    &[],
                ),
                node("zed", vec![edge("leaf", &[])], &[]),
                node("leaf", vec![edge("zed", &[(NORMAL, None)])], &[]),
            ],
        }),
    }
}

#[test]
fn reached_packages_in_order_of_ids() {
    assert_eq!(ids(&example()), texts(&["leaf", "root", "tool", "zed"]));
}

#[test]
fn active_feature_brings_optional_package() {
    let mut m = example();
    m.resolve.as_mut().unwrap().nodes[0].features = texts(&["extra"]);
    assert_eq!(ids(&m), texts(&["leaf", "opt", "root", "tool", "zed"]));
}

#[test]
fn virtual_workspace_starts_at_members() {
    let mut m = example();
    m.resolve.as_mut().unwrap().root = None;
    assert_eq!(ids(&m), texts(&["leaf", "member", "root", "tool", "zed"]));
}

#[test]
fn edge_limited_only_in_part_is_followed() {
    let mut m = example();
    m.resolve.as_mut().unwrap().nodes[0].deps[3] =
        edge("fuzz", &[(NORMAL, Some("cfg(fuzzing)")), (BUILD, None)]);
    assert_eq!(ids(&m), texts(&["fuzz", "leaf", "root", "tool", "zed"]));
}

#[test]
fn missing_root_package_finds_nothing() {
    let mut m = example();
    m.resolve.as_mut().unwrap().root = Some("nowhere".to_string());
    assert_eq!(ids(&m), Vec::<String>::new());
}

#[test]
fn last_of_equal_ids_counts() {
    let mut m = example();
    m.packages.push(package("tool", vec![], &[]));
    m.packages.last_mut().unwrap().version = "2.0.0".to_string();
    let found = resolve_packages(&m).unwrap();
    assert_eq!(found[2].id, "tool");
    assert_eq!(found[2].version, "2.0.0");
}

#[test]
fn no_graph_is_an_error() {
    let mut m = example();
    m.resolve = None;
    let error = resolve_packages(&m).unwrap_err();
    assert!(matches!(error, LicenseError::NoResolveGraph));
    assert_eq!(error.message(), "cargo metadata returned no resolve graph");
    assert_eq!(error.cause(), None);
}

#[test]
fn packages_behind_dropped_edges_are_left_out() {
    let mut m = example();
    for (from, to) in [("dev", "behind_dev"), ("fuzz", "behind_fuzz")] {
        m.packages.push(package(to, vec![], &[]));
        let nodes = &mut m.resolve.as_mut().unwrap().nodes;
        nodes.push(node(from, vec![edge(to, &[(NORMAL, None)])], &[]));
    }
    assert_eq!(ids(&m), texts(&["leaf", "root", "tool", "zed"]));
    m.resolve.as_mut().unwrap().nodes[0].deps[1] = edge("dev", &[(DEV, None), (NORMAL, None)]);
    assert_eq!(ids(&m), texts(&["behind_dev", "dev", "leaf", "root", "tool", "zed"]));
}
