use baller::dep_graph::{best_effort_order, detect_cycles, find_cycle, topological_sort};
use baller::dep_solver::{
    parse_dependencies, parse_dependency_line, parse_version_flexible, strip_leading_zeros,
};
use baller::error::BallError;
use baller::package::{Package, PackageSource};
use baller::registry::RegistryIndex;
use baller::resolver::{resolve_deps, resolve_deps_with_root};
use semver::{Version, VersionReq};

fn graph(entries: &[(&str, &[&str])]) -> Vec<(String, Vec<String>)> {
    entries
        .iter()
        .map(|(k, ds)| (k.to_string(), ds.iter().map(|d| d.to_string()).collect()))
        .collect()
}

fn req(dep: &baller::dep_solver::Dependency) -> VersionReq {
    VersionReq::parse(&dep.constraint.text()).unwrap()
}

fn version(text: &str) -> Version {
    let v = parse_version_flexible(text).unwrap();
    Version::parse(&v.to_text()).unwrap()
}

struct StubIndex {
    packages: Vec<Package>,
}

impl RegistryIndex for StubIndex {
    fn fetch_package(&self, name: &str) -> Result<Package, BallError> {
        self.packages
            .iter()
            .find(|p| p.name == name)
            .cloned()
            .ok_or_else(|| BallError::PackageNotFound(name.to_string()))
    }
}

fn stub_with(packages: Vec<Package>) -> StubIndex {
    StubIndex { packages }
}

fn make_pkg(name: &str, version: &str, deps: Option<Vec<&str>>) -> Package {
    Package {
        name: name.to_string(),
        version: version.to_string(),
        description: None,
        author: None,
        repository: None,
        architectures: None,
        dependencies: deps.map(|d| d.into_iter().map(String::from).collect()),
        sha256: None,
        hash_algorithm: None,
        download_url: None,
        source: PackageSource::GitHub { owner: "test".to_string(), repo: name.to_string() },
        advisory: None,
        vulnerabilities: Vec::new(),
    }
}

fn make_pkg_system(name: &str, version: &str, deps: Option<Vec<&str>>) -> Package {
    let mut pkg = make_pkg(name, version, deps);
    pkg.source = PackageSource::System { manager: "apt".to_string() };
    pkg
}

#[test]
fn test_parse_dependency_line_simple() {
    let dep = parse_dependency_line("foo").unwrap();
    assert_eq!(dep.name, "foo");
    assert_eq!(req(&dep), VersionReq::STAR);
    assert!(!dep.optional);
}

#[test]
fn test_parse_dependency_line_with_constraint() {
    let dep = parse_dependency_line("foo >=1.0").unwrap();
    assert_eq!(dep.name, "foo");
    assert!(!dep.optional);
}

#[test]
fn test_parse_dependency_line_optional() {
    let dep = parse_dependency_line("? foo").unwrap();
    assert_eq!(dep.name, "foo");
    assert!(dep.optional);
    assert_eq!(req(&dep), VersionReq::STAR);
}

#[test]
fn test_parse_dependency_line_optional_with_constraint() {
    let dep = parse_dependency_line("? bar >=2.0").unwrap();
    assert_eq!(dep.name, "bar");
    assert!(dep.optional);
}

#[test]
fn test_parse_dependency_line_trimmed() {
    let dep = parse_dependency_line("  baz  ").unwrap();
    assert_eq!(dep.name, "baz");
}

#[test]
fn test_parse_dependency_line_rejects_malformed_constraint() {
    let result = parse_dependency_line("foo >=1.2..3");
    match result {
        Err(BallError::VersionConflict(msg)) => {
            assert!(msg.contains(">=1.2..3"));
            assert!(msg.contains("foo"));
        }
        Err(other) => panic!("expected VersionConflict, got {:?}", other),
        Ok(_) => panic!("expected VersionConflict"),
    }
    assert!(parse_dependency_line("? bar ^'").is_err());
    assert!(parse_dependency_line("baz 1..0").is_err());
}

#[test]
fn test_parse_dependency_line_empty_constraint_stays_star() {
    let dep = parse_dependency_line("foo").unwrap();
    assert_eq!(req(&dep), VersionReq::STAR);
}

#[test]
fn test_detect_cycles_no_cycle() {
    let g = graph(&[("a", &["b"]), ("b", &["c"]), ("c", &[])]);
    assert!(detect_cycles(&g).is_ok());
}

#[test]
fn test_detect_cycles_direct() {
    let g = graph(&[("a", &["a"])]);
    let result = detect_cycles(&g);
    assert!(result.is_err());
    match result.unwrap_err() {
        BallError::DependencyCycle(msg) => assert!(msg.contains("cycle")),
        _ => panic!("expected DependencyCycle"),
    }
}

#[test]
fn test_detect_cycles_indirect() {
    let g = graph(&[("a", &["b"]), ("b", &["c"]), ("c", &["a"])]);
    let result = detect_cycles(&g);
    assert!(result.is_err());
    match result.unwrap_err() {
        BallError::DependencyCycle(msg) => assert_eq!(msg, "cycle detected: a -> b -> c -> a"),
        _ => panic!("expected DependencyCycle"),
    }
}

#[test]
fn test_detect_cycles_disjoint() {
    let g = graph(&[("a", &["b"]), ("b", &[]), ("c", &["d"]), ("d", &[])]);
    assert!(detect_cycles(&g).is_ok());
}

#[test]
fn test_detect_cycles_empty() {
    let g: Vec<(String, Vec<String>)> = Vec::new();
    assert!(detect_cycles(&g).is_ok());
}

#[test]
fn test_find_cycle_returns_a_real_cycle() {
    let g = graph(&[("x", &["y"]), ("y", &["z"]), ("z", &["y"])]);
    let c = find_cycle(&g).unwrap();
    assert_eq!(c, vec!["y", "z"]);
}

#[test]
fn test_topological_sort_simple() {
    let g = graph(&[("a", &["b"]), ("b", &[])]);
    let order = topological_sort(&g).unwrap();
    assert_eq!(order, vec!["b", "a"]);
}

#[test]
fn test_topological_sort_multi_level() {
    let g = graph(&[("a", &["b", "c"]), ("b", &["d"]), ("c", &["d"]), ("d", &[])]);
    let order = topological_sort(&g).unwrap();
    assert_eq!(order.len(), 4);
    let pos = |n: &str| order.iter().position(|x| x == n);
    assert!(pos("d") < pos("b"));
    assert!(pos("d") < pos("c"));
    assert!(pos("b") < pos("a"));
    assert!(pos("c") < pos("a"));
}

#[test]
fn test_topological_sort_empty() {
    let g: Vec<(String, Vec<String>)> = Vec::new();
    let order = topological_sort(&g).unwrap();
    assert!(order.is_empty());
}

#[test]
fn test_topological_sort_single() {
    let g = graph(&[("a", &[])]);
    let order = topological_sort(&g).unwrap();
    assert_eq!(order, vec!["a"]);
}

#[test]
fn test_topological_sort_disjoint() {
    let g = graph(&[("a", &[]), ("b", &[])]);
    let order = topological_sort(&g).unwrap();
    assert_eq!(order.len(), 2);
}

#[test]
fn test_topological_sort_includes_dependency_only_names() {
    let g = graph(&[("a", &["libc"])]);
    let order = topological_sort(&g).unwrap();
    assert_eq!(order, vec!["libc", "a"]);
}

#[test]
fn test_topological_sort_reports_two_node_cycle() {
    let g = graph(&[("a", &["b"]), ("b", &["a"])]);
    match topological_sort(&g) {
        Err(BallError::DependencyCycle(msg)) => assert!(msg.contains("must precede")),
        other => panic!("expected a cycle error, got {:?}", other.map(|o| o.len())),
    }
    let order = best_effort_order(&g);
    assert_eq!(order.len(), 2);
}

#[test]
fn test_parse_dependencies_none() {
    let pkg = make_pkg("test", "1.0", None);
    let deps = parse_dependencies(&pkg).unwrap();
    assert!(deps.is_empty());
}

#[test]
fn test_parse_dependencies_empty_vec() {
    let pkg = make_pkg("test", "1.0", Some(vec![]));
    let deps = parse_dependencies(&pkg).unwrap();
    assert!(deps.is_empty());
}

#[test]
fn test_parse_dependencies_multiple() {
    let pkg = make_pkg("test", "1.0", Some(vec!["dep1", "? dep2", "dep3 >=2.0"]));
    let deps = parse_dependencies(&pkg).unwrap();
    assert_eq!(deps.len(), 3);
    assert_eq!(deps[0].name, "dep1");
    assert!(!deps[0].optional);
    assert_eq!(deps[1].name, "dep2");
    assert!(deps[1].optional);
    assert_eq!(deps[2].name, "dep3");
    assert!(!deps[2].optional);
}

#[test]
fn test_parse_dependencies_propagates_malformed_constraint() {
    let pkg = make_pkg("test", "1.0", Some(vec!["ok", "bad >=1.2..3"]));
    assert!(matches!(parse_dependencies(&pkg), Err(BallError::VersionConflict(_))));
}

#[test]
fn test_late_constraint_on_installed_dep_is_enforced() {
    let root_a = make_pkg("a", "1.0.0", Some(vec!["b", "c"]));
    let pkg_b = make_pkg("b", "1.0.0", None);
    let pkg_c = make_pkg("c", "1.0.0", Some(vec!["b >=2.0"]));
    let stub = stub_with(vec![pkg_b, pkg_c]);
    let installed = vec![("b".to_string(), "1.0.0".to_string())];
    let result = resolve_deps_with_root(&root_a, &stub, &installed);
    assert!(matches!(result, Err(BallError::VersionConflict(_))));
}

#[test]
fn test_late_constraint_on_fetched_dep_is_enforced() {
    let root_a = make_pkg("a", "1.0.0", Some(vec!["b", "c"]));
    let pkg_b = make_pkg("b", "1.0.0", None);
    let pkg_c = make_pkg("c", "1.0.0", Some(vec!["b >=2.0"]));
    let stub = stub_with(vec![pkg_b, pkg_c]);
    let result = resolve_deps_with_root(&root_a, &stub, &Vec::new());
    assert!(matches!(result, Err(BallError::VersionConflict(_))));
}

#[test]
fn test_late_constraint_on_pinned_root_is_enforced() {
    let root_a = make_pkg("a", "9.9.9", Some(vec!["b"]));
    let pkg_b = make_pkg("b", "1.0.0", Some(vec!["a <1.0"]));
    let stub = stub_with(vec![pkg_b]);
    let result = resolve_deps_with_root(&root_a, &stub, &Vec::new());
    assert!(matches!(result, Err(BallError::VersionConflict(_))));
}

#[test]
fn test_compatible_late_constraint_resolves() {
    let root_a = make_pkg("a", "1.0.0", Some(vec!["b", "c"]));
    let pkg_b = make_pkg("b", "2.0.0", None);
    let pkg_c = make_pkg("c", "1.0.0", Some(vec!["b >=2.0"]));
    let stub = stub_with(vec![pkg_b, pkg_c]);
    let result = resolve_deps_with_root(&root_a, &stub, &Vec::new()).unwrap();
    let names: Vec<&str> = result.packages.iter().map(|p| p.name.as_str()).collect();
    assert!(names.contains(&"b"));
    assert_eq!(names.last(), Some(&"a"));
}

#[test]
fn test_resolver_errors_on_non_system_cycle() {
    let root_a = make_pkg("a", "1.0.0", Some(vec!["b"]));
    let pkg_b = make_pkg("b", "1.0.0", Some(vec!["c"]));
    let pkg_c = make_pkg("c", "1.0.0", Some(vec!["a"]));
    let stub = stub_with(vec![pkg_b, pkg_c]);
    let result = resolve_deps_with_root(&root_a, &stub, &Vec::new());
    assert!(matches!(result, Err(BallError::DependencyCycle(_))));
}

#[test]
fn test_resolver_errors_on_mixed_cycle() {
    let root_a = make_pkg("a", "1.0.0", Some(vec!["b"]));
    let pkg_b = make_pkg_system("b", "1.0.0", Some(vec!["a"]));
    let stub = stub_with(vec![pkg_b]);
    let result = resolve_deps_with_root(&root_a, &stub, &Vec::new());
    assert!(matches!(result, Err(BallError::DependencyCycle(_))));
}

#[test]
fn test_resolver_tolerates_system_only_cycle() {
    let root_a = make_pkg_system("a", "1.0.0", Some(vec!["b"]));
    let pkg_b = make_pkg_system("b", "1.0.0", Some(vec!["a"]));
    let stub = stub_with(vec![pkg_b]);
    let result = resolve_deps_with_root(&root_a, &stub, &Vec::new()).unwrap();
    let names: Vec<&str> = result.packages.iter().map(|p| p.name.as_str()).collect();
    assert!(names.contains(&"a"));
    assert!(names.contains(&"b"));
}

#[test]
fn test_unresolved_dependency_is_reported_not_silently_dropped() {
    let root_a = make_pkg("a", "1.0.0", Some(vec!["missing"]));
    let stub = stub_with(vec![]);
    let resolved = resolve_deps_with_root(&root_a, &stub, &Vec::new()).unwrap();
    assert_eq!(resolved.unresolved, vec!["missing"]);
    assert!(resolved.packages.iter().all(|p| p.name != "missing"));
}

#[test]
fn test_system_virtual_dependency_is_tolerated() {
    let root_a = make_pkg_system("a", "1.0.0", Some(vec!["lib-provider"]));
    let stub = stub_with(vec![]);
    let resolved = resolve_deps_with_root(&root_a, &stub, &Vec::new()).unwrap();
    assert!(resolved.unresolved.is_empty());
    assert!(resolved.packages.iter().all(|p| p.name != "lib-provider"));
}

#[test]
fn test_missing_dep_with_non_system_depender_is_reported() {
    let root_a = make_pkg("a", "1.0.0", Some(vec!["b", "missing"]));
    let pkg_b = make_pkg_system("b", "1.0.0", Some(vec!["missing"]));
    let stub = stub_with(vec![pkg_b]);
    let resolved = resolve_deps_with_root(&root_a, &stub, &Vec::new()).unwrap();
    assert!(resolved.unresolved.contains(&"missing".to_string()));
    assert!(resolved.packages.iter().all(|p| p.name != "missing"));
}

#[test]
fn test_resolve_deps_fetches_the_root() {
    let pkg_a = make_pkg("a", "1.0.0", Some(vec!["b"]));
    let pkg_b = make_pkg("b", "1.0.0", None);
    let stub = stub_with(vec![pkg_a, pkg_b]);
    let resolved = resolve_deps("a", &stub, &Vec::new()).unwrap();
    let names: Vec<&str> = resolved.packages.iter().map(|p| p.name.as_str()).collect();
    assert_eq!(names, vec!["b", "a"]);
}

#[test]
fn test_resolve_deps_rejects_invalid_installed_version() {
    let pkg_a = make_pkg("a", "1.0.0", None);
    let stub = stub_with(vec![pkg_a]);
    let installed = vec![("a".to_string(), "not-a-version".to_string())];
    let result = resolve_deps("a", &stub, &installed);
    assert!(matches!(result, Err(BallError::VersionConflict(_))));
}

#[test]
fn test_parse_version_flexible_standard() {
    assert_eq!(version("1.2.3"), Version::new(1, 2, 3));
}

#[test]
fn test_parse_version_flexible_two_part() {
    assert_eq!(version("1.21"), Version::new(1, 21, 0));
}

#[test]
fn test_parse_version_flexible_debian_epoch() {
    assert_eq!(version("2:1.21-76"), Version::new(1, 21, 0));
}

#[test]
fn test_parse_version_flexible_debian_revision() {
    assert_eq!(version("1.21.76-2"), Version::new(1, 21, 76));
}

#[test]
fn test_parse_version_flexible_three_part() {
    assert_eq!(version("8.2.2637"), Version::new(8, 2, 2637));
}

#[test]
fn test_parse_version_flexible_zero_padded_segment() {
    assert_eq!(version("8.1.0875"), Version::new(8, 1, 875));
}

#[test]
fn test_parse_version_flexible_debian_epoch_with_zero_padding() {
    assert_eq!(version("2:8.1.0875-5ubuntu2"), Version::new(8, 1, 875));
}

#[test]
fn test_parse_version_flexible_all_zero_segment() {
    assert_eq!(version("1.00.0"), Version::new(1, 0, 0));
}

#[test]
fn test_strip_leading_zeros() {
    assert_eq!(strip_leading_zeros("0875"), "875");
    assert_eq!(strip_leading_zeros("000"), "0");
    assert_eq!(strip_leading_zeros("0"), "0");
    assert_eq!(strip_leading_zeros("12"), "12");
}

#[test]
fn test_parse_version_flexible_invalid() {
    assert!(parse_version_flexible("not-a-version").is_none());
}

#[test]
fn test_parse_version_flexible_epoch_two_part() {
    assert_eq!(version("2:1.21"), Version::new(1, 21, 0));
}

#[test]
fn test_parse_version_flexible_debian_dfsg() {
    assert_eq!(version("1:1.3.dfsg+really1.3.1-1+b1"), Version::new(1, 3, 0));
}

#[test]
fn test_parse_version_flexible_overflowing_number_is_none() {
    assert!(parse_version_flexible("99999999999999999999999.1").is_none());
}

#[test]
fn test_version_text_prints_pre_release_and_build() {
    let v = parse_version_flexible("1.2.3+build.5").unwrap();
    assert_eq!(v.to_text(), "1.2.3+build.5");
    assert_eq!((v.major(), v.minor(), v.patch()), (1, 2, 3));
}

struct UnreachableIndex;

impl RegistryIndex for UnreachableIndex {
    fn fetch_package(&self, name: &str) -> Result<Package, BallError> {
        panic!("the registry was asked for '{}'", name)
    }
}

#[test]
fn test_pinned_root_without_required_deps_asks_nothing() {
    let mut root = make_pkg("solo", "1.0.0", Some(vec!["? extra >=1.0"]));
    let res = resolve_deps_with_root(&root, &UnreachableIndex, &Vec::new()).unwrap();
    assert_eq!(res.packages.len(), 1);
    assert_eq!(res.packages[0].name, "solo");
    assert!(res.unresolved.is_empty());

    root.dependencies = None;
    let res = resolve_deps_with_root(&root, &UnreachableIndex, &Vec::new()).unwrap();
    assert_eq!(res.packages.len(), 1);
}

#[test]
fn test_pinned_root_with_bad_dependency_fails_with_its_parse_error() {
    let root = make_pkg("broken", "1.0.0", Some(vec!["dep >=not-a-version"]));
    let err = resolve_deps_with_root(&root, &UnreachableIndex, &Vec::new()).unwrap_err();
    assert!(matches!(err, BallError::VersionConflict(_)));
}
