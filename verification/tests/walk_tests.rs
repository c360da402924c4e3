use baller::dep_solver::{parse_dependency_line, Constraint};
use baller::error::BallError;
use baller::package::{Package, PackageSource};
use baller::registry::RegistryIndex;
use baller::resolver::{resolve_deps_with_root, walk_step, ResolvedEntry, Walk, WalkState};

fn pkg(name: &str, version: &str, deps: Option<Vec<&str>>) -> Package {
    Package {
        name: name.to_string(),
        version: version.to_string(),
        description: None,
        author: None,
        repository: None,
        architectures: None,
        dependencies: deps.map(|d| d.into_iter().map(String::from).collect()),
        sha256: None,
        hash_algorithm: None,
        download_url: None,
        source: PackageSource::GitHub { owner: "test".to_string(), repo: name.to_string() },
        advisory: None,
        vulnerabilities: Vec::new(),
    }
}

fn empty_walk() -> Walk {
    Walk {
        resolved: Vec::new(),
        constraints: Vec::new(),
        graph: Vec::new(),
        system_nodes: Vec::new(),
        unresolved: Vec::new(),
    }
}

fn waiting(names: &[&str], walk: Walk) -> WalkState {
    WalkState { walk, queue: names.iter().map(|n| n.to_string()).collect(), head: 0 }
}

fn constraint(line: &str, from: &str) -> Constraint {
    let dep = parse_dependency_line(line).unwrap();
    Constraint { target: dep.name, from: from.to_string(), req: dep.constraint, optional: dep.optional }
}

#[test]
fn test_walk_step_reports_unknown_name() {
    let st = waiting(&["missing"], empty_walk());
    let next = walk_step(st, Err(BallError::PackageNotFound("missing".to_string())), &Vec::new()).unwrap();
    assert_eq!(next.walk.unresolved, vec!["missing".to_string()]);
    assert!(next.walk.resolved.is_empty());
    assert_eq!(next.head, 1);
}

#[test]
fn test_walk_step_tolerates_system_virtual_name() {
    let mut walk = empty_walk();
    let mut parent = pkg("a", "1.0.0", Some(vec!["virt"]));
    parent.source = PackageSource::System { manager: "apt".to_string() };
    walk.resolved.push(ResolvedEntry {
        name: "a".to_string(),
        package: parent,
        enforced: "1.0.0".to_string(),
        stamp: 0,
    });
    walk.constraints.push(constraint("virt", "a"));
    let st = waiting(&["virt"], walk);
    let next = walk_step(st, Err(BallError::PackageNotFound("virt".to_string())), &Vec::new()).unwrap();
    assert!(next.walk.unresolved.is_empty());
    assert_eq!(next.head, 1);
}

#[test]
fn test_walk_step_passes_other_errors_on() {
    let st = waiting(&["a"], empty_walk());
    let err = walk_step(st, Err(BallError::NetworkError("offline".to_string())), &Vec::new()).unwrap_err();
    assert!(matches!(err, BallError::NetworkError(m) if m == "offline"));
}

#[test]
fn test_walk_step_accepts_and_queues_dependencies() {
    let st = waiting(&["a"], empty_walk());
    let next = walk_step(st, Ok(pkg("a", "1.0.0", Some(vec!["b >=1.0", "? c"]))), &Vec::new()).unwrap();
    assert_eq!(next.walk.resolved.len(), 1);
    assert_eq!(next.walk.resolved[0].name, "a");
    assert_eq!(next.walk.resolved[0].enforced, "1.0.0");
    assert_eq!(next.walk.resolved[0].stamp, 0);
    assert_eq!(next.queue, vec!["a".to_string(), "b".to_string()]);
    assert_eq!(next.walk.constraints.len(), 2);
    assert_eq!(next.walk.graph, vec![("a".to_string(), vec!["b".to_string()])]);
    assert_eq!(next.head, 1);
}

#[test]
fn test_walk_step_enforces_late_constraint() {
    let mut walk = empty_walk();
    walk.resolved.push(ResolvedEntry {
        name: "b".to_string(),
        package: pkg("b", "1.0.0", None),
        enforced: "1.0.0".to_string(),
        stamp: 0,
    });
    let st = waiting(&["c"], walk);
    let err = walk_step(st, Ok(pkg("c", "1.0.0", Some(vec!["b >=2.0"]))), &Vec::new()).unwrap_err();
    match err {
        BallError::VersionConflict(msg) => {
            assert!(msg.contains("'b'"));
            assert!(msg.contains("required by 'c'"));
        }
        other => panic!("expected VersionConflict, got {:?}", other),
    }
}

#[test]
fn test_walk_step_checks_installed_version() {
    let mut walk = empty_walk();
    walk.constraints.push(constraint("a >=2.0", "root"));
    let st = waiting(&["a"], walk);
    let installed = vec![("a".to_string(), "1.5.0".to_string())];
    let err = walk_step(st, Ok(pkg("a", "3.0.0", None)), &installed).unwrap_err();
    assert!(matches!(err, BallError::VersionConflict(m) if m.contains("version 1.5.0 of 'a'")));
}

#[test]
fn test_walk_step_records_installed_version() {
    let st = waiting(&["a"], empty_walk());
    let installed = vec![("a".to_string(), "1.5.0".to_string())];
    let next = walk_step(st, Ok(pkg("a", "3.0.0", None)), &installed).unwrap();
    assert_eq!(next.walk.resolved[0].enforced, "1.5.0");
    assert_eq!(next.walk.resolved[0].package.version, "3.0.0");
}

#[test]
fn test_walk_step_rejects_invalid_installed_version() {
    let st = waiting(&["a"], empty_walk());
    let installed = vec![("a".to_string(), "not-a-version".to_string())];
    let err = walk_step(st, Ok(pkg("a", "1.0.0", None)), &installed).unwrap_err();
    assert!(matches!(err, BallError::VersionConflict(m) if m == "invalid installed version 'not-a-version' for 'a'"));
}

#[test]
fn test_walk_step_rejects_unparseable_offered_version() {
    let st = waiting(&["a"], empty_walk());
    let err = walk_step(st, Ok(pkg("a", "weird", None)), &Vec::new()).unwrap_err();
    assert!(matches!(
        err,
        BallError::PackageManagerError(m)
            if m == "unparseable version 'weird' for 'a' (system package format not supported by semver)"
    ));
}

struct Served {
    packages: Vec<Package>,
}

impl RegistryIndex for Served {
    fn fetch_package(&self, name: &str) -> Result<Package, BallError> {
        self.packages
            .iter()
            .find(|p| p.name == name)
            .cloned()
            .ok_or_else(|| BallError::PackageNotFound(name.to_string()))
    }
}

fn system_pkg(name: &str, deps: Vec<&str>) -> Package {
    let mut p = pkg(name, "1.0.0", Some(deps));
    p.source = PackageSource::System { manager: "apt".to_string() };
    p
}

#[test]
fn test_mixed_cycle_is_an_error_beside_a_system_cycle() {
    let root = system_pkg("a", vec!["b", "c"]);
    let registry = Served { packages: vec![system_pkg("b", vec!["a"]), pkg("c", "1.0.0", Some(vec!["a"]))] };
    let err = resolve_deps_with_root(&root, &registry, &Vec::new()).unwrap_err();
    match err {
        BallError::DependencyCycle(msg) => assert!(msg.contains("c")),
        other => panic!("expected DependencyCycle, got {:?}", other),
    }
}

#[test]
fn test_system_only_cycles_keep_every_package() {
    let root = system_pkg("a", vec!["b"]);
    let registry = Served { packages: vec![system_pkg("b", vec!["a"])] };
    let res = resolve_deps_with_root(&root, &registry, &Vec::new()).unwrap();
    let mut names: Vec<String> = res.packages.iter().map(|p| p.name.clone()).collect();
    names.sort();
    assert_eq!(names, vec!["a".to_string(), "b".to_string()]);
    assert!(res.unresolved.is_empty());
}
