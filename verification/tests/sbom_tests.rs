use baller::commands::InstalledPackage;
use baller::manifest::Json;
use baller::sbom::{component, cyclonedx};

fn row(name: &str, source: &str, detail: &str) -> InstalledPackage {
    InstalledPackage {
        name: name.to_string(),
        version: "1.2.3".to_string(),
        source: source.to_string(),
        source_detail: Some(detail.to_string()),
        description: Some(format!("{} does things", name)),
        author: None,
        repository: Some(format!("https://github.com/owner/{}", name)),
        download_url: Some(format!("https://dl.test/{}.tar.gz", name)),
        sha256: Some("AB".repeat(32)),
        frozen: false,
        user_installed: true,
        install_path: String::new(),
        bin_path: None,
        manifest_path: None,
        installed_at: String::new(),
    }
}

fn get<'a>(j: &'a Json, key: &str) -> Option<&'a Json> {
    match j {
        Json::Object(ms) => ms.iter().find(|m| m.key == key).map(|m| &m.value),
        _ => None,
    }
}

fn at(j: &Json, i: usize) -> &Json {
    match j {
        Json::Array(items) => &items[i],
        _ => panic!("not an array"),
    }
}

fn items(j: &Json) -> &Vec<Json> {
    match j {
        Json::Array(items) => items,
        _ => panic!("not an array"),
    }
}

fn text(j: &Json) -> &str {
    match j {
        Json::Str(s) => s.as_str(),
        _ => panic!("not a string"),
    }
}

fn field<'a>(j: &'a Json, key: &str) -> &'a Json {
    get(j, key).unwrap()
}

#[test]
fn test_one_component_per_package_with_its_inventory() {
    let entries = vec![
        (row("tool", "github", "Owner/Tool"), Vec::new()),
        (row("ripgrep", "cargo", "ripgrep"), Vec::new()),
    ];
    let bom = cyclonedx(&entries);

    assert_eq!(text(field(&bom, "bomFormat")), "CycloneDX");
    assert_eq!(text(field(&bom, "specVersion")), "1.5");
    let components = items(field(&bom, "components"));
    assert_eq!(components.len(), 2);

    let tool = &components[0];
    assert_eq!(text(field(tool, "bom-ref")), "tool@1.2.3");
    assert_eq!(text(field(tool, "name")), "tool");
    assert_eq!(text(field(tool, "version")), "1.2.3");
    assert_eq!(text(field(tool, "purl")), "pkg:github/owner/tool@1.2.3");
    assert_eq!(text(field(at(field(tool, "hashes"), 0), "alg")), "SHA-256");
    assert_eq!(text(field(at(field(tool, "hashes"), 0), "content")), "ab".repeat(32));
    let distribution = at(field(tool, "externalReferences"), 0);
    assert_eq!(text(field(distribution, "type")), "distribution");
    assert_eq!(text(field(distribution, "url")), "https://dl.test/tool.tar.gz");
    assert_eq!(text(field(at(field(tool, "properties"), 0), "value")), "github:Owner/Tool");

    assert_eq!(text(field(&components[1], "purl")), "pkg:cargo/ripgrep@1.2.3");
}

#[test]
fn test_dependencies_point_at_rostered_components_only() {
    let entries = vec![
        (
            row("app", "github", "owner/app"),
            vec![("lib".to_string(), ">=1.0".to_string()), ("libc6".to_string(), "*".to_string())],
        ),
        (row("lib", "github", "owner/lib"), Vec::new()),
    ];
    let bom = cyclonedx(&entries);

    let deps = items(field(&bom, "dependencies"));
    assert_eq!(deps.len(), 2);
    assert_eq!(text(field(&deps[0], "ref")), "app@1.2.3");
    let app_edges: Vec<&str> = items(field(&deps[0], "dependsOn")).iter().map(text).collect();
    assert_eq!(app_edges, vec!["lib@1.2.3"]);
    assert_eq!(text(field(&deps[1], "ref")), "lib@1.2.3");
    assert!(items(field(&deps[1], "dependsOn")).is_empty());
}

#[test]
fn test_unverifiable_hash_and_empty_fields_are_left_out() {
    let mut bare = row("bare", "system", "apt");
    bare.sha256 = Some("not-a-hash".to_string());
    bare.download_url = None;
    bare.repository = None;
    bare.description = None;

    let component = component(&bare);
    assert!(get(&component, "hashes").is_none());
    assert!(get(&component, "externalReferences").is_none());
    assert!(get(&component, "description").is_none());
    assert!(get(&component, "purl").is_none());
    assert_eq!(text(field(at(field(&component, "properties"), 0), "value")), "system:apt");
}

#[test]
fn test_an_empty_roster_is_a_valid_empty_bom() {
    let bom = cyclonedx(&Vec::new());
    assert!(items(field(&bom, "components")).is_empty());
    assert!(items(field(&bom, "dependencies")).is_empty());
}
