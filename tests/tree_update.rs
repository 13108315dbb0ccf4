use gup::config::{Build, Config, DepEntry, Dependency, Package};
use gup::error::PdmError;
use gup::tree::{get_dep_tree, DepTree, LoadedConfigs, TreeStep};
use gup::update::{update_target, update_targets, SourceUrl, UpdateTarget};

fn dep(name: &str, version: &str) -> Dependency {
    Dependency {
        name: name.to_string(),
        version: version.to_string(),
        source: format!("https://example.com/{}.git", name),
    }
}

fn project(name: &str, version: &str, deps: &[Dependency]) -> Config {
    let mut table = toml::map::Map::new();
    for d in deps {
        table.insert(
            d.name.clone(),
            DepEntry {
                name: Some(d.name.clone()),
                version: Some(d.version.clone()),
                source: Some(d.source.clone()),
            },
        );
    }
    Config {
        package: Some(Package { name: name.to_string(), version: version.to_string() }),
        build: Build { infiles: vec!["main.hc".to_string()], outfile: "a.wasm".to_string(), docfile: None },
        dependencies: if deps.is_empty() { None } else { Some(table) },
    }
}

fn leaf(label: &str) -> DepTree {
    DepTree { label: label.to_string(), children: vec![] }
}

fn node(label: &str, children: Vec<DepTree>) -> DepTree {
    DepTree { label: label.to_string(), children }
}

/// Runs the build-load loop against a fixed set of configurations, keyed by
/// dependency name; returns the tree and the names loaded, in order.
fn build_with(root: &Config, world: &[(&str, Config)]) -> (DepTree, Vec<String>) {
    let mut store = LoadedConfigs::new();
    let mut loaded = Vec::new();
    loop {
        match get_dep_tree(root, &store).unwrap() {
            TreeStep::Complete(t) => return (t, loaded),
            TreeStep::NeedConfig(d) => {
                assert!(!loaded.contains(&d.name), "asked twice for {}", d.name);
                let cfg = &world.iter().find(|(n, _)| *n == d.name).unwrap().1;
                store.insert(&d, cfg).unwrap();
                loaded.push(d.name.clone());
            }
        }
    }
}

#[test]
fn tree_of_project_without_dependencies() {
    let root = project("p", "1.0", &[]);
    let (t, loaded) = build_with(&root, &[]);
    assert_eq!(t, leaf("p-1.0"));
    assert!(loaded.is_empty());
}

#[test]
fn tree_asks_for_missing_configs_in_walk_order() {
    let root = project("p", "1.0", &[dep("a", "1"), dep("b", "1")]);
    let store = LoadedConfigs::new();
    match get_dep_tree(&root, &store).unwrap() {
        TreeStep::NeedConfig(d) => assert_eq!(d, dep("a", "1")),
        other => panic!("unexpected {:?}", other),
    }
    let world = [("a", project("a", "1", &[dep("c", "1")])), ("b", project("b", "1", &[])), ("c", project("c", "1", &[]))];
    let (t, loaded) = build_with(&root, &world);
    assert_eq!(loaded, vec!["a".to_string(), "c".to_string(), "b".to_string()]);
    assert_eq!(t, node("p-1.0", vec![node("a-1", vec![leaf("c-1")]), leaf("b-1")]));
}

#[test]
fn cycle_is_marked_and_walk_ends() {
    let root = project("p", "1.0", &[dep("a", "1")]);
    let world = [("a", project("a", "1", &[dep("b", "1")])), ("b", project("b", "1", &[dep("a", "1")]))];
    let (t, loaded) = build_with(&root, &world);
    assert_eq!(t, node("p-1.0", vec![node("a-1", vec![node("b-1", vec![leaf("a-1 *")])])]));
    assert_eq!(loaded.len(), 2);
}

#[test]
fn self_cycle_is_marked() {
    let root = project("p", "1.0", &[dep("a", "1")]);
    let world = [("a", project("a", "1", &[dep("a", "1")]))];
    let (t, _) = build_with(&root, &world);
    assert_eq!(t, node("p-1.0", vec![node("a-1", vec![leaf("a-1 *")])]));
}

#[test]
fn cycle_back_to_root_expands_root_once_more() {
    let root = project("p", "1.0", &[dep("a", "1")]);
    let world = [("a", project("a", "1", &[dep("p", "1.0")])), ("p", project("p", "1.0", &[dep("a", "1")]))];
    let (t, _) = build_with(&root, &world);
    assert_eq!(t, node("p-1.0", vec![node("a-1", vec![node("p-1.0", vec![leaf("a-1 *")])])]));
}

#[test]
fn diamond_expands_shared_dependency_once() {
    let root = project("p", "1.0", &[dep("a", "1"), dep("b", "1")]);
    let world = [
        ("a", project("a", "1", &[dep("c", "1")])),
        ("b", project("b", "1", &[dep("c", "1")])),
        ("c", project("c", "1", &[dep("e", "1")])),
        ("e", project("e", "1", &[])),
    ];
    let (t, loaded) = build_with(&root, &world);
    assert_eq!(
        t,
        node(
            "p-1.0",
            vec![node("a-1", vec![node("c-1", vec![leaf("e-1")])]), node("b-1", vec![leaf("c-1 *")])]
        )
    );
    assert_eq!(loaded.len(), 4);
}

#[test]
fn repeated_declaration_under_one_parent() {
    let mut twin = dep("a", "1");
    twin.name = "a ".to_string();
    let root = project("p", "1.0", &[dep("a", "1"), twin]);
    let world = [("a", project("a", "1", &[]))];
    let (t, _) = build_with(&root, &world);
    assert_eq!(t, node("p-1.0", vec![leaf("a-1"), leaf("a-1 *")]));
}

#[test]
fn tree_root_needs_package() {
    let mut root = project("p", "1.0", &[]);
    root.package = None;
    assert!(matches!(get_dep_tree(&root, &LoadedConfigs::new()), Err(PdmError::InvalidDependencyConfig)));
}

#[test]
fn store_refuses_config_without_package() {
    let mut store = LoadedConfigs::new();
    let mut cfg = project("a", "1", &[]);
    cfg.package = None;
    assert_eq!(store.insert(&dep("a", "1"), &cfg), Err(PdmError::InvalidDependencyConfig));
}

#[test]
fn update_target_by_parsed_source() {
    let d = dep("d", "2.0");
    let remote = SourceUrl { text: "https://example.com/d.git".to_string(), has_host: true };
    assert_eq!(
        update_target(&d, Some(&remote), "/c"),
        Ok(Some(UpdateTarget { url: "https://example.com/d.git".to_string(), slot: "/c/d-2.0".to_string() }))
    );
    let local = SourceUrl { text: "file:///src/d".to_string(), has_host: false };
    assert_eq!(update_target(&d, Some(&local), "/c"), Ok(None));
    assert_eq!(
        update_target(&d, None, "/c"),
        Err(PdmError::InvalidSourceUrl { source: "https://example.com/d.git".to_string() })
    );
}

#[test]
fn update_targets_refetch_remote_sources() {
    let mut plain = dep("local", "1");
    plain.source = "unix:/var/lib/local".to_string();
    let root = project("p", "1.0", &[dep("d", "2.0"), plain, dep("e", "3")]);
    assert_eq!(
        update_targets(&root, "/c"),
        Ok(vec![
            UpdateTarget { url: "https://example.com/d.git".to_string(), slot: "/c/d-2.0".to_string() },
            UpdateTarget { url: "https://example.com/e.git".to_string(), slot: "/c/e-3".to_string() },
        ])
    );
}

#[test]
fn update_targets_normalise_url_text() {
    let mut d = dep("d", "2.0");
    d.source = "HTTPS://Example.COM".to_string();
    let root = project("p", "1.0", &[d]);
    assert_eq!(
        update_targets(&root, "/c"),
        Ok(vec![UpdateTarget { url: "https://example.com/".to_string(), slot: "/c/d-2.0".to_string() }])
    );
}

#[test]
fn update_targets_reject_relative_source() {
    let mut d = dep("d", "2.0");
    d.source = "./libs/d".to_string();
    let root = project("p", "1.0", &[d]);
    assert_eq!(update_targets(&root, "/c"), Err(PdmError::InvalidSourceUrl { source: "./libs/d".to_string() }));
}
