use gup::assemble::{assemble_inputs, build_plan, compiler_args, ResolvedDep};
use gup::cache::{locate, Location};
use gup::config::{
    check_valid, create_config, dependency_list, initial_config, insert_dependency, module_stub,
    table_to_dep, validate_config, Build, Config, DepEntry, Dependency, Package,
};
use gup::error::{ConfigError, DepField, PdmError};

fn strings(xs: &[&str]) -> Vec<String> {
    xs.iter().map(|s| s.to_string()).collect()
}

fn entry(name: &str, version: &str, source: &str) -> DepEntry {
    DepEntry {
        name: Some(name.to_string()),
        version: Some(version.to_string()),
        source: Some(source.to_string()),
    }
}

fn config(infiles: &[&str], outfile: &str, docfile: Option<&str>) -> Config {
    Config {
        package: None,
        build: Build {
            infiles: strings(infiles),
            outfile: outfile.to_string(),
            docfile: docfile.map(|d| d.to_string()),
        },
        dependencies: None,
    }
}

fn with_deps(mut cfg: Config, deps: &[(&str, DepEntry)]) -> Config {
    let mut table = toml::map::Map::new();
    for (k, v) in deps {
        table.insert(k.to_string(), v.clone());
    }
    cfg.dependencies = Some(table);
    cfg
}

#[test]
fn valid_config_passes() {
    assert_eq!(validate_config(&config(&["main.hc", "lib.wasm"], "a.wasm", Some("docs.md"))), Ok(()));
    assert_eq!(validate_config(&config(&["./src/main.hc"], "./out/a.wasm", None)), Ok(()));
}

#[test]
fn invalid_input_extension() {
    assert_eq!(
        validate_config(&config(&["main.hc", "notes.txt", "x.c"], "a.wasm", None)),
        Err(ConfigError::InvalidInputFile { file: "notes.txt".to_string() })
    );
    assert_eq!(
        validate_config(&config(&["main"], "a.wasm", None)),
        Err(ConfigError::InvalidInputFile { file: "main".to_string() })
    );
}

#[test]
fn missing_output_file() {
    assert_eq!(validate_config(&config(&["main.hc"], "", None)), Err(ConfigError::MissingOutputFile));
}

#[test]
fn output_without_wasm_extension() {
    assert_eq!(
        validate_config(&config(&["main.hc"], "a.out", None)),
        Err(ConfigError::InvalidOutputFile { file: "a.out".to_string() })
    );
    assert_eq!(
        validate_config(&config(&["main.hc"], "a", None)),
        Err(ConfigError::InvalidOutputFile { file: "a".to_string() })
    );
}

#[test]
fn empty_input_list() {
    assert_eq!(validate_config(&config(&[], "a.wasm", None)), Err(ConfigError::NoInputFiles));
}

#[test]
fn doc_file_must_be_markdown() {
    assert_eq!(
        validate_config(&config(&["main.hc"], "a.wasm", Some("docs.txt"))),
        Err(ConfigError::InvalidDocFile { file: "docs.txt".to_string() })
    );
}

#[test]
fn output_checked_before_empty_inputs() {
    assert_eq!(
        validate_config(&config(&[], "a.exe", None)),
        Err(ConfigError::InvalidOutputFile { file: "a.exe".to_string() })
    );
}

#[test]
fn build_plan_fails_fast_on_invalid_config() {
    let deps = [("d", entry("d", "2.0", "https://example.com/d.git"))];
    let empty = with_deps(config(&[], "a.wasm", None), &deps);
    assert_eq!(build_plan(&empty), Err(PdmError::ConfigValidation(ConfigError::NoInputFiles)));
    let bad_out = with_deps(config(&["main.hc"], "a.bin", None), &deps);
    assert_eq!(
        build_plan(&bad_out),
        Err(PdmError::ConfigValidation(ConfigError::InvalidOutputFile { file: "a.bin".to_string() }))
    );
    let good = with_deps(config(&["main.hc"], "a.wasm", None), &deps);
    assert_eq!(
        build_plan(&good),
        Ok(vec![Dependency {
            name: "d".to_string(),
            version: "2.0".to_string(),
            source: "https://example.com/d.git".to_string()
        }])
    );
}

#[test]
fn table_to_dep_reads_fields() {
    assert_eq!(
        table_to_dep(&entry("a", "1", "./a")),
        Ok(Dependency { name: "a".to_string(), version: "1".to_string(), source: "./a".to_string() })
    );
}

#[test]
fn table_to_dep_reports_first_missing_field() {
    let mut e = entry("a", "1", "./a");
    e.source = None;
    assert_eq!(table_to_dep(&e), Err(PdmError::MissingDependencyField { field: DepField::Source }));
    e.version = None;
    assert_eq!(table_to_dep(&e), Err(PdmError::MissingDependencyField { field: DepField::Version }));
    e.name = None;
    assert_eq!(table_to_dep(&e), Err(PdmError::MissingDependencyField { field: DepField::Name }));
}

#[test]
fn dependency_list_keeps_declaration_order() {
    let cfg = with_deps(
        config(&["main.hc"], "a.wasm", None),
        &[("zeta", entry("zeta", "1", "./z")), ("alpha", entry("alpha", "2", "./a"))],
    );
    let names: Vec<String> = dependency_list(&cfg).unwrap().into_iter().map(|d| d.name).collect();
    assert_eq!(names, strings(&["zeta", "alpha"]));
    assert_eq!(dependency_list(&config(&["main.hc"], "a.wasm", None)), Ok(vec![]));
}

#[test]
fn dependency_list_stops_at_bad_entry() {
    let mut broken = entry("b", "1", "./b");
    broken.version = None;
    let cfg = with_deps(
        config(&["main.hc"], "a.wasm", None),
        &[("a", entry("a", "1", "./a")), ("b", broken)],
    );
    assert_eq!(dependency_list(&cfg), Err(PdmError::MissingDependencyField { field: DepField::Version }));
}

#[test]
fn create_config_has_no_package() {
    let cfg = create_config(strings(&["m.hc"]), "o.wasm".to_string(), None, None).unwrap();
    assert!(cfg.package.is_none());
    assert_eq!(cfg.build.infiles, strings(&["m.hc"]));
    assert_eq!(cfg.build.outfile, "o.wasm");
    assert!(cfg.dependencies.is_none());
}

#[test]
fn insert_dependency_appends_then_replaces_in_place() {
    let cfg = with_deps(
        config(&["main.hc"], "a.wasm", None),
        &[("x", entry("x", "1", "./x")), ("y", entry("y", "1", "./y"))],
    );
    let d = Dependency { name: "x".to_string(), version: "9".to_string(), source: "./new".to_string() };
    let cfg = insert_dependency(cfg, d);
    let keys: Vec<String> = cfg.dependencies.as_ref().unwrap().keys().cloned().collect();
    assert_eq!(keys, strings(&["x", "y"]));
    assert_eq!(cfg.dependencies.as_ref().unwrap()["x"], entry("x", "9", "./new"));
    let z = Dependency { name: "z".to_string(), version: "1".to_string(), source: "./z".to_string() };
    let cfg = insert_dependency(cfg, z);
    let listed = dependency_list(&cfg).unwrap();
    let names: Vec<String> = listed.into_iter().map(|d| d.name).collect();
    assert_eq!(names, strings(&["x", "y", "z"]));
}

#[test]
fn insert_dependency_into_config_without_table() {
    let d = Dependency { name: "d".to_string(), version: "2.0".to_string(), source: "./d".to_string() };
    let cfg = insert_dependency(config(&["main.hc"], "a.wasm", None), d.clone());
    assert_eq!(dependency_list(&cfg), Ok(vec![d]));
    assert_eq!(cfg.build.outfile, "a.wasm");
}

#[test]
fn initial_config_defaults() {
    let cfg = initial_config("demo");
    assert_eq!(cfg.package, Some(Package { name: "demo".to_string(), version: "0.1.0".to_string() }));
    assert_eq!(cfg.build.infiles, strings(&["./main.hc"]));
    assert_eq!(cfg.build.outfile, "./a.wasm");
    assert_eq!(cfg.build.docfile, Some("./docs.md".to_string()));
    assert_eq!(validate_config(&cfg), Ok(()));
}

#[test]
fn module_stub_text() {
    assert_eq!(module_stub("main"), "module main =\n(* Your code here! *)\nend");
}

#[test]
fn check_valid_lists_bad_inputs() {
    let cfg = config(&["a.hc", "b.txt", "c.wasm", "d"], "a.wasm", None);
    assert_eq!(check_valid(&cfg), strings(&["b.txt", "d"]));
    assert_eq!(check_valid(&config(&["a.hc"], "a.wasm", None)), Vec::<String>::new());
}

#[test]
fn assemble_single_cached_dependency() {
    // the project declares d 2.0 from a URL; d declares a.src; the project declares main.src
    let d = Dependency {
        name: "d".to_string(),
        version: "2.0".to_string(),
        source: "https://example.com/d.git".to_string(),
    };
    let dir = match locate(&d, false, true, "/cache") {
        Location::Cached(p) => p,
        other => panic!("unexpected {:?}", other),
    };
    let resolved = vec![ResolvedDep { dir, infiles: strings(&["a.src"]) }];
    let own = Build { infiles: strings(&["main.src"]), outfile: "p.wasm".to_string(), docfile: None };
    assert_eq!(assemble_inputs(&resolved, &own), strings(&["/cache/d-2.0/a.src", "main.src"]));
}

#[test]
fn assemble_keeps_declaration_order() {
    let resolved = vec![
        ResolvedDep { dir: "/c/z-1".to_string(), infiles: strings(&["z2.hc", "z1.hc"]) },
        ResolvedDep { dir: "/c/a-1".to_string(), infiles: strings(&[]) },
        ResolvedDep { dir: "/c/m-1".to_string(), infiles: strings(&["m.hc", "z2.hc"]) },
    ];
    let own = Build { infiles: strings(&["main.hc", "util.hc"]), outfile: "p.wasm".to_string(), docfile: None };
    assert_eq!(
        assemble_inputs(&resolved, &own),
        strings(&["/c/z-1/z2.hc", "/c/z-1/z1.hc", "/c/m-1/m.hc", "/c/m-1/z2.hc", "main.hc", "util.hc"])
    );
}

#[test]
fn assemble_without_dependencies() {
    let own = Build { infiles: strings(&["main.hc"]), outfile: "p.wasm".to_string(), docfile: None };
    assert_eq!(assemble_inputs(&vec![], &own), strings(&["main.hc"]));
}

#[test]
fn assemble_local_dependency_path() {
    let resolved = vec![ResolvedDep { dir: "./libs/x".to_string(), infiles: strings(&["x.hc"]) }];
    let own = Build { infiles: strings(&["main.hc"]), outfile: "p.wasm".to_string(), docfile: None };
    assert_eq!(assemble_inputs(&resolved, &own), strings(&["./libs/x/x.hc", "main.hc"]));
}

#[test]
fn compiler_args_flags_each_value() {
    assert_eq!(
        compiler_args(&strings(&["a.hc", "b.hc"]), &strings(&["1", "two"])),
        strings(&["-i", "a.hc", "-i", "b.hc", "-p", "1", "-p", "two"])
    );
    assert_eq!(compiler_args(&strings(&["a.hc"]), &vec![]), strings(&["-i", "a.hc"]));
    assert_eq!(compiler_args(&vec![], &vec![]), Vec::<String>::new());
}
