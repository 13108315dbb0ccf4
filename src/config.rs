//! The project configuration record and the rules it must obey.

use vstd::prelude::*;

use crate::error::{ConfigError, ConfigErrorView, DepField, PdmError, PdmErrorView};
use crate::paths::{extension_of, path_extension};
use crate::text::same_text;

verus! {

/// A project's self-declared identity.
#[derive(Clone, Debug, PartialEq, Eq)]
pub struct Package {
    pub name: String,
    pub version: String,
}

pub struct PackageView {
    pub name: Seq<char>,
    pub version: Seq<char>,
}

impl View for Package {
    type V = PackageView;

    open spec fn view(&self) -> PackageView {
        PackageView { name: self.name@, version: self.version@ }
    }
}

/// The `build` section: input files in order, the output file, and an
/// optional documentation file.
#[derive(Clone, Debug, PartialEq, Eq)]
pub struct Build {
    pub infiles: Vec<String>,
    pub outfile: String,
    pub docfile: Option<String>,
}

pub struct BuildView {
    pub infiles: Seq<Seq<char>>,
    pub outfile: Seq<char>,
    pub docfile: Option<Seq<char>>,
}

pub open spec fn strings_view(v: Seq<String>) -> Seq<Seq<char>> {
    v.map_values(|s: String| s@)
}

pub open spec fn opt_string_view(o: Option<String>) -> Option<Seq<char>> {
    match o {
        Some(s) => Some(s@),
        None => None,
    }
}

impl View for Build {
    type V = BuildView;

    open spec fn view(&self) -> BuildView {
        BuildView {
            infiles: strings_view(self.infiles@),
            outfile: self.outfile@,
            docfile: opt_string_view(self.docfile),
        }
    }
}

/// A resolved dependency: its name, version and source locator.
#[derive(Clone, Debug, PartialEq, Eq)]
pub struct Dependency {
    pub name: String,
    pub version: String,
    pub source: String,
}

pub struct DependencyView {
    pub name: Seq<char>,
    pub version: Seq<char>,
    pub source: Seq<char>,
}

impl View for Dependency {
    type V = DependencyView;

    open spec fn view(&self) -> DependencyView {
        DependencyView { name: self.name@, version: self.version@, source: self.source@ }
    }
}

impl Dependency {
    /// A field-by-field copy.
    pub fn duplicate(&self) -> (r: Dependency)
        ensures
            r@ == self@,
    {
        Dependency {
            name: self.name.clone(),
            version: self.version.clone(),
            source: self.source.clone(),
        }
    }
}

/// One entry of a `dependencies` section as written: each field is present
/// as a string, or absent.
#[derive(Clone, Debug, PartialEq, Eq)]
pub struct DepEntry {
    pub name: Option<String>,
    pub version: Option<String>,
    pub source: Option<String>,
}

pub struct DepEntryView {
    pub name: Option<Seq<char>>,
    pub version: Option<Seq<char>>,
    pub source: Option<Seq<char>>,
}

impl View for DepEntry {
    type V = DepEntryView;

    open spec fn view(&self) -> DepEntryView {
        DepEntryView {
            name: opt_string_view(self.name),
            version: opt_string_view(self.version),
            source: opt_string_view(self.source),
        }
    }
}

/// The ordered table of the toml crate, held opaquely; its entries are read
/// through `dep_table_entries`.
#[verifier::external_type_specification]
#[verifier::external_body]
#[verifier::reject_recursive_types(K)]
#[verifier::reject_recursive_types(V)]
pub struct ExTomlMap<K, V>(toml::map::Map<K, V>);

/// The entries of a `dependencies` table, in the table's order.
pub uninterp spec fn dep_table_entries(t: toml::map::Map<String, DepEntry>) -> Seq<
    (Seq<char>, DepEntryView),
>;

/// The index of the first entry of `s` under key `k`, if any.
pub open spec fn entry_index(s: Seq<(Seq<char>, DepEntryView)>, k: Seq<char>) -> Option<int>
    decreases s.len(),
{
    if s.len() == 0 {
        None
    } else if s[0].0 == k {
        Some(0)
    } else {
        match entry_index(s.drop_first(), k) {
            Some(i) => Some(i + 1),
            None => None,
        }
    }
}

/// An ordered table after inserting `(k, v)`: an existing entry under `k`
/// takes the new value in place, otherwise the entry goes last.
pub open spec fn entries_insert(
    s: Seq<(Seq<char>, DepEntryView)>,
    k: Seq<char>,
    v: DepEntryView,
) -> Seq<(Seq<char>, DepEntryView)> {
    match entry_index(s, k) {
        Some(i) => s.update(i, (k, v)),
        None => s.push((k, v)),
    }
}

/// Relies on `toml::map::Map::new`: a new table is empty.
#[verifier::external_body]
pub(crate) fn new_dep_table() -> (t: toml::map::Map<String, DepEntry>)
    ensures
        dep_table_entries(t) == Seq::<(Seq<char>, DepEntryView)>::empty(),
{
    toml::map::Map::new()
}

/// Relies on `toml::map::Map::insert`, which with order preservation keeps an
/// existing key in its place and appends a new one.
#[verifier::external_body]
pub(crate) fn dep_table_insert(t: &mut toml::map::Map<String, DepEntry>, k: String, v: DepEntry)
    ensures
        dep_table_entries(*final(t)) == entries_insert(dep_table_entries(*old(t)), k@, v@),
{
    t.insert(k, v);
}

/// Relies on `toml::map::Map::iter`: the entries in the table's order.
#[verifier::external_body]
pub(crate) fn dep_table_items(t: &toml::map::Map<String, DepEntry>) -> (r: Vec<(String, DepEntry)>)
    ensures
        r@.len() == dep_table_entries(*t).len(),
        forall|i: int|
            0 <= i < r@.len() ==> (#[trigger] r@[i]).0@ == dep_table_entries(*t)[i].0 && r@[i].1@
                == dep_table_entries(*t)[i].1,
{
    t.iter().map(|(k, v)| (k.clone(), v.clone())).collect()
}

/// A project configuration: optional package identity, build section, and
/// dependency declarations keyed by declaration name.
#[derive(Clone, Debug)]
pub struct Config {
    pub package: Option<Package>,
    pub build: Build,
    pub dependencies: Option<toml::map::Map<String, DepEntry>>,
}

pub struct ConfigView {
    pub package: Option<PackageView>,
    pub build: BuildView,
    pub dependencies: Seq<(Seq<char>, DepEntryView)>,
}

impl View for Config {
    type V = ConfigView;

    /// An absent `dependencies` section reads as an empty one.
    open spec fn view(&self) -> ConfigView {
        ConfigView {
            package: match self.package {
                Some(p) => Some(p@),
                None => None,
            },
            build: self.build@,
            dependencies: match self.dependencies {
                Some(t) => dep_table_entries(t),
                None => Seq::empty(),
            },
        }
    }
}

/// A dependency declaration read as a dependency, or the first field it lacks.
pub open spec fn entry_dependency(e: DepEntryView) -> Result<DependencyView, PdmErrorView> {
    match (e.name, e.version, e.source) {
        (Some(n), Some(v), Some(s)) => Ok(DependencyView { name: n, version: v, source: s }),
        (None, _, _) => Err(PdmErrorView::MissingDependencyField { field: DepField::Name }),
        (Some(_), None, _) => Err(PdmErrorView::MissingDependencyField { field: DepField::Version }),
        (Some(_), Some(_), None) => Err(
            PdmErrorView::MissingDependencyField { field: DepField::Source },
        ),
    }
}

/// Reads a dependency declaration; it fails on the first of `name`, `version`
/// and `source` that is absent.
pub fn table_to_dep(table: &DepEntry) -> (r: Result<Dependency, PdmError>)
    ensures
        match entry_dependency(table@) {
            Ok(d) => r matches Ok(dep) && dep@ == d,
            Err(e) => r matches Err(err) && err@ == e,
        },
{
    let name = match &table.name {
        Some(n) => n.clone(),
        None => {
            return Err(PdmError::MissingDependencyField { field: DepField::Name });
        },
    };
    let version = match &table.version {
        Some(v) => v.clone(),
        None => {
            return Err(PdmError::MissingDependencyField { field: DepField::Version });
        },
    };
    let source = match &table.source {
        Some(s) => s.clone(),
        None => {
            return Err(PdmError::MissingDependencyField { field: DepField::Source });
        },
    };
    Ok(Dependency { name, version, source })
}

/// The dependencies a table declares, in its order, or the error of the first
/// declaration that cannot be read.
pub open spec fn declared_dependencies(s: Seq<(Seq<char>, DepEntryView)>) -> Result<
    Seq<DependencyView>,
    PdmErrorView,
>
    decreases s.len(),
{
    if s.len() == 0 {
        Ok(Seq::empty())
    } else {
        match declared_dependencies(s.drop_last()) {
            Err(e) => Err(e),
            Ok(ds) => match entry_dependency(s.last().1) {
                Err(e) => Err(e),
                Ok(d) => Ok(ds.push(d)),
            },
        }
    }
}

pub open spec fn deps_view(v: Seq<Dependency>) -> Seq<DependencyView> {
    v.map_values(|d: Dependency| d@)
}

/// Reads every dependency declaration of a configuration, in declaration order.
pub fn dependency_list(cfg: &Config) -> (r: Result<Vec<Dependency>, PdmError>)
    ensures
        match declared_dependencies(cfg@.dependencies) {
            Ok(ds) => r matches Ok(v) && deps_view(v@) == ds,
            Err(e) => r matches Err(err) && err@ == e,
        },
{
    let mut out: Vec<Dependency> = Vec::new();
    let items = match &cfg.dependencies {
        Some(t) => dep_table_items(t),
        None => Vec::new(),
    };
    let ghost entries = cfg@.dependencies;
    assert(items@.len() == entries.len());
    assert(entries.take(0) == Seq::<(Seq<char>, DepEntryView)>::empty());
    assert(deps_view(out@) == Seq::<DependencyView>::empty());
    let mut i: usize = 0;
    while i < items.len()
        invariant
            entries == cfg@.dependencies,
            items@.len() == entries.len(),
            forall|j: int|
                0 <= j < items@.len() ==> (#[trigger] items@[j]).0@ == entries[j].0 && items@[j].1@
                    == entries[j].1,
            i <= items@.len(),
            declared_dependencies(entries.take(i as int)) == Ok::<
                Seq<DependencyView>,
                PdmErrorView,
            >(deps_view(out@)),
        decreases items@.len() - i,
    {
        assert(entries.take(i + 1).drop_last() == entries.take(i as int));
        assert(entries.take(i + 1).last() == entries[i as int]);
        let ghost prev = out@;
        match table_to_dep(&items[i].1) {
            Ok(d) => {
                out.push(d);
                assert(out@ == prev.push(d));
                assert(deps_view(out@) =~= deps_view(prev).push(d@));
            },
            Err(e) => {
                proof {
                    lemma_declared_prefix_error(entries, i as int + 1);
                }
                return Err(e);
            },
        }
        i = i + 1;
    }
    assert(entries.take(i as int) == entries);
    Ok(out)
}

/// Once a prefix of the declarations fails to read, the whole list fails the
/// same way.
proof fn lemma_declared_prefix_error(s: Seq<(Seq<char>, DepEntryView)>, n: int)
    requires
        0 <= n <= s.len(),
        declared_dependencies(s.take(n)) is Err,
    ensures
        declared_dependencies(s) == declared_dependencies(s.take(n)),
    decreases s.len() - n,
{
    if n < s.len() {
        assert(s.take(n + 1).drop_last() == s.take(n));
        lemma_declared_prefix_error(s, n + 1);
    } else {
        assert(s.take(n) == s);
    }
}

/// Builds a configuration from its parts, with no package identity.
pub fn create_config(
    ins: Vec<String>,
    out: String,
    dfile: Option<String>,
    deps: Option<toml::map::Map<String, DepEntry>>,
) -> (r: Result<Config, PdmError>)
    ensures
        r matches Ok(cfg) && cfg.package is None && cfg.build.infiles == ins && cfg.build.outfile
            == out && cfg.build.docfile == dfile && cfg.dependencies == deps,
{
    Ok(Config {
        package: None,
        build: Build { infiles: ins, outfile: out, docfile: dfile },
        dependencies: deps,
    })
}

pub open spec fn is_input_extension(e: Option<Seq<char>>) -> bool {
    e == Some("hc"@) || e == Some("wasm"@)
}

/// The index of the first input file whose extension is neither `hc` nor `wasm`.
pub open spec fn first_bad_input(infiles: Seq<Seq<char>>) -> Option<int>
    decreases infiles.len(),
{
    if infiles.len() == 0 {
        None
    } else if !is_input_extension(path_extension(infiles[0])) {
        Some(0)
    } else {
        match first_bad_input(infiles.drop_first()) {
            Some(i) => Some(i + 1),
            None => None,
        }
    }
}

/// The first rule of the `build` section that `b` breaks, checked in this
/// order: input extensions, a non-empty output name ending in `.wasm`, at
/// least one input file, a documentation file ending in `.md`.
pub open spec fn build_violation(b: BuildView) -> Option<ConfigErrorView> {
    match first_bad_input(b.infiles) {
        Some(i) => Some(ConfigErrorView::InvalidInputFile { file: b.infiles[i] }),
        None => if b.outfile.len() == 0 {
            Some(ConfigErrorView::MissingOutputFile)
        } else if path_extension(b.outfile) != Some("wasm"@) {
            Some(ConfigErrorView::InvalidOutputFile { file: b.outfile })
        } else if b.infiles.len() == 0 {
            Some(ConfigErrorView::NoInputFiles)
        } else {
            match b.docfile {
                Some(d) => if path_extension(d) != Some("md"@) {
                    Some(ConfigErrorView::InvalidDocFile { file: d })
                } else {
                    None
                },
                None => None,
            }
        },
    }
}

/// Whether the path `p` has extension `ext`.
fn has_extension(p: &str, ext: &str) -> (r: bool)
    ensures
        r == (path_extension(p@) == Some(ext@)),
{
    match extension_of(p) {
        Some(e) => same_text(e.as_str(), ext),
        None => false,
    }
}

/// Checks a configuration's `build` section against the schema.
pub fn validate_config(cfg: &Config) -> (r: Result<(), ConfigError>)
    ensures
        match build_violation(cfg@.build) {
            None => r is Ok,
            Some(e) => r matches Err(err) && err@ == e,
        },
        cfg@.build.infiles.len() == 0 ==> r is Err,
        path_extension(cfg@.build.outfile) != Some("wasm"@) ==> r is Err,
{
    let infiles = &cfg.build.infiles;
    let ghost files = cfg@.build.infiles;
    assert(files.skip(0) == files);
    let mut i: usize = 0;
    while i < infiles.len()
        invariant
            files == cfg@.build.infiles,
            infiles == &cfg.build.infiles,
            files == strings_view(infiles@),
            i <= infiles@.len(),
            first_bad_input(files) == match first_bad_input(files.skip(i as int)) {
                Some(j) => Some(j + i),
                None => None::<int>,
            },
        decreases infiles@.len() - i,
    {
        assert(files.skip(i as int).drop_first() == files.skip(i + 1));
        assert(files.skip(i as int)[0] == infiles@[i as int]@);
        assert(files[i as int] == infiles@[i as int]@);
        let f = infiles[i].as_str();
        if !has_extension(f, "hc") && !has_extension(f, "wasm") {
            return Err(ConfigError::InvalidInputFile { file: infiles[i].clone() });
        }
        i = i + 1;
    }
    assert(files.skip(i as int).len() == 0);
    let out = cfg.build.outfile.as_str();
    if out.unicode_len() == 0 {
        return Err(ConfigError::MissingOutputFile);
    }
    if !has_extension(out, "wasm") {
        return Err(ConfigError::InvalidOutputFile { file: cfg.build.outfile.clone() });
    }
    if infiles.len() == 0 {
        return Err(ConfigError::NoInputFiles);
    }
    match &cfg.build.docfile {
        Some(d) => {
            if !has_extension(d.as_str(), "md") {
                return Err(ConfigError::InvalidDocFile { file: d.clone() });
            }
        },
        None => {},
    }
    Ok(())
}

/// The declaration recorded for a resolved dependency.
pub open spec fn declaration_of(d: DependencyView) -> DepEntryView {
    DepEntryView { name: Some(d.name), version: Some(d.version), source: Some(d.source) }
}

/// Records a dependency in a configuration under the dependency's name: an
/// existing declaration of that name is replaced in place, otherwise the new
/// one goes last. The package and build sections are kept.
pub fn insert_dependency(cfg: Config, dep: Dependency) -> (r: Config)
    ensures
        r.package == cfg.package,
        r.build == cfg.build,
        r@.dependencies == entries_insert(cfg@.dependencies, dep.name@, declaration_of(dep@)),
{
    let Config { package, build, dependencies } = cfg;
    let mut table = match dependencies {
        Some(t) => t,
        None => new_dep_table(),
    };
    let entry = DepEntry {
        name: Some(dep.name.clone()),
        version: Some(dep.version),
        source: Some(dep.source),
    };
    dep_table_insert(&mut table, dep.name, entry);
    Config { package, build, dependencies: Some(table) }
}

/// The configuration of a new project: `./main.hc` in, `./a.wasm` out,
/// documentation in `./docs.md`, and package `name` at version `0.1.0`.
pub fn initial_config(name: &str) -> (r: Config)
    ensures
        r@.package == Some(PackageView { name: name@, version: "0.1.0"@ }),
        r@.build.infiles == seq!["./main.hc"@],
        r@.build.outfile == "./a.wasm"@,
        r@.build.docfile == Some("./docs.md"@),
        r.dependencies is None,
{
    let mut infiles: Vec<String> = Vec::new();
    infiles.push("./main.hc".to_owned());
    assert(strings_view(infiles@) =~= seq!["./main.hc"@]);
    Config {
        package: Some(Package { name: name.to_owned(), version: "0.1.0".to_owned() }),
        build: Build {
            infiles,
            outfile: "./a.wasm".to_owned(),
            docfile: Some("./docs.md".to_owned()),
        },
        dependencies: None,
    }
}

/// The source of a new, empty module named `name`.
pub fn module_stub(name: &str) -> (r: String)
    ensures
        r@ == "module "@ + name@ + " =\n(* Your code here! *)\nend"@,
{
    let mut text = "module ".to_owned();
    text.append(name);
    text.append(" =\n(* Your code here! *)\nend");
    text
}

/// The input files whose extension is neither `hc` nor `wasm`, in order.
pub fn check_valid(cfg: &Config) -> (r: Vec<String>)
    ensures
        strings_view(r@) == cfg@.build.infiles.filter(
            |f: Seq<char>| !is_input_extension(path_extension(f)),
        ),
{
    let infiles = &cfg.build.infiles;
    let ghost files = cfg@.build.infiles;
    let ghost bad = |f: Seq<char>| !is_input_extension(path_extension(f));
    let mut out: Vec<String> = Vec::new();
    let mut i: usize = 0;
    assert(files.take(0) == Seq::<Seq<char>>::empty());
    assert(strings_view(out@) == Seq::<Seq<char>>::empty());
    while i < infiles.len()
        invariant
            files == cfg@.build.infiles,
            infiles == &cfg.build.infiles,
            files == strings_view(infiles@),
            bad == (|f: Seq<char>| !is_input_extension(path_extension(f))),
            i <= infiles@.len(),
            strings_view(out@) == files.take(i as int).filter(bad),
        decreases infiles@.len() - i,
    {
        let f = infiles[i].as_str();
        proof {
            assert(files.take(i + 1) == files.take(i as int).push(files[i as int]));
            files.take(i as int).lemma_filter_push(files[i as int], bad);
        }
        if !has_extension(f, "hc") && !has_extension(f, "wasm") {
            let ghost prev = out@;
            out.push(infiles[i].clone());
            assert(strings_view(out@) =~= strings_view(prev).push(files[i as int]));
        }
        i = i + 1;
    }
    assert(files.take(i as int) == files);
    out
}

} // verus!
