//! Turning a project and its resolved dependencies into the ordered list of
//! source files, and that list into compiler arguments.

use vstd::prelude::*;

use crate::config::{
    build_violation, declared_dependencies, dependency_list, deps_view, strings_view, validate_config,
    Build, Config, Dependency,
};
use crate::error::{PdmError, PdmErrorView};
use crate::paths::{join_path, joined_path, path_extension};

verus! {

/// Checks a configuration and lists the dependencies a build must resolve, in
/// declaration order. A configuration that breaks the schema yields its
/// violation and no dependency, so nothing is fetched or assembled for it.
pub fn build_plan(cfg: &Config) -> (r: Result<Vec<Dependency>, PdmError>)
    ensures
        match build_violation(cfg@.build) {
            Some(e) => r matches Err(err) && err@ == PdmErrorView::ConfigValidation(e),
            None => match declared_dependencies(cfg@.dependencies) {
                Ok(ds) => r matches Ok(v) && deps_view(v@) == ds,
                Err(e) => r matches Err(err) && err@ == e,
            },
        },
        cfg@.build.infiles.len() == 0 ==> (r matches Err(PdmError::ConfigValidation(_))),
        path_extension(cfg@.build.outfile) != Some("wasm"@) ==> (r matches Err(
            PdmError::ConfigValidation(_),
        )),
{
    match validate_config(cfg) {
        Err(e) => Err(PdmError::ConfigValidation(e)),
        Ok(()) => dependency_list(cfg),
    }
}

/// A dependency after location: its directory and its own declared inputs.
#[derive(Clone, Debug, PartialEq, Eq)]
pub struct ResolvedDep {
    pub dir: String,
    pub infiles: Vec<String>,
}

pub open spec fn resolved_view(v: Seq<ResolvedDep>) -> Seq<(Seq<char>, Seq<Seq<char>>)> {
    v.map_values(|d: ResolvedDep| (d.dir@, strings_view(d.infiles@)))
}

/// A dependency's inputs, each read relative to its directory.
pub open spec fn files_under(dir: Seq<char>, infiles: Seq<Seq<char>>) -> Seq<Seq<char>> {
    infiles.map_values(|f: Seq<char>| joined_path(dir, f))
}

/// The inputs of all dependencies: each dependency's files in its own order,
/// dependencies in declaration order.
pub open spec fn dependency_files(deps: Seq<(Seq<char>, Seq<Seq<char>>)>) -> Seq<Seq<char>>
    decreases deps.len(),
{
    if deps.len() == 0 {
        Seq::empty()
    } else {
        dependency_files(deps.drop_last()) + files_under(deps.last().0, deps.last().1)
    }
}

/// The full input list: dependencies' files, then the project's own.
pub open spec fn assembled_inputs(
    deps: Seq<(Seq<char>, Seq<Seq<char>>)>,
    own: Seq<Seq<char>>,
) -> Seq<Seq<char>> {
    dependency_files(deps) + own
}

/// Lists the files to compile: for each resolved dependency in order, its
/// declared inputs joined to its directory; then the project's inputs as
/// written. Nothing is removed or reordered.
pub fn assemble_inputs(deps: &Vec<ResolvedDep>, build: &Build) -> (r: Vec<String>)
    ensures
        strings_view(r@) == assembled_inputs(resolved_view(deps@), build@.infiles),
        strings_view(r@).skip(dependency_files(resolved_view(deps@)).len() as int)
            == build@.infiles,
{
    let ghost rv = resolved_view(deps@);
    let mut out: Vec<String> = Vec::new();
    let mut i: usize = 0;
    assert(rv.take(0) == Seq::<(Seq<char>, Seq<Seq<char>>)>::empty());
    assert(strings_view(out@) == Seq::<Seq<char>>::empty());
    while i < deps.len()
        invariant
            rv == resolved_view(deps@),
            i <= deps@.len(),
            strings_view(out@) == dependency_files(rv.take(i as int)),
        decreases deps@.len() - i,
    {
        let d = &deps[i];
        let ghost before = strings_view(out@);
        let mut k: usize = 0;
        while k < d.infiles.len()
            invariant
                i < deps@.len(),
                d == &deps@[i as int],
                k <= d.infiles@.len(),
                strings_view(out@) == before + files_under(
                    d.dir@,
                    strings_view(d.infiles@).take(k as int),
                ),
            decreases d.infiles@.len() - k,
        {
            let f = join_path(d.dir.as_str(), d.infiles[k].as_str());
            let ghost prev = out@;
            out.push(f);
            assert(strings_view(d.infiles@).take(k + 1) == strings_view(d.infiles@).take(
                k as int,
            ).push(d.infiles@[k as int]@));
            assert(strings_view(out@) =~= strings_view(prev).push(f@));
            assert(files_under(d.dir@, strings_view(d.infiles@).take(k + 1)) =~= files_under(
                d.dir@,
                strings_view(d.infiles@).take(k as int),
            ).push(f@));
            k = k + 1;
        }
        assert(strings_view(d.infiles@).take(k as int) == strings_view(d.infiles@));
        assert(rv.take(i + 1).drop_last() == rv.take(i as int));
        assert(rv.take(i + 1).last() == rv[i as int]);
        i = i + 1;
    }
    assert(rv.take(i as int) == rv);
    let ghost dep_part = strings_view(out@);
    let mut k: usize = 0;
    while k < build.infiles.len()
        invariant
            k <= build.infiles@.len(),
            strings_view(out@) == dep_part + strings_view(build.infiles@).take(k as int),
        decreases build.infiles@.len() - k,
    {
        let ghost prev = out@;
        out.push(build.infiles[k].clone());
        assert(strings_view(out@) =~= strings_view(prev).push(build.infiles@[k as int]@));
        assert(strings_view(build.infiles@).take(k + 1) == strings_view(build.infiles@).take(
            k as int,
        ).push(build.infiles@[k as int]@));
        k = k + 1;
    }
    assert(strings_view(build.infiles@).take(k as int) == strings_view(build.infiles@));
    assert(strings_view(out@).skip(dep_part.len() as int) =~= build@.infiles);
    out
}

/// The files of dependencies declared earlier come before those declared
/// later: the inputs of two runs of declarations, one after the other, are
/// the inputs of the first run followed by those of the second.
pub proof fn lemma_declaration_order(
    a: Seq<(Seq<char>, Seq<Seq<char>>)>,
    b: Seq<(Seq<char>, Seq<Seq<char>>)>,
)
    ensures
        dependency_files(a + b) == dependency_files(a) + dependency_files(b),
    decreases b.len(),
{
    if b.len() == 0 {
        assert(a + b == a);
        assert(dependency_files(a) + dependency_files(b) == dependency_files(a));
    } else {
        lemma_declaration_order(a, b.drop_last());
        assert((a + b).drop_last() == a + b.drop_last());
        assert((a + b).last() == b.last());
        assert(dependency_files(a + b) =~= dependency_files(a) + dependency_files(b));
    }
}

/// The project's own files close the list whatever its dependencies are, and
/// the dependencies' files open it.
pub proof fn lemma_project_files_last(
    deps: Seq<(Seq<char>, Seq<Seq<char>>)>,
    own: Seq<Seq<char>>,
)
    ensures
        assembled_inputs(deps, own).skip(dependency_files(deps).len() as int) == own,
        assembled_inputs(deps, own).take(dependency_files(deps).len() as int) == dependency_files(
            deps,
        ),
        assembled_inputs(deps, own).len() == dependency_files(deps).len() + own.len(),
{
    assert(assembled_inputs(deps, own).skip(dependency_files(deps).len() as int) =~= own);
    assert(assembled_inputs(deps, own).take(dependency_files(deps).len() as int)
        =~= dependency_files(deps));
}

/// Each item of `xs` preceded by `flag`.
pub open spec fn flagged(flag: Seq<char>, xs: Seq<Seq<char>>) -> Seq<Seq<char>>
    decreases xs.len(),
{
    if xs.len() == 0 {
        Seq::empty()
    } else {
        flagged(flag, xs.drop_last()) + seq![flag, xs.last()]
    }
}

/// Appends `flag` and `x` for each `x` of `xs`.
fn push_flagged(out: &mut Vec<String>, flag: &str, xs: &Vec<String>)
    ensures
        strings_view(final(out)@) == strings_view(old(out)@) + flagged(flag@, strings_view(xs@)),
{
    let ghost start = strings_view(out@);
    let mut k: usize = 0;
    assert(strings_view(xs@).take(0) == Seq::<Seq<char>>::empty());
    assert(start + flagged(flag@, Seq::<Seq<char>>::empty()) == start);
    while k < xs.len()
        invariant
            k <= xs@.len(),
            strings_view(out@) == start + flagged(flag@, strings_view(xs@).take(k as int)),
        decreases xs@.len() - k,
    {
        let ghost prev = out@;
        out.push(flag.to_owned());
        out.push(xs[k].clone());
        let ghost taken = strings_view(xs@).take(k + 1);
        assert(taken.drop_last() == strings_view(xs@).take(k as int));
        assert(taken.last() == xs@[k as int]@);
        assert(strings_view(out@) =~= strings_view(prev) + seq![flag@, xs@[k as int]@]);
        k = k + 1;
    }
    assert(strings_view(xs@).take(k as int) == strings_view(xs@));
}

/// The compiler's arguments: `-i <file>` for each input in order, then
/// `-p <value>` for each run-time parameter.
pub fn compiler_args(files: &Vec<String>, params: &Vec<String>) -> (r: Vec<String>)
    ensures
        strings_view(r@) == flagged("-i"@, strings_view(files@)) + flagged(
            "-p"@,
            strings_view(params@),
        ),
{
    let mut out: Vec<String> = Vec::new();
    assert(strings_view(out@) == Seq::<Seq<char>>::empty());
    push_flagged(&mut out, "-i", files);
    push_flagged(&mut out, "-p", params);
    out
}

} // verus!
