//! Canonical dependency identity: the key that names a cache slot.

use vstd::prelude::*;

use crate::config::{Dependency, Package};
use crate::error::PdmError;
use crate::text::{is_white_space, remove_whitespace, strip_white_space};

verus! {

/// The derived key of a name and version: the name without whitespace, a
/// dash, then the version as written.
pub open spec fn dep_key(name: Seq<char>, version: Seq<char>) -> Seq<char> {
    strip_white_space(name) + "-"@ + version
}

/// Computes the derived key of a name and version.
pub fn dependency_key(name: &str, version: &str) -> (r: String)
    ensures
        r@ == dep_key(name@, version@),
{
    let mut key = remove_whitespace(name);
    key.append("-");
    key.append(version);
    key
}

/// The cache directory name of a dependency.
pub fn get_dep_filename(dep: &Dependency) -> (r: Result<String, PdmError>)
    ensures
        r matches Ok(k) && k@ == dep_key(dep.name@, dep.version@),
{
    Ok(dependency_key(dep.name.as_str(), dep.version.as_str()))
}

/// Removing whitespace a second time changes nothing.
pub proof fn lemma_strip_idempotent(s: Seq<char>)
    ensures
        strip_white_space(strip_white_space(s)) == strip_white_space(s),
    decreases s.len(),
{
    let p = |c: char| !is_white_space(c);
    if s.len() > 0 {
        lemma_strip_idempotent(s.drop_last());
        assert(s.drop_last().push(s.last()) == s);
        s.drop_last().lemma_filter_push(s.last(), p);
        let t = strip_white_space(s.drop_last());
        t.lemma_filter_push(s.last(), p);
    } else {
        assert(strip_white_space(s) == s);
    }
}

/// A dependency record names its package with whitespace already removed, so
/// its key is the package's key.
pub proof fn lemma_sanitized_key(name: Seq<char>, version: Seq<char>)
    ensures
        dep_key(strip_white_space(name), version) == dep_key(name, version),
{
    lemma_strip_idempotent(name);
}

/// The dependency record for a package consumed from `source`: the package's
/// name without whitespace, its version, and the source as given. A project
/// with no package identity cannot be consumed.
pub fn package_dependency(package: &Option<Package>, source: &str) -> (r: Result<Dependency, PdmError>)
    ensures
        match package {
            None => r matches Err(PdmError::InvalidDependencyConfig),
            Some(p) => r matches Ok(d) && d.name@ == strip_white_space(p.name@) && d.version@
                == p.version@ && d.source@ == source@ && dep_key(d.name@, d.version@) == dep_key(
                p.name@,
                p.version@,
            ),
        },
{
    match package {
        None => Err(PdmError::InvalidDependencyConfig),
        Some(p) => {
            proof {
                lemma_sanitized_key(p.name@, p.version@);
            }
            Ok(
                Dependency {
                    name: remove_whitespace(p.name.as_str()),
                    version: p.version.clone(),
                    source: source.to_owned(),
                },
            )
        },
    }
}

} // verus!
