//! The dependency cache: where a dependency lives, how a fetched copy is
//! committed, and how a declared dependency is located.

use vstd::prelude::*;

use crate::config::{Config, Dependency, DependencyView};
use crate::error::PdmError;
use crate::identity::{dep_key, dependency_key, package_dependency};
use crate::paths::{join_path, joined_path};
use crate::text::strip_white_space;

verus! {

/// The cache directory of a dependency: the cache root joined with its key.
pub open spec fn slot_of(cache_root: Seq<char>, name: Seq<char>, version: Seq<char>) -> Seq<char> {
    joined_path(cache_root, dep_key(name, version))
}

/// Computes the cache directory of a dependency.
pub fn cache_slot(cache_root: &str, dep: &Dependency) -> (r: String)
    ensures
        r@ == slot_of(cache_root@, dep.name@, dep.version@),
{
    let key = dependency_key(dep.name.as_str(), dep.version.as_str());
    join_path(cache_root, key.as_str())
}

/// The configuration file of the project in directory `dir`.
pub fn config_file_path(dir: &str) -> (r: String)
    ensures
        r@ == joined_path(dir@, "Config.toml"@),
{
    join_path(dir, "Config.toml")
}

/// The directory inside the cache root where a fetch is staged.
pub fn staging_dir(cache_root: &str) -> (r: String)
    ensures
        r@ == joined_path(cache_root@, "temp"@),
{
    join_path(cache_root, "temp")
}

/// What a commit does when the slot is already taken.
#[derive(Clone, Copy, Debug, PartialEq, Eq, Structural)]
pub enum SlotPolicy {
    /// The first copy under a key stays; later ones are discarded.
    KeepExisting,
    /// The new copy takes the slot's place.
    Replace,
}

/// What to do with a staged copy.
#[derive(Clone, Copy, Debug, PartialEq, Eq, Structural)]
pub enum CommitAction {
    /// Move the staged copy into the empty slot.
    MoveStaged,
    /// Remove the staged copy; the slot keeps what it holds.
    DiscardStaged,
    /// Remove the slot's contents, then move the staged copy there.
    ReplaceWithStaged,
}

pub open spec fn commit_for(policy: SlotPolicy, slot_exists: bool) -> CommitAction {
    if !slot_exists {
        CommitAction::MoveStaged
    } else {
        match policy {
            SlotPolicy::KeepExisting => CommitAction::DiscardStaged,
            SlotPolicy::Replace => CommitAction::ReplaceWithStaged,
        }
    }
}

/// Decides what becomes of a staged copy.
pub fn commit_action(policy: SlotPolicy, slot_exists: bool) -> (r: CommitAction)
    ensures
        r == commit_for(policy, slot_exists),
{
    if !slot_exists {
        CommitAction::MoveStaged
    } else {
        match policy {
            SlotPolicy::KeepExisting => CommitAction::DiscardStaged,
            SlotPolicy::Replace => CommitAction::ReplaceWithStaged,
        }
    }
}

/// The cache, as a map from key to the source whose copy fills the slot,
/// after action `a` on a copy of `source` staged for `key`.
pub open spec fn cache_after(
    cache: Map<Seq<char>, Seq<char>>,
    key: Seq<char>,
    source: Seq<char>,
    a: CommitAction,
) -> Map<Seq<char>, Seq<char>> {
    match a {
        CommitAction::DiscardStaged => cache,
        _ => cache.insert(key, source),
    }
}

/// The cache after fetching `source` under `key` with `policy`.
pub open spec fn fetch_into(
    cache: Map<Seq<char>, Seq<char>>,
    key: Seq<char>,
    source: Seq<char>,
    policy: SlotPolicy,
) -> Map<Seq<char>, Seq<char>> {
    cache_after(cache, key, source, commit_for(policy, cache.contains_key(key)))
}

/// Fetching two sources whose packages share a key keeps the first: the
/// second fetch leaves the cache as it was, and a slot that was empty before
/// holds the first source's copy.
pub proof fn lemma_first_fetch_wins(
    cache: Map<Seq<char>, Seq<char>>,
    key: Seq<char>,
    first: Seq<char>,
    second: Seq<char>,
)
    ensures
        fetch_into(
            fetch_into(cache, key, first, SlotPolicy::KeepExisting),
            key,
            second,
            SlotPolicy::KeepExisting,
        ) == fetch_into(cache, key, first, SlotPolicy::KeepExisting),
        !cache.contains_key(key) ==> fetch_into(cache, key, first, SlotPolicy::KeepExisting)[key]
            == first,
        cache.contains_key(key) ==> fetch_into(cache, key, first, SlotPolicy::KeepExisting)
            == cache,
{
}

/// Where a staged project goes: the dependency record to return, and its slot.
#[derive(Clone, Debug, PartialEq, Eq)]
pub struct FetchTarget {
    pub dependency: Dependency,
    pub slot: String,
}

/// Reads a staged project's identity and names the slot it belongs in. A
/// staged project without a package identity is refused.
pub fn fetch_target(staged: &Config, source: &str, cache_root: &str) -> (r: Result<
    FetchTarget,
    PdmError,
>)
    ensures
        match staged.package {
            None => r matches Err(PdmError::InvalidDependencyConfig),
            Some(p) => r matches Ok(t) && t.dependency@ == (DependencyView {
                name: strip_white_space(p.name@),
                version: p.version@,
                source: source@,
            }) && t.slot@ == slot_of(cache_root@, p.name@, p.version@),
        },
{
    let dependency = package_dependency(&staged.package, source)?;
    let slot = cache_slot(cache_root, &dependency);
    Ok(FetchTarget { dependency, slot })
}

/// Where a declared dependency is read from.
#[derive(Clone, Debug, PartialEq, Eq)]
pub enum Location {
    /// The source is a directory on this machine.
    Local(String),
    /// The dependency's cache slot.
    Cached(String),
    /// Neither exists: the source must be fetched first.
    Fetch,
}

/// Locates a declared dependency, given whether its source names an existing
/// path and whether its cache slot exists: the local path first, then the
/// cache, else a fetch.
pub fn locate(dep: &Dependency, source_exists: bool, slot_exists: bool, cache_root: &str) -> (r:
    Location)
    ensures
        source_exists ==> (r matches Location::Local(p) && p@ == dep.source@),
        !source_exists && slot_exists ==> (r matches Location::Cached(p) && p@ == slot_of(
            cache_root@,
            dep.name@,
            dep.version@,
        )),
        !source_exists && !slot_exists ==> r matches Location::Fetch,
{
    if source_exists {
        Location::Local(dep.source.clone())
    } else if slot_exists {
        Location::Cached(cache_slot(cache_root, dep))
    } else {
        Location::Fetch
    }
}

} // verus!
