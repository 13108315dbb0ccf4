//! Refreshing cached dependencies whose source is a remote URL.

use vstd::prelude::*;

use crate::cache::{cache_slot, slot_of};
use crate::config::{declared_dependencies, dependency_list, deps_view, Config, Dependency, DependencyView};
use crate::error::{PdmError, PdmErrorView};

verus! {

/// A source locator read as a URL: its serialised text and whether it names
/// a host.
#[derive(Clone, Debug, PartialEq, Eq)]
pub struct SourceUrl {
    pub text: String,
    pub has_host: bool,
}

/// The serialised text of the URL that `s` parses to, and whether that URL
/// has a host; nothing when `s` is not a URL.
pub uninterp spec fn parsed_url(s: Seq<char>) -> Option<(Seq<char>, bool)>;

/// The error of `url::Url::parse`, held opaquely.
#[verifier::external_type_specification]
#[verifier::external_body]
pub struct ExUrlParseError(url::ParseError);

/// Relies on `url::Url::parse`, a function of its input; the parsed URL is
/// kept as its text and `Url::has_host`.
#[verifier::external_body]
fn parse_source_url(s: &str) -> (r: Result<SourceUrl, url::ParseError>)
    ensures
        match r {
            Ok(u) => parsed_url(s@) == Some((u.text@, u.has_host)),
            Err(_) => parsed_url(s@) is None,
        },
{
    url::Url::parse(s).map(|u| SourceUrl { text: u.to_string(), has_host: u.has_host() })
}

/// A refresh to perform: clone `url` and swap the copy into `slot`.
#[derive(Clone, Debug, PartialEq, Eq)]
pub struct UpdateTarget {
    pub url: String,
    pub slot: String,
}

/// What a refresh does for one dependency, given how its source parsed: a
/// source that is not a URL is an error, a URL without a host is a local
/// source and is skipped, and a URL with a host is cloned into the
/// dependency's slot.
pub open spec fn update_for(
    d: DependencyView,
    parsed: Option<(Seq<char>, bool)>,
    cache_root: Seq<char>,
) -> Result<Option<(Seq<char>, Seq<char>)>, PdmErrorView> {
    match parsed {
        None => Err(PdmErrorView::InvalidSourceUrl { source: d.source }),
        Some((text, host)) => if host {
            Ok(Some((text, slot_of(cache_root, d.name, d.version))))
        } else {
            Ok(None)
        },
    }
}

/// Decides the refresh of one dependency from the parsed form of its source.
pub fn update_target(dep: &Dependency, url: Option<&SourceUrl>, cache_root: &str) -> (r: Result<
    Option<UpdateTarget>,
    PdmError,
>)
    ensures
        match update_for(
            dep@,
            match url {
                Some(u) => Some((u.text@, u.has_host)),
                None => None,
            },
            cache_root@,
        ) {
            Err(e) => r matches Err(err) && err@ == e,
            Ok(None) => r matches Ok(None),
            Ok(Some((text, slot))) => r matches Ok(Some(t)) && t.url@ == text && t.slot@ == slot,
        },
{
    match url {
        None => Err(PdmError::InvalidSourceUrl { source: dep.source.clone() }),
        Some(u) => {
            if u.has_host {
                Ok(Some(UpdateTarget { url: u.text.clone(), slot: cache_slot(cache_root, dep) }))
            } else {
                Ok(None)
            }
        },
    }
}

pub open spec fn targets_view(v: Seq<UpdateTarget>) -> Seq<(Seq<char>, Seq<char>)> {
    v.map_values(|t: UpdateTarget| (t.url@, t.slot@))
}

/// The refreshes for a list of dependencies, in order, or the first error.
pub open spec fn updates_for(deps: Seq<DependencyView>, cache_root: Seq<char>) -> Result<
    Seq<(Seq<char>, Seq<char>)>,
    PdmErrorView,
>
    decreases deps.len(),
{
    if deps.len() == 0 {
        Ok(Seq::empty())
    } else {
        match updates_for(deps.drop_last(), cache_root) {
            Err(e) => Err(e),
            Ok(ts) => match update_for(deps.last(), parsed_url(deps.last().source), cache_root) {
                Err(e) => Err(e),
                Ok(None) => Ok(ts),
                Ok(Some(t)) => Ok(ts.push(t)),
            },
        }
    }
}

/// Lists the refreshes that an update performs: each declared dependency
/// whose source is a URL with a host is cloned again into its slot.
pub fn update_targets(cfg: &Config, cache_root: &str) -> (r: Result<Vec<UpdateTarget>, PdmError>)
    ensures
        match declared_dependencies(cfg@.dependencies) {
            Err(e) => r matches Err(err) && err@ == e,
            Ok(ds) => match updates_for(ds, cache_root@) {
                Err(e) => r matches Err(err) && err@ == e,
                Ok(ts) => r matches Ok(v) && targets_view(v@) == ts,
            },
        },
{
    let deps = dependency_list(cfg)?;
    let ghost ds = deps_view(deps@);
    let mut out: Vec<UpdateTarget> = Vec::new();
    let mut i: usize = 0;
    assert(ds.take(0) == Seq::<DependencyView>::empty());
    assert(targets_view(out@) == Seq::<(Seq<char>, Seq<char>)>::empty());
    while i < deps.len()
        invariant
            declared_dependencies(cfg@.dependencies) == Ok::<Seq<DependencyView>, PdmErrorView>(ds),
            ds == deps_view(deps@),
            i <= deps@.len(),
            updates_for(ds.take(i as int), cache_root@) == Ok::<
                Seq<(Seq<char>, Seq<char>)>,
                PdmErrorView,
            >(targets_view(out@)),
        decreases deps@.len() - i,
    {
        let dep = &deps[i];
        assert(ds.take(i + 1).drop_last() == ds.take(i as int));
        assert(ds.take(i + 1).last() == dep@);
        let parsed = parse_source_url(dep.source.as_str());
        let step = match &parsed {
            Ok(u) => update_target(dep, Some(u), cache_root),
            Err(_) => update_target(dep, None, cache_root),
        };
        match step {
            Err(e) => {
                proof {
                    lemma_updates_prefix_error(ds, cache_root@, i + 1);
                }
                return Err(e);
            },
            Ok(None) => {},
            Ok(Some(t)) => {
                let ghost prev = out@;
                out.push(t);
                assert(targets_view(out@) =~= targets_view(prev).push((t.url@, t.slot@)));
            },
        }
        i = i + 1;
    }
    assert(ds.take(i as int) == ds);
    Ok(out)
}

proof fn lemma_updates_prefix_error(deps: Seq<DependencyView>, cache_root: Seq<char>, n: int)
    requires
        0 <= n <= deps.len(),
        updates_for(deps.take(n), cache_root) is Err,
    ensures
        updates_for(deps, cache_root) == updates_for(deps.take(n), cache_root),
    decreases deps.len() - n,
{
    if n < deps.len() {
        assert(deps.take(n + 1).drop_last() == deps.take(n));
        lemma_updates_prefix_error(deps, cache_root, n + 1);
    } else {
        assert(deps.take(n) == deps);
    }
}

} // verus!
