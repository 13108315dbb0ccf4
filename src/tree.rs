//! The dependency tree shown to users: a depth-first walk of declared
//! dependencies with one visited set shared by the whole walk.

use vstd::prelude::*;
use vstd::set_lib::lemma_len_subset;

use crate::config::{
    declared_dependencies, dependency_list, deps_view, Config, ConfigView, Dependency,
    DependencyView,
};
use crate::error::{PdmError, PdmErrorView};
use crate::identity::{dep_key, dependency_key};
use crate::text::same_text;

verus! {

/// A labelled tree in mathematical form.
pub struct TreeView {
    pub label: Seq<char>,
    pub children: Seq<TreeView>,
}

/// A node of the dependency tree and the subtrees below it.
#[derive(Debug, PartialEq, Eq)]
pub struct DepTree {
    pub label: String,
    pub children: Vec<DepTree>,
}

impl View for DepTree {
    type V = TreeView;

    open spec fn view(&self) -> TreeView
        decreases self,
    {
        TreeView {
            label: self.label@,
            children: Seq::new(
                self.children@.len(),
                |i: int|
                    if 0 <= i < self.children@.len() {
                        self.children@[i]@
                    } else {
                        TreeView { label: Seq::empty(), children: Seq::empty() }
                    },
            ),
        }
    }
}

pub open spec fn trees_view(ts: Seq<DepTree>) -> Seq<TreeView> {
    ts.map_values(|t: DepTree| t@)
}

/// A loaded configuration as the walk reads it: its own key and its declared
/// dependencies in order.
pub struct NodeView {
    pub label: Seq<char>,
    pub deps: Seq<DependencyView>,
}

/// The node a configuration stands for. Only a configuration with a package
/// identity and readable declarations has one.
pub open spec fn config_node(c: ConfigView) -> Result<NodeView, PdmErrorView> {
    match c.package {
        None => Err(PdmErrorView::InvalidDependencyConfig),
        Some(p) => match declared_dependencies(c.dependencies) {
            Err(e) => Err(e),
            Ok(ds) => Ok(NodeView { label: dep_key(p.name, p.version), deps: ds }),
        },
    }
}

fn node_of_config(cfg: &Config) -> (r: Result<(String, Vec<Dependency>), PdmError>)
    ensures
        match config_node(cfg@) {
            Ok(n) => r matches Ok((l, ds)) && l@ == n.label && deps_view(ds@) == n.deps,
            Err(e) => r matches Err(err) && err@ == e,
        },
{
    match &cfg.package {
        None => Err(PdmError::InvalidDependencyConfig),
        Some(p) => {
            let deps = dependency_list(cfg)?;
            Ok((dependency_key(p.name.as_str(), p.version.as_str()), deps))
        },
    }
}

struct LoadedNode {
    key: String,
    label: String,
    deps: Vec<Dependency>,
}

impl LoadedNode {
    spec fn node(&self) -> NodeView {
        NodeView { label: self.label@, deps: deps_view(self.deps@) }
    }
}

spec fn nodes_map(s: Seq<LoadedNode>) -> Map<Seq<char>, NodeView>
    decreases s.len(),
{
    if s.len() == 0 {
        Map::empty()
    } else {
        nodes_map(s.drop_last()).insert(s.last().key@, s.last().node())
    }
}

proof fn lemma_nodes_map_finite(s: Seq<LoadedNode>)
    ensures
        nodes_map(s).dom().finite(),
    decreases s.len(),
{
    if s.len() > 0 {
        lemma_nodes_map_finite(s.drop_last());
    }
}

/// Entries after position `j` under other keys do not change what the map
/// holds under `k`.
proof fn lemma_nodes_map_prefix(s: Seq<LoadedNode>, j: int, k: Seq<char>)
    requires
        0 <= j <= s.len(),
        forall|x: int| j <= x < s.len() ==> (#[trigger] s[x]).key@ != k,
    ensures
        nodes_map(s).contains_key(k) == nodes_map(s.take(j)).contains_key(k),
        nodes_map(s).contains_key(k) ==> nodes_map(s)[k] == nodes_map(s.take(j))[k],
    decreases s.len(),
{
    if s.len() == j {
        assert(s.take(j) == s);
    } else {
        let t = s.drop_last();
        assert(t.take(j) == s.take(j));
        assert(s.last() == s[s.len() - 1]);
        lemma_nodes_map_prefix(t, j, k);
    }
}

/// Configurations loaded so far, by the key of the dependency that led to
/// each.
pub struct LoadedConfigs {
    nodes: Vec<LoadedNode>,
}

impl View for LoadedConfigs {
    type V = Map<Seq<char>, NodeView>;

    closed spec fn view(&self) -> Map<Seq<char>, NodeView> {
        nodes_map(self.nodes@)
    }
}

impl LoadedConfigs {
    /// An empty store.
    pub fn new() -> (r: LoadedConfigs)
        ensures
            r@ == Map::<Seq<char>, NodeView>::empty(),
    {
        LoadedConfigs { nodes: Vec::new() }
    }

    /// A store holds finitely many configurations.
    pub proof fn lemma_finite(&self)
        ensures
            self@.dom().finite(),
    {
        lemma_nodes_map_finite(self.nodes@);
    }

    /// Records the configuration loaded for `dep`, under `dep`'s key. A
    /// configuration with no node leaves the store as it was.
    pub fn insert(&mut self, dep: &Dependency, cfg: &Config) -> (r: Result<(), PdmError>)
        ensures
            match config_node(cfg@) {
                Ok(n) => r is Ok && final(self)@ == old(self)@.insert(
                    dep_key(dep.name@, dep.version@),
                    n,
                ),
                Err(e) => r matches Err(err) && err@ == e && final(self)@ == old(self)@,
            },
    {
        let (label, deps) = node_of_config(cfg)?;
        let key = dependency_key(dep.name.as_str(), dep.version.as_str());
        let ghost before = self.nodes@;
        self.nodes.push(LoadedNode { key, label, deps });
        assert(self.nodes@.drop_last() == before);
        Ok(())
    }

    /// The position of the configuration stored under `key`.
    fn lookup(&self, key: &str) -> (r: Option<usize>)
        ensures
            match r {
                Some(j) => j < self.nodes@.len() && self@.contains_key(key@)
                    && self.nodes@[j as int].node() == self@[key@],
                None => !self@.contains_key(key@),
            },
    {
        let mut j: usize = self.nodes.len();
        while j > 0
            invariant
                j <= self.nodes@.len(),
                forall|x: int| j <= x < self.nodes@.len() ==> (#[trigger] self.nodes@[x]).key@
                    != key@,
            decreases j,
        {
            if same_text(self.nodes[j - 1].key.as_str(), key) {
                proof {
                    let s = self.nodes@;
                    lemma_nodes_map_prefix(s, j as int, key@);
                    assert(s.take(j as int).drop_last() == s.take(j - 1));
                    assert(s.take(j as int).last() == s[j - 1]);
                }
                return Some(j - 1);
            }
            j = j - 1;
        }
        proof {
            lemma_nodes_map_prefix(self.nodes@, 0, key@);
        }
        None
    }
}

/// How far a walk over a list of declarations got: the subtrees and the keys
/// visited at its end, or the first dependency whose configuration is not
/// loaded yet.
pub enum Expansion {
    Done(Seq<TreeView>, Set<Seq<char>>),
    Missing(DependencyView),
}

/// The label of a dependency met again: its key and a star.
pub open spec fn repeat_label(key: Seq<char>) -> Seq<char> {
    key + " *"@
}

pub open spec fn repeat_leaf(key: Seq<char>) -> TreeView {
    TreeView { label: repeat_label(key), children: Seq::empty() }
}

/// Visiting one more stored key leaves fewer stored keys unvisited.
pub proof fn lemma_unvisited_shrinks(
    dom: Set<Seq<char>>,
    visited: Set<Seq<char>>,
    more: Set<Seq<char>>,
    k: Seq<char>,
)
    requires
        dom.finite(),
        dom.contains(k),
        !visited.contains(k),
        visited.insert(k).subset_of(more),
    ensures
        dom.difference(more).len() < dom.difference(visited).len(),
{
    let rest = dom.difference(visited);
    assert(dom.difference(more).subset_of(rest.remove(k)));
    lemma_len_subset(dom.difference(more), rest.remove(k));
}

/// The walk over `deps` from position `i`, with the keys in `visited` seen
/// before. A dependency whose key was seen is a leaf labelled with the
/// repeat marker; otherwise its key becomes visited and its stored
/// configuration is walked in turn. The visited set is shared by the whole
/// walk, not reset per branch. Every descent visits a stored key not visited
/// before, so the walk ends whatever cycles the declarations form.
pub open spec fn expand(
    store: Map<Seq<char>, NodeView>,
    deps: Seq<DependencyView>,
    i: int,
    visited: Set<Seq<char>>,
) -> Expansion
    decreases store.dom().difference(visited).len(), deps.len() - i,
    when store.dom().finite() && 0 <= i <= deps.len()
{
    if i >= deps.len() {
        Expansion::Done(Seq::empty(), visited)
    } else {
        let k = dep_key(deps[i].name, deps[i].version);
        if visited.contains(k) {
            match expand(store, deps, i + 1, visited) {
                Expansion::Done(ts, v) => Expansion::Done(seq![repeat_leaf(k)] + ts, v),
                Expansion::Missing(d) => Expansion::Missing(d),
            }
        } else if !store.contains_key(k) {
            Expansion::Missing(deps[i])
        } else {
            let seen = visited.insert(k);
            proof {
                lemma_unvisited_shrinks(store.dom(), visited, seen, k);
            }
            match expand(store, store[k].deps, 0, seen) {
                Expansion::Missing(d) => Expansion::Missing(d),
                Expansion::Done(cs, v) => {
                    proof {
                        lemma_unvisited_shrinks(store.dom(), visited, v.union(seen), k);
                    }
                    match expand(store, deps, i + 1, v.union(seen)) {
                        Expansion::Missing(d) => Expansion::Missing(d),
                        Expansion::Done(ts, w) => Expansion::Done(
                            seq![TreeView { label: store[k].label, children: cs }] + ts,
                            w,
                        ),
                    }
                },
            }
        }
    }
}

/// A walk only adds to the visited set.
proof fn lemma_expand_grows(
    store: Map<Seq<char>, NodeView>,
    deps: Seq<DependencyView>,
    i: int,
    visited: Set<Seq<char>>,
)
    requires
        store.dom().finite(),
        0 <= i <= deps.len(),
    ensures
        expand(store, deps, i, visited) matches Expansion::Done(_, v) ==> visited.subset_of(v),
    decreases store.dom().difference(visited).len(), deps.len() - i,
{
    if i < deps.len() {
        let k = dep_key(deps[i].name, deps[i].version);
        if visited.contains(k) {
            lemma_expand_grows(store, deps, i + 1, visited);
        } else if store.contains_key(k) {
            let seen = visited.insert(k);
            lemma_unvisited_shrinks(store.dom(), visited, seen, k);
            lemma_expand_grows(store, store[k].deps, 0, seen);
            if let Expansion::Done(cs, v) = expand(store, store[k].deps, 0, seen) {
                lemma_unvisited_shrinks(store.dom(), visited, v.union(seen), k);
                lemma_expand_grows(store, deps, i + 1, v.union(seen));
            }
        }
    }
}

/// A walk's result with `acc` placed before the subtrees it found.
pub open spec fn prepend(acc: Seq<TreeView>, e: Expansion) -> Expansion {
    match e {
        Expansion::Done(ts, v) => Expansion::Done(acc + ts, v),
        Expansion::Missing(d) => Expansion::Missing(d),
    }
}

/// The keys held in a list of strings.
pub open spec fn key_set(v: Seq<String>) -> Set<Seq<char>> {
    Set::new(|k: Seq<char>| exists|j: int| 0 <= j < v.len() && v[j]@ == k)
}

proof fn lemma_key_set_push(v: Seq<String>, s: String)
    ensures
        key_set(v.push(s)) == key_set(v).insert(s@),
{
    assert forall|k: Seq<char>| key_set(v.push(s)).contains(k) implies key_set(v).insert(
        s@,
    ).contains(k) by {
        let j = choose|j: int| 0 <= j < v.push(s).len() && v.push(s)[j]@ == k;
        if j < v.len() {
            assert(v[j] == v.push(s)[j]);
        }
    }
    assert forall|k: Seq<char>| key_set(v).insert(s@).contains(k) implies key_set(
        v.push(s),
    ).contains(k) by {
        if k == s@ {
            assert(v.push(s)[v.len() as int] == s);
        } else {
            let j = choose|j: int| 0 <= j < v.len() && v[j]@ == k;
            assert(v.push(s)[j] == v[j]);
        }
    }
    assert(key_set(v.push(s)) =~= key_set(v).insert(s@));
}

fn key_listed(visited: &Vec<String>, k: &str) -> (r: bool)
    ensures
        r == key_set(visited@).contains(k@),
{
    let mut j: usize = 0;
    while j < visited.len()
        invariant
            j <= visited@.len(),
            forall|x: int| 0 <= x < j ==> (#[trigger] visited@[x])@ != k@,
        decreases visited@.len() - j,
    {
        if same_text(visited[j].as_str(), k) {
            return true;
        }
        j = j + 1;
    }
    false
}

/// Walks `deps` in order, with the keys in `visited` seen before: the
/// subtrees and the keys visited at the end, or the first dependency whose
/// configuration the store lacks.
fn expand_deps(store: &LoadedConfigs, deps: &Vec<Dependency>, visited: Vec<String>) -> (r: (
    Result<Vec<DepTree>, Dependency>,
    Vec<String>,
))
    requires
        store@.dom().finite(),
    ensures
        match expand(store@, deps_view(deps@), 0, key_set(visited@)) {
            Expansion::Done(ts, v) => r.0 matches Ok(trees) && trees_view(trees@) == ts && key_set(
                r.1@,
            ) == v,
            Expansion::Missing(d) => r.0 matches Err(dep) && dep@ == d,
        },
    decreases store@.dom().difference(key_set(visited@)).len(),
{
    let ghost dv = deps_view(deps@);
    let ghost v0 = key_set(visited@);
    let mut walked = visited;
    let mut trees: Vec<DepTree> = Vec::new();
    assert(prepend(Seq::empty(), expand(store@, dv, 0, v0)) == expand(store@, dv, 0, v0)) by {
        if let Expansion::Done(ts, v) = expand(store@, dv, 0, v0) {
            assert(Seq::<TreeView>::empty() + ts == ts);
        }
    }
    assert(trees_view(trees@) == Seq::<TreeView>::empty());
    let mut i: usize = 0;
    while i < deps.len()
        invariant
            store@.dom().finite(),
            dv == deps_view(deps@),
            v0 == key_set(visited@),
            v0.subset_of(key_set(walked@)),
            i <= deps@.len(),
            expand(store@, dv, 0, v0) == prepend(
                trees_view(trees@),
                expand(store@, dv, i as int, key_set(walked@)),
            ),
        decreases deps@.len() - i,
    {
        let dep = &deps[i];
        let k = dependency_key(dep.name.as_str(), dep.version.as_str());
        let ghost vi = key_set(walked@);
        let ghost acc = trees_view(trees@);
        assert(dv[i as int] == dep@);
        if key_listed(&walked, k.as_str()) {
            let mut label = k.clone();
            label.append(" *");
            let leaf = DepTree { label, children: Vec::new() };
            assert(leaf@ == repeat_leaf(k@)) by {
                assert(leaf@.children =~= Seq::<TreeView>::empty());
            }
            trees.push(leaf);
            assert(trees_view(trees@) =~= acc.push(repeat_leaf(k@)));
            assert(prepend(acc, prepend(seq![repeat_leaf(k@)], expand(store@, dv, i + 1, vi)))
                == prepend(acc.push(repeat_leaf(k@)), expand(store@, dv, i + 1, vi))) by {
                if let Expansion::Done(ts, v) = expand(store@, dv, i + 1, vi) {
                    assert(acc + (seq![repeat_leaf(k@)] + ts) =~= acc.push(repeat_leaf(k@))
                        + ts);
                }
            }
        } else {
            match store.lookup(k.as_str()) {
                None => {
                    assert(expand(store@, dv, i as int, vi) == Expansion::Missing(dv[i as int]));
                    return (Err(dep.duplicate()), walked);
                },
                Some(j) => {
                    let node = &store.nodes[j];
                    let ghost seen = vi.insert(k@);
                    proof {
                        lemma_key_set_push(walked@, k);
                        lemma_unvisited_shrinks(store@.dom(), v0, seen, k@);
                    }
                    walked.push(k);
                    let (res, after) = expand_deps(store, &node.deps, walked);
                    walked = after;
                    match res {
                        Err(d) => {
                            return (Err(d), walked);
                        },
                        Ok(children) => {
                            let sub = DepTree { label: node.label.clone(), children };
                            let ghost cs = trees_view(sub.children@);
                            let ghost v = key_set(walked@);
                            assert(sub@.children =~= cs);
                            proof {
                                lemma_expand_grows(store@, store@[k@].deps, 0, seen);
                                assert(v.union(seen) =~= v);
                            }
                            let ghost t = TreeView { label: store@[k@].label, children: cs };
                            assert(sub@ == t);
                            trees.push(sub);
                            assert(trees_view(trees@) =~= acc.push(t));
                            assert(prepend(acc, prepend(seq![t], expand(store@, dv, i + 1, v)))
                                == prepend(acc.push(t), expand(store@, dv, i + 1, v))) by {
                                if let Expansion::Done(ts, w) = expand(store@, dv, i + 1, v) {
                                    assert(acc + (seq![t] + ts) =~= acc.push(t) + ts);
                                }
                            }
                        },
                    }
                },
            }
        }
        i = i + 1;
    }
    assert(expand(store@, dv, i as int, key_set(walked@)) == Expansion::Done(
        Seq::empty(),
        key_set(walked@),
    ));
    assert(trees_view(trees@) + Seq::<TreeView>::empty() == trees_view(trees@));
    (Ok(trees), walked)
}

/// One step of building the tree: the finished tree, or the dependency whose
/// configuration must be loaded before the walk can go further.
#[derive(Debug)]
pub enum TreeStep {
    Complete(DepTree),
    NeedConfig(Dependency),
}

pub enum TreeStepView {
    Complete(TreeView),
    NeedConfig(DependencyView),
}

impl View for TreeStep {
    type V = TreeStepView;

    open spec fn view(&self) -> TreeStepView {
        match self {
            TreeStep::Complete(t) => TreeStepView::Complete(t@),
            TreeStep::NeedConfig(d) => TreeStepView::NeedConfig(d@),
        }
    }
}

/// The tree rooted at `root` over the configurations in `store`, or the first
/// dependency, in walk order, whose configuration the store lacks. The root's
/// own key is not marked visited.
pub open spec fn tree_step(root: NodeView, store: Map<Seq<char>, NodeView>) -> TreeStepView {
    match expand(store, root.deps, 0, Set::empty()) {
        Expansion::Done(cs, _) => TreeStepView::Complete(TreeView { label: root.label, children: cs }),
        Expansion::Missing(d) => TreeStepView::NeedConfig(d),
    }
}

/// Builds the dependency tree of a project from the configurations loaded so
/// far. The caller loads the configuration of each dependency asked for,
/// adds it to the store and calls again; each call asks for a key the store
/// lacks, so the calls end.
pub fn get_dep_tree(cfg: &Config, store: &LoadedConfigs) -> (r: Result<TreeStep, PdmError>)
    ensures
        match config_node(cfg@) {
            Err(e) => r matches Err(err) && err@ == e,
            Ok(root) => r matches Ok(step) && step@ == tree_step(root, store@),
        },
        r matches Ok(TreeStep::NeedConfig(d)) ==> !store@.contains_key(
            dep_key(d.name@, d.version@),
        ),
{
    let (label, deps) = node_of_config(cfg)?;
    proof {
        store.lemma_finite();
    }
    let ghost empty = key_set(Seq::<String>::empty());
    assert(empty =~= Set::<Seq<char>>::empty());
    let (res, _) = expand_deps(store, &deps, Vec::new());
    match res {
        Ok(children) => {
            let tree = DepTree { label, children };
            assert(tree@.children =~= trees_view(tree.children@));
            Ok(TreeStep::Complete(tree))
        },
        Err(d) => {
            proof {
                lemma_missing_unstored(store@, deps_view(deps@), 0, Set::empty());
            }
            Ok(TreeStep::NeedConfig(d))
        },
    }
}

/// The dependency a walk stops at is one the store lacks.
proof fn lemma_missing_unstored(
    store: Map<Seq<char>, NodeView>,
    deps: Seq<DependencyView>,
    i: int,
    visited: Set<Seq<char>>,
)
    requires
        store.dom().finite(),
        0 <= i <= deps.len(),
    ensures
        expand(store, deps, i, visited) matches Expansion::Missing(d) ==> !store.contains_key(
            dep_key(d.name, d.version),
        ),
    decreases store.dom().difference(visited).len(), deps.len() - i,
{
    if i < deps.len() {
        let k = dep_key(deps[i].name, deps[i].version);
        if visited.contains(k) {
            lemma_missing_unstored(store, deps, i + 1, visited);
        } else if store.contains_key(k) {
            let seen = visited.insert(k);
            lemma_unvisited_shrinks(store.dom(), visited, seen, k);
            lemma_missing_unstored(store, store[k].deps, 0, seen);
            if let Expansion::Done(cs, v) = expand(store, store[k].deps, 0, seen) {
                lemma_unvisited_shrinks(store.dom(), visited, v.union(seen), k);
                lemma_missing_unstored(store, deps, i + 1, v.union(seen));
            }
        }
    }
}

/// However the declarations loop, a walk only visits stored keys, and no more
/// of them than the store holds beyond those already visited.
pub proof fn lemma_walk_bounded(
    store: Map<Seq<char>, NodeView>,
    deps: Seq<DependencyView>,
    i: int,
    visited: Set<Seq<char>>,
)
    requires
        store.dom().finite(),
        0 <= i <= deps.len(),
    ensures
        expand(store, deps, i, visited) matches Expansion::Done(_, v) ==> v.subset_of(
            visited.union(store.dom()),
        ) && v.difference(visited).len() <= store.dom().difference(visited).len(),
    decreases store.dom().difference(visited).len(), deps.len() - i,
{
    if i < deps.len() {
        let k = dep_key(deps[i].name, deps[i].version);
        if visited.contains(k) {
            lemma_walk_bounded(store, deps, i + 1, visited);
        } else if store.contains_key(k) {
            let seen = visited.insert(k);
            lemma_unvisited_shrinks(store.dom(), visited, seen, k);
            lemma_walk_bounded(store, store[k].deps, 0, seen);
            if let Expansion::Done(cs, v) = expand(store, store[k].deps, 0, seen) {
                lemma_unvisited_shrinks(store.dom(), visited, v.union(seen), k);
                lemma_walk_bounded(store, deps, i + 1, v.union(seen));
            }
        }
    }
    if let Expansion::Done(_, v) = expand(store, deps, i, visited) {
        assert(v.difference(visited).subset_of(store.dom().difference(visited)));
        lemma_len_subset(v.difference(visited), store.dom().difference(visited));
    }
}

/// A cycle is cut where it closes: when A declares B and B declares A again,
/// the walk from a project declaring A expands A and B once each and shows
/// the second A as a repeat leaf, then stops.
pub proof fn lemma_cycle_marked(
    store: Map<Seq<char>, NodeView>,
    root: NodeView,
    a: DependencyView,
    b: DependencyView,
)
    requires
        store.dom().finite(),
        root.deps == seq![a],
        dep_key(a.name, a.version) != dep_key(b.name, b.version),
        store.contains_key(dep_key(a.name, a.version)),
        store.contains_key(dep_key(b.name, b.version)),
        store[dep_key(a.name, a.version)].deps == seq![b],
        store[dep_key(b.name, b.version)].deps == seq![a],
    ensures
        tree_step(root, store) == TreeStepView::Complete(
            TreeView {
                label: root.label,
                children: seq![
                    TreeView {
                        label: store[dep_key(a.name, a.version)].label,
                        children: seq![
                            TreeView {
                                label: store[dep_key(b.name, b.version)].label,
                                children: seq![repeat_leaf(dep_key(a.name, a.version))],
                            },
                        ],
                    },
                ],
            },
        ),
{
    let ka = dep_key(a.name, a.version);
    let kb = dep_key(b.name, b.version);
    let sa = Set::<Seq<char>>::empty().insert(ka);
    let sab = sa.insert(kb);
    let da = store[ka].deps;
    let db = store[kb].deps;
    assert(expand(store, db, 1, sab) == Expansion::Done(Seq::empty(), sab));
    assert(expand(store, db, 0, sab) == Expansion::Done(seq![repeat_leaf(ka)], sab)) by {
        assert(seq![repeat_leaf(ka)] + Seq::<TreeView>::empty() == seq![repeat_leaf(ka)]);
    }
    assert(sab.union(sab) =~= sab);
    let tb = TreeView { label: store[kb].label, children: seq![repeat_leaf(ka)] };
    assert(expand(store, da, 1, sab) == Expansion::Done(Seq::empty(), sab));
    assert(expand(store, da, 0, sa) == Expansion::Done(seq![tb], sab)) by {
        assert(seq![tb] + Seq::<TreeView>::empty() == seq![tb]);
    }
    let ta = TreeView { label: store[ka].label, children: seq![tb] };
    assert(sab.union(sa) =~= sab);
    assert(expand(store, root.deps, 1, sab) == Expansion::Done(Seq::empty(), sab));
    assert(expand(store, root.deps, 0, Set::empty()) == Expansion::Done(seq![ta], sab)) by {
        assert(seq![ta] + Seq::<TreeView>::empty() == seq![ta]);
        assert(Set::<Seq<char>>::empty().insert(ka) == sa);
    }
}

/// In a diamond, where two top-level dependencies A and B both declare C, C
/// is expanded under A, the branch walked first, and shown as a repeat leaf
/// under B: the visited set is shared by the whole walk.
pub proof fn lemma_diamond(
    store: Map<Seq<char>, NodeView>,
    root: NodeView,
    a: DependencyView,
    b: DependencyView,
    c: DependencyView,
)
    requires
        store.dom().finite(),
        root.deps == seq![a, b],
        dep_key(a.name, a.version) != dep_key(b.name, b.version),
        dep_key(a.name, a.version) != dep_key(c.name, c.version),
        dep_key(b.name, b.version) != dep_key(c.name, c.version),
        store.contains_key(dep_key(a.name, a.version)),
        store.contains_key(dep_key(b.name, b.version)),
        store.contains_key(dep_key(c.name, c.version)),
        store[dep_key(a.name, a.version)].deps == seq![c],
        store[dep_key(b.name, b.version)].deps == seq![c],
        store[dep_key(c.name, c.version)].deps == Seq::<DependencyView>::empty(),
    ensures
        tree_step(root, store) == TreeStepView::Complete(
            TreeView {
                label: root.label,
                children: seq![
                    TreeView {
                        label: store[dep_key(a.name, a.version)].label,
                        children: seq![
                            TreeView {
                                label: store[dep_key(c.name, c.version)].label,
                                children: Seq::empty(),
                            },
                        ],
                    },
                    TreeView {
                        label: store[dep_key(b.name, b.version)].label,
                        children: seq![repeat_leaf(dep_key(c.name, c.version))],
                    },
                ],
            },
        ),
{
    let ka = dep_key(a.name, a.version);
    let kb = dep_key(b.name, b.version);
    let kc = dep_key(c.name, c.version);
    let sa = Set::<Seq<char>>::empty().insert(ka);
    let sac = sa.insert(kc);
    let sacb = sac.insert(kb);
    // C, first met under A, has nothing below it.
    assert(expand(store, store[kc].deps, 0, sac) == Expansion::Done(Seq::empty(), sac));
    assert(sac.union(sac) =~= sac);
    let tc = TreeView { label: store[kc].label, children: Seq::empty() };
    assert(expand(store, store[ka].deps, 1, sac) == Expansion::Done(Seq::empty(), sac));
    assert(expand(store, store[ka].deps, 0, sa) == Expansion::Done(seq![tc], sac)) by {
        assert(seq![tc] + Seq::<TreeView>::empty() == seq![tc]);
    }
    let ta = TreeView { label: store[ka].label, children: seq![tc] };
    // Under B, C is already visited.
    assert(expand(store, store[kb].deps, 1, sacb) == Expansion::Done(Seq::empty(), sacb));
    assert(expand(store, store[kb].deps, 0, sacb) == Expansion::Done(
        seq![repeat_leaf(kc)],
        sacb,
    )) by {
        assert(seq![repeat_leaf(kc)] + Seq::<TreeView>::empty() == seq![repeat_leaf(kc)]);
    }
    assert(sacb.union(sacb) =~= sacb);
    let tb = TreeView { label: store[kb].label, children: seq![repeat_leaf(kc)] };
    assert(expand(store, root.deps, 2, sacb) == Expansion::Done(Seq::empty(), sacb));
    assert(expand(store, root.deps, 1, sac) == Expansion::Done(seq![tb], sacb)) by {
        assert(seq![tb] + Seq::<TreeView>::empty() == seq![tb]);
    }
    assert(sac.union(sa) =~= sac);
    assert(expand(store, root.deps, 0, Set::empty()) == Expansion::Done(seq![ta, tb], sacb)) by {
        assert(seq![ta] + seq![tb] == seq![ta, tb]);
        assert(Set::<Seq<char>>::empty().insert(ka) == sa);
    }
}

} // verus!
