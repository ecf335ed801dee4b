//! The mod manifest data model: dependency references, mod metadata, the
//! dependency tree, and the mod-archive envelope.
//!
//! A dependency reference is written either as a compact `"guid:versionRange"`
//! string or as an explicit table; both normalize to the same
//! [`ModDependency`] shape. Metadata is well formed when its own version is a
//! semantic version and every dependency reference normalizes and carries a
//! parseable version requirement.

use vstd::prelude::*;

use crate::text::{find_char, find_char_str, join_strings, lemma_find_char, spec_join, str_eq};
use crate::versions::{semver_ok, semver_req_matches, semver_req_ok};
use crate::versions::{version_parses, version_req_matches, version_req_parses};

verus! {

/// Mathematical value of a normalized dependency.
pub ghost struct DepV {
    pub guid: Seq<char>,
    pub soft: bool,
    pub version: Seq<char>,
}

/// Mathematical value of a dependency reference as written in a manifest.
pub ghost enum DepRefV {
    Compact(Seq<char>),
    Table(DepV),
}

/// A normalized dependency on another mod: GUID, version requirement, and
/// whether the dependency is a load-order hint only (`soft`).
#[derive(Clone, Debug)]
pub struct ModDependency {
    pub guid: String,
    pub soft: bool,
    pub version: String,
}

impl View for ModDependency {
    type V = DepV;

    open spec fn view(&self) -> DepV {
        DepV { guid: self.guid@, soft: self.soft, version: self.version@ }
    }
}

impl DeepView for ModDependency {
    type V = DepV;

    open spec fn deep_view(&self) -> DepV {
        self.view()
    }
}

impl ModDependency {
    /// A copy of this dependency with the same value.
    pub fn dup(&self) -> (r: Self)
        ensures
            r == *self,
    {
        ModDependency { guid: self.guid.clone(), soft: self.soft, version: self.version.clone() }
    }
}

/// A dependency reference as it appears in a manifest: either the compact
/// `"guid:versionRange"` string, or the explicit table.
#[derive(Clone, Debug)]
pub enum ModDependencyEnum {
    ImplicitHard(String),
    DependTable(ModDependency),
}

impl View for ModDependencyEnum {
    type V = DepRefV;

    open spec fn view(&self) -> DepRefV {
        match self {
            ModDependencyEnum::ImplicitHard(s) => DepRefV::Compact(s@),
            ModDependencyEnum::DependTable(t) => DepRefV::Table(t@),
        }
    }
}

impl DeepView for ModDependencyEnum {
    type V = DepRefV;

    open spec fn deep_view(&self) -> DepRefV {
        self.view()
    }
}

impl ModDependencyEnum {
    /// A copy of this reference with the same value.
    pub fn dup(&self) -> (r: Self)
        ensures
            r == *self,
    {
        match self {
            ModDependencyEnum::ImplicitHard(s) => ModDependencyEnum::ImplicitHard(s.clone()),
            ModDependencyEnum::DependTable(t) => ModDependencyEnum::DependTable(t.dup()),
        }
    }
}

/// Whether a dependency reference normalizes: a compact reference must
/// contain a colon separating GUID from version range.
pub open spec fn dep_ref_wf(d: DepRefV) -> bool {
    match d {
        DepRefV::Compact(s) => find_char(s, ':') is Some,
        DepRefV::Table(_) => true,
    }
}

/// The normalized shape of a dependency reference: a compact reference splits
/// at its first colon into GUID and version range and is never soft.
pub open spec fn dep_ref_norm(d: DepRefV) -> DepV
    recommends
        dep_ref_wf(d),
{
    match d {
        DepRefV::Compact(s) => {
            let i = find_char(s, ':')->Some_0;
            DepV { guid: s.take(i), soft: false, version: s.skip(i + 1) }
        },
        DepRefV::Table(t) => t,
    }
}

/// Whether a dependency reference normalizes and its version range parses.
pub open spec fn dep_ref_ok(d: DepRefV) -> bool {
    dep_ref_wf(d) && semver_req_ok(dep_ref_norm(d).version)
}

/// Mathematical value of mod metadata.
#[verifier::ext_equal]
pub ghost struct MetaV {
    pub name: Seq<char>,
    pub guid: Seq<char>,
    pub author: Seq<char>,
    pub version: Seq<char>,
    pub depends: Seq<DepRefV>,
}

/// One mod's manifest metadata. The GUID identifies the mod across versions.
#[derive(Clone, Debug)]
pub struct ModMetaData {
    pub name: String,
    pub guid: String,
    pub author: String,
    pub version: String,
    pub depends: Vec<ModDependencyEnum>,
}

impl View for ModMetaData {
    type V = MetaV;

    open spec fn view(&self) -> MetaV {
        MetaV {
            name: self.name@,
            guid: self.guid@,
            author: self.author@,
            version: self.version@,
            depends: self.depends.deep_view(),
        }
    }
}

impl DeepView for ModMetaData {
    type V = MetaV;

    open spec fn deep_view(&self) -> MetaV {
        self.view()
    }
}

/// Whether metadata is semantically well formed: its version is a semantic
/// version and every dependency reference normalizes with a parseable range.
pub open spec fn meta_wf(m: MetaV) -> bool {
    &&& semver_ok(m.version)
    &&& forall|i: int| 0 <= i < m.depends.len() ==> dep_ref_ok(#[trigger] m.depends[i])
}

/// The `guid range` label of a normalized dependency.
pub open spec fn spec_dep_label(d: DepV) -> Seq<char> {
    d.guid + " "@ + d.version
}

/// The labels of the hard dependencies among `depends`, in order.
pub open spec fn spec_hard_labels(depends: Seq<DepRefV>) -> Seq<Seq<char>>
    decreases depends.len(),
{
    if depends.len() == 0 {
        Seq::empty()
    } else {
        spec_hard_labels(depends.drop_last()) + {
            let d = dep_ref_norm(depends.last());
            if !d.soft {
                seq![spec_dep_label(d)]
            } else {
                Seq::empty()
            }
        }
    }
}

/// The bracketed labels of the soft dependencies among `depends`, in order.
pub open spec fn spec_soft_labels(depends: Seq<DepRefV>) -> Seq<Seq<char>>
    decreases depends.len(),
{
    if depends.len() == 0 {
        Seq::empty()
    } else {
        spec_soft_labels(depends.drop_last()) + {
            let d = dep_ref_norm(depends.last());
            if d.soft {
                seq!["["@ + spec_dep_label(d) + "]"@]
            } else {
                Seq::empty()
            }
        }
    }
}

/// One display line for a dependency list: hard dependencies first, soft ones
/// bracketed after them, all comma-separated.
pub open spec fn spec_dependency_display(depends: Seq<DepRefV>) -> Seq<char> {
    let hard = spec_hard_labels(depends);
    let soft = spec_soft_labels(depends);
    if hard.len() > 0 && soft.len() > 0 {
        spec_join(hard, ", "@) + ", "@ + spec_join(soft, ", "@)
    } else {
        spec_join(hard, ", "@) + spec_join(soft, ", "@)
    }
}

/// Whether a mod with metadata `m` satisfies the normalized dependency `dep`.
pub open spec fn spec_matches_dependency(m: MetaV, dep: DepV) -> bool {
    dep.guid == m.guid && semver_req_matches(dep.version, m.version)
}

/// Whether some dependency reference of `m` is matched by `other`.
pub open spec fn spec_has_dependency(m: MetaV, other: MetaV) -> bool {
    exists|i: int|
        0 <= i < m.depends.len() && spec_matches_dependency(
            other,
            dep_ref_norm(#[trigger] m.depends[i]),
        )
}

impl ModMetaData {
    /// A copy of this metadata with the same mathematical value.
    pub fn dup(&self) -> (r: Self)
        ensures
            r@ == self@,
    {
        let mut depends: Vec<ModDependencyEnum> = Vec::new();
        let mut i: usize = 0;
        while i < self.depends.len()
            invariant
                0 <= i <= self.depends.len(),
                depends@.len() == i,
                forall|j: int| 0 <= j < i ==> depends@[j] == self.depends@[j],
            decreases self.depends.len() - i,
        {
            depends.push(self.depends[i].dup());
            i = i + 1;
        }
        let r = ModMetaData {
            name: self.name.clone(),
            guid: self.guid.clone(),
            author: self.author.clone(),
            version: self.version.clone(),
            depends,
        };
        proof {
            assert(r.depends@ =~= self.depends@);
            assert(r.depends.deep_view() =~= self.depends.deep_view());
            assert(r@ =~= self@);
        }
        r
    }

    /// Normalizes a dependency reference; fails when a compact reference has
    /// no colon.
    pub fn get_dependency(dep: &ModDependencyEnum) -> (r: Result<ModDependency, String>)
        ensures
            match r {
                Ok(d) => dep_ref_wf(dep@) && d@ == dep_ref_norm(dep@),
                Err(m) => !dep_ref_wf(dep@) && m@ == "No colon found in hard dependency string"@,
            },
    {
        match dep {
            ModDependencyEnum::ImplicitHard(s) => {
                match find_char_str(s.as_str(), ':') {
                    None => Err(String::from_str("No colon found in hard dependency string")),
                    Some(i) => {
                        proof {
                            lemma_find_char(s@, ':');
                        }
                        let n = s.as_str().unicode_len();
                        let guid = String::from_str(s.as_str().substring_char(0, i));
                        let version = String::from_str(s.as_str().substring_char(i + 1, n));
                        proof {
                            assert(guid@ =~= s@.take(i as int));
                            assert(version@ =~= s@.skip(i + 1));
                        }
                        Ok(ModDependency { guid, soft: false, version })
                    },
                }
            },
            ModDependencyEnum::DependTable(dt) => Ok(dt.dup()),
        }
    }

    /// Whether this mod declares any dependencies at all.
    pub fn has_dependencies(&self) -> (r: bool)
        ensures
            r == (self@.depends.len() > 0),
    {
        self.depends.len() > 0
    }

    /// Whether `mod_meta` satisfies the normalized dependency `dep`: the GUIDs
    /// agree and the version requirement admits `mod_meta`'s version.
    pub fn matches_dependency(&self, dep: &ModDependency) -> (r: bool)
        requires
            semver_ok(self@.version),
            semver_req_ok(dep@.version),
        ensures
            r == spec_matches_dependency(self@, dep@),
    {
        let guid_eq = str_eq(dep.guid.as_str(), self.guid.as_str());
        guid_eq && version_req_matches(dep.version.as_str(), self.version.as_str())
    }

    /// Whether some dependency reference of `self` is matched by `mod_meta`.
    pub fn has_dependency(&self, mod_meta: &ModMetaData) -> (r: bool)
        requires
            meta_wf(self@),
            semver_ok(mod_meta@.version),
        ensures
            r == spec_has_dependency(self@, mod_meta@),
    {
        let mut i: usize = 0;
        while i < self.depends.len()
            invariant
                meta_wf(self@),
                semver_ok(mod_meta@.version),
                0 <= i <= self@.depends.len(),
                forall|j: int|
                    0 <= j < i ==> !spec_matches_dependency(
                        mod_meta@,
                        dep_ref_norm(#[trigger] self@.depends[j]),
                    ),
            decreases self@.depends.len() - i,
        {
            proof {
                assert(self@.depends[i as int] == self.depends@[i as int]@);
                assert(dep_ref_ok(self@.depends[i as int]));
            }
            let dep = match Self::get_dependency(&self.depends[i]) {
                Ok(d) => d,
                Err(_) => {
                    proof {
                        assert(false);
                    }
                    return false;
                },
            };
            if mod_meta.matches_dependency(&dep) {
                return true;
            }
            i = i + 1;
        }
        false
    }

    /// One line describing this mod's dependencies: the hard dependencies as
    /// `guid range` first, then the soft ones bracketed, comma-separated.
    pub fn dependency_display(&self) -> (r: String)
        requires
            forall|i: int| 0 <= i < self@.depends.len() ==> dep_ref_wf(#[trigger] self@.depends[i]),
        ensures
            r@ == spec_dependency_display(self@.depends),
    {
        let ghost depsv = self@.depends;
        let mut hard_mods: Vec<String> = Vec::new();
        let mut soft_mods: Vec<String> = Vec::new();
        proof {
            assert(hard_mods.deep_view() =~= Seq::<Seq<char>>::empty());
            assert(soft_mods.deep_view() =~= Seq::<Seq<char>>::empty());
            assert(depsv.take(0) =~= Seq::<DepRefV>::empty());
        }
        let mut i: usize = 0;
        while i < self.depends.len()
            invariant
                forall|j: int| 0 <= j < depsv.len() ==> dep_ref_wf(#[trigger] depsv[j]),
                depsv == self@.depends,
                depsv.len() == self.depends.len(),
                0 <= i <= self.depends.len(),
                hard_mods.deep_view() == spec_hard_labels(depsv.take(i as int)),
                soft_mods.deep_view() == spec_soft_labels(depsv.take(i as int)),
            decreases self.depends.len() - i,
        {
            let ghost hard_before = hard_mods.deep_view();
            let ghost soft_before = soft_mods.deep_view();
            proof {
                assert(depsv.take(i as int + 1).drop_last() =~= depsv.take(i as int));
                assert(depsv.take(i as int + 1).last() == depsv[i as int]);
                assert(depsv[i as int] == self.depends@[i as int]@);
            }
            let dep = match Self::get_dependency(&self.depends[i]) {
                Ok(d) => d,
                Err(_) => {
                    proof {
                        assert(false);
                    }
                    return String::new();
                },
            };
            let mut label = dep.guid;
            label.append(" ");
            label.append(dep.version.as_str());
            if dep.soft {
                let mut bracketed = String::from_str("[");
                bracketed.append(label.as_str());
                bracketed.append("]");
                soft_mods.push(bracketed);
                proof {
                    assert(soft_mods.deep_view() =~= spec_soft_labels(depsv.take(i as int + 1)));
                    assert(hard_mods.deep_view() =~= spec_hard_labels(depsv.take(i as int + 1)));
                }
            } else {
                hard_mods.push(label);
                proof {
                    assert(hard_mods.deep_view() =~= spec_hard_labels(depsv.take(i as int + 1)));
                    assert(soft_mods.deep_view() =~= spec_soft_labels(depsv.take(i as int + 1)));
                }
            }
            i = i + 1;
        }
        proof {
            assert(depsv.take(depsv.len() as int) =~= depsv);
        }
        let mut out = join_strings(&hard_mods, ", ");
        if hard_mods.len() > 0 && soft_mods.len() > 0 {
            out.append(", ");
        }
        out.append(join_strings(&soft_mods, ", ").as_str());
        out
    }

    /// Checks that the version is a semantic version and that every
    /// dependency reference normalizes with a parseable version range;
    /// succeeds exactly on well-formed metadata.
    pub fn validate_semantics(&self) -> (r: Result<(), String>)
        ensures
            r is Ok <==> meta_wf(self@),
    {
        if !version_parses(self.version.as_str()) {
            return Err(String::from_str("Version is not cargo-like semantic"));
        }
        let mut i: usize = 0;
        while i < self.depends.len()
            invariant
                semver_ok(self@.version),
                0 <= i <= self@.depends.len(),
                forall|j: int| 0 <= j < i ==> dep_ref_ok(#[trigger] self@.depends[j]),
            decreases self@.depends.len() - i,
        {
            proof {
                assert(self@.depends[i as int] == self.depends@[i as int]@);
            }
            let dep = match Self::get_dependency(&self.depends[i]) {
                Ok(d) => d,
                Err(e) => {
                    return Err(e);
                },
            };
            if !version_req_parses(dep.version.as_str()) {
                let mut msg = String::from_str("Version of requirement ");
                msg.append(dep.guid.as_str());
                msg.append(" is not cargo-like semantic");
                return Err(msg);
            }
            i = i + 1;
        }
        Ok(())
    }
}

// ------------------------------------------------------------------
// Dependency trees
// ------------------------------------------------------------------

/// Mathematical value of a dependency-tree node. `deps` is `None` exactly for
/// a mod that declares no dependencies.
#[verifier::ext_equal]
pub ghost struct NodeV {
    pub guid: Seq<char>,
    pub version: Seq<char>,
    pub deps: Option<Seq<NodeV>>,
}

/// Mathematical value of a tree-building failure.
pub ghost enum TreeErrV {
    Missing(Seq<char>),
    Cyclic(Seq<char>),
}

/// Why a dependency tree could not be built: a hard dependency had no match
/// in the pool, or resolution ran into a dependency cycle. Each variant
/// carries the GUID concerned.
#[derive(Clone, Debug)]
pub enum TreeError {
    MissingDependency(String),
    CyclicDependency(String),
}

impl View for TreeError {
    type V = TreeErrV;

    open spec fn view(&self) -> TreeErrV {
        match self {
            TreeError::MissingDependency(g) => TreeErrV::Missing(g@),
            TreeError::CyclicDependency(g) => TreeErrV::Cyclic(g@),
        }
    }
}

/// A node of a resolved dependency tree. `deps` is `None` exactly for a mod
/// without dependencies, never for an unresolved one.
#[derive(Debug)]
pub struct DependencyNode {
    pub guid: String,
    pub version: String,
    pub deps: Option<Vec<DependencyNode>>,
}

/// Mathematical value of a dependency node, children included.
pub open spec fn node_view(n: DependencyNode) -> NodeV
    decreases n, 1int,
{
    NodeV {
        guid: n.guid@,
        version: n.version@,
        deps: match n.deps {
            None => None,
            Some(children) => {
                proof {
                    broadcast use vstd::std_specs::vec::axiom_vec_decreases_to_view;

                    assert(decreases_to!(n => n.deps));
                    assert(decreases_to!(n.deps => children));
                    assert(decreases_to!(children => children@));
                }
                Some(nodes_view(children@))
            },
        },
    }
}

/// Mathematical value of a sequence of dependency nodes.
pub open spec fn nodes_view(s: Seq<DependencyNode>) -> Seq<NodeV>
    decreases s, 0int,
{
    if s.len() == 0 {
        Seq::empty()
    } else {
        proof {
            broadcast use vstd::seq::axiom_seq_index_decreases;
            broadcast use vstd::seq::axiom_seq_subrange_decreases;

            assert(decreases_to!(s => s[0]));
            assert(s.drop_first() == s.subrange(1, s.len() as int));
            assert(decreases_to!(s => s.subrange(1, s.len() as int)));
        }
        seq![node_view(s[0])] + nodes_view(s.drop_first())
    }
}

/// Indexing into the mathematical value of a node sequence.
pub proof fn lemma_nodes_view(s: Seq<DependencyNode>)
    ensures
        nodes_view(s).len() == s.len(),
        forall|i: int| 0 <= i < s.len() ==> nodes_view(s)[i] == node_view(s[i]),
    decreases s.len(),
{
    if s.len() > 0 {
        lemma_nodes_view(s.drop_first());
        assert forall|i: int| 0 <= i < s.len() implies nodes_view(s)[i] == node_view(s[i]) by {
            if i > 0 {
                assert(nodes_view(s)[i] == nodes_view(s.drop_first())[i - 1]);
                assert(s.drop_first()[i - 1] == s[i]);
            }
        }
    }
}

/// Whether `guid` occurs at the root of `n` or anywhere below it.
pub open spec fn spec_in_tree(n: NodeV, guid: Seq<char>) -> bool
    decreases n,
    via spec_in_tree_decreases
{
    ||| n.guid == guid
    ||| match n.deps {
        None => false,
        Some(children) => exists|i: int|
            0 <= i < children.len() && spec_in_tree(#[trigger] children[i], guid),
    }
}

#[via_fn]
proof fn spec_in_tree_decreases(n: NodeV, guid: Seq<char>) {
    broadcast use vstd::seq::axiom_seq_index_decreases;

    match n.deps {
        None => {},
        Some(children) => {
            assert forall|i: int| 0 <= i < children.len() implies (decreases_to!(n
                => children[i])) by {
                assert(decreases_to!(n => n.deps));
                assert(decreases_to!(n.deps => children));
                assert(decreases_to!(children => children[i]));
            }
        },
    }
}

/// Whether every member of a candidate pool is well formed.
pub open spec fn pool_wf(pool: Seq<MetaV>) -> bool {
    forall|i: int| 0 <= i < pool.len() ==> meta_wf(#[trigger] pool[i])
}

/// Index of the first pool member that satisfies the dependency `dep`.
pub open spec fn find_match(pool: Seq<MetaV>, dep: DepV) -> Option<int>
    decreases pool.len(),
{
    if pool.len() == 0 {
        None
    } else if spec_matches_dependency(pool[0], dep) {
        Some(0)
    } else {
        match find_match(pool.drop_first(), dep) {
            None => None,
            Some(i) => Some(i + 1),
        }
    }
}

/// `find_match` is determined by any witness of a first match.
pub proof fn lemma_find_match_is(pool: Seq<MetaV>, dep: DepV, i: int)
    requires
        0 <= i < pool.len(),
        spec_matches_dependency(pool[i], dep),
        forall|j: int| 0 <= j < i ==> !spec_matches_dependency(#[trigger] pool[j], dep),
    ensures
        find_match(pool, dep) == Some(i),
    decreases pool.len(),
{
    if i > 0 {
        lemma_find_match_is(pool.drop_first(), dep, i - 1);
        assert forall|j: int| 0 <= j < i - 1 implies !spec_matches_dependency(
            #[trigger] pool.drop_first()[j],
            dep,
        ) by {
            assert(pool.drop_first()[j] == pool[j + 1]);
        }
    }
}

/// `find_match` returns `None` when no pool member matches.
pub proof fn lemma_find_match_none(pool: Seq<MetaV>, dep: DepV)
    requires
        forall|j: int| 0 <= j < pool.len() ==> !spec_matches_dependency(#[trigger] pool[j], dep),
    ensures
        find_match(pool, dep) == None::<int>,
    decreases pool.len(),
{
    if pool.len() > 0 {
        assert forall|j: int| 0 <= j < pool.len() - 1 implies !spec_matches_dependency(
            #[trigger] pool.drop_first()[j],
            dep,
        ) by {
            assert(pool.drop_first()[j] == pool[j + 1]);
        }
        lemma_find_match_none(pool.drop_first(), dep);
    }
}

/// What `find_match` returns, when it returns an index.
pub proof fn lemma_find_match(pool: Seq<MetaV>, dep: DepV)
    ensures
        match find_match(pool, dep) {
            Some(i) => 0 <= i < pool.len() && spec_matches_dependency(pool[i], dep),
            None => true,
        },
    decreases pool.len(),
{
    if pool.len() > 0 && !spec_matches_dependency(pool[0], dep) {
        lemma_find_match(pool.drop_first(), dep);
    }
}

/// The GUIDs present in a candidate pool.
pub open spec fn pool_guids(pool: Seq<MetaV>) -> Set<Seq<char>> {
    pool.map_values(|m: MetaV| m.guid).to_set()
}

/// Number of pool GUIDs not yet visited; the measure that shrinks while a
/// dependency tree is resolved.
pub open spec fn tree_measure(pool: Seq<MetaV>, visited: Set<Seq<char>>) -> nat {
    pool_guids(pool).difference(visited).len()
}

/// The set of strings in a singleton sequence.
pub proof fn lemma_singleton_to_set(x: Seq<char>)
    ensures
        seq![x].to_set() =~= Set::empty().insert(x),
{
    assert forall|a: Seq<char>| #[trigger] seq![x].to_set().contains(a) implies Set::empty().insert(
        x,
    ).contains(a) by {
        let i = choose|i: int| 0 <= i < seq![x].len() && seq![x][i] == a;
        assert(a == x);
    }
    assert forall|a: Seq<char>| Set::empty().insert(x).contains(a) implies seq![x].to_set().contains(
        a,
    ) by {
        assert(seq![x][0] == x);
        assert(seq![x].contains(x));
    }
}

/// Pushing a string onto a sequence inserts it into the sequence's set.
pub proof fn lemma_push_to_set(s: Seq<Seq<char>>, x: Seq<char>)
    ensures
        s.push(x).to_set() =~= s.to_set().insert(x),
{
    assert(s.push(x) =~= s + seq![x]);
    vstd::seq_lib::seq_to_set_distributes_over_add(s, seq![x]);
    lemma_singleton_to_set(x);
    assert(s.to_set() + seq![x].to_set() =~= s.to_set().insert(x));
}

/// Visiting a pool GUID that was not visited before strictly shrinks the
/// tree-resolution measure.
pub proof fn lemma_tree_measure_dec(pool: Seq<MetaV>, visited: Set<Seq<char>>, g: Seq<char>)
    requires
        pool_guids(pool).contains(g),
        !visited.contains(g),
    ensures
        tree_measure(pool, visited.insert(g)) < tree_measure(pool, visited),
{
    broadcast use vstd::seq_lib::seq_to_set_is_finite;
    broadcast use vstd::set::group_set_axioms;

    let pg = pool_guids(pool);
    let d0 = pg.difference(visited);
    let d1 = pg.difference(visited.insert(g));
    assert(pg.finite());
    assert(d0.finite());
    assert(d1 =~= d0.remove(g));
    assert(d0.contains(g));
    vstd::set::axiom_set_remove_len(d0, g);
}

/// The dependency tree of `m` against `pool`, with `visited` the GUIDs on the
/// current resolution path. Every non-soft dependency must resolve against
/// the pool; a soft dependency without a match is omitted. Resolution fails
/// on a missing hard dependency or on a dependency cycle.
pub open spec fn spec_dep_tree(m: MetaV, pool: Seq<MetaV>, visited: Set<Seq<char>>) -> Result<
    NodeV,
    TreeErrV,
>
    decreases tree_measure(pool, visited), 1int, 0int,
{
    if m.depends.len() == 0 {
        Ok(NodeV { guid: m.guid, version: m.version, deps: None })
    } else {
        match spec_dep_forest(m.depends, pool, visited) {
            Err(e) => Err(e),
            Ok(children) => Ok(NodeV { guid: m.guid, version: m.version, deps: Some(children) }),
        }
    }
}

/// The subtrees obtained by resolving each reference of `deps` in order.
pub open spec fn spec_dep_forest(
    deps: Seq<DepRefV>,
    pool: Seq<MetaV>,
    visited: Set<Seq<char>>,
) -> Result<Seq<NodeV>, TreeErrV>
    decreases tree_measure(pool, visited), 0int, deps.len(),
{
    if deps.len() == 0 {
        Ok(Seq::empty())
    } else {
        let dep = dep_ref_norm(deps[0]);
        match find_match(pool, dep) {
            None => if !dep.soft {
                Err(TreeErrV::Missing(dep.guid))
            } else {
                spec_dep_forest(deps.drop_first(), pool, visited)
            },
            Some(i) => {
                let p = pool[i];
                if visited.contains(p.guid) {
                    Err(TreeErrV::Cyclic(p.guid))
                } else {
                    proof {
                        lemma_find_match(pool, dep);
                        assert(pool.map_values(|m: MetaV| m.guid)[i] == p.guid);
                        assert(pool.map_values(|m: MetaV| m.guid).contains(p.guid));
                        lemma_tree_measure_dec(pool, visited, p.guid);
                    }
                    match spec_dep_tree(p, pool, visited.insert(p.guid)) {
                        Err(e) => Err(e),
                        Ok(n) => match spec_dep_forest(deps.drop_first(), pool, visited) {
                            Err(e) => Err(e),
                            Ok(rest) => Ok(seq![n] + rest),
                        },
                    }
                }
            },
        }
    }
}

/// Law: a dependency tree that builds always contains the GUID of the mod it
/// was built for, at its root.
pub proof fn lemma_dependency_tree_reflexive(m: MetaV, pool: Seq<MetaV>, visited: Set<Seq<char>>)
    ensures
        spec_dep_tree(m, pool, visited) matches Ok(n) ==> spec_in_tree(n, m.guid),
{
}

/// Mathematical value of a tree-building result.
pub open spec fn tree_result_view(r: Result<DependencyNode, TreeError>) -> Result<
    NodeV,
    TreeErrV,
> {
    match r {
        Ok(n) => Ok(node_view(n)),
        Err(e) => Err(e@),
    }
}

/// Mathematical value of a forest-building result.
pub open spec fn forest_result_view(r: Result<Vec<DependencyNode>, TreeError>) -> Result<
    Seq<NodeV>,
    TreeErrV,
> {
    match r {
        Ok(v) => Ok(nodes_view(v@)),
        Err(e) => Err(e@),
    }
}

/// Whether `v` holds a string whose characters are `s`.
pub fn vec_contains_string(v: &Vec<String>, s: &String) -> (r: bool)
    ensures
        r == v.deep_view().contains(s@),
{
    let mut i: usize = 0;
    while i < v.len()
        invariant
            0 <= i <= v.len(),
            forall|j: int| 0 <= j < i ==> v.deep_view()[j] != s@,
        decreases v.len() - i,
    {
        if str_eq(v[i].as_str(), s.as_str()) {
            proof {
                assert(v.deep_view()[i as int] == s@);
            }
            return true;
        }
        i = i + 1;
    }
    false
}

/// First pool member satisfying `dep`, scanning in order.
fn find_pool_match(pool: &Vec<ModMetaData>, dep: &ModDependency) -> (r: Option<usize>)
    requires
        pool_wf(pool.deep_view()),
        semver_req_ok(dep@.version),
    ensures
        match r {
            Some(i) => find_match(pool.deep_view(), dep@) == Some(i as int) && i < pool.len(),
            None => find_match(pool.deep_view(), dep@) == None::<int>,
        },
{
    let ghost poolv = pool.deep_view();
    let mut i: usize = 0;
    while i < pool.len()
        invariant
            pool_wf(poolv),
            semver_req_ok(dep@.version),
            poolv == pool.deep_view(),
            poolv.len() == pool.len(),
            0 <= i <= pool.len(),
            forall|j: int| 0 <= j < i ==> !spec_matches_dependency(#[trigger] poolv[j], dep@),
        decreases pool.len() - i,
    {
        proof {
            assert(poolv[i as int] == pool[i as int].deep_view());
            assert(meta_wf(poolv[i as int]));
        }
        if pool[i].matches_dependency(dep) {
            proof {
                lemma_find_match_is(poolv, dep@, i as int);
            }
            return Some(i);
        }
        i = i + 1;
    }
    proof {
        lemma_find_match_none(poolv, dep@);
    }
    None
}

/// Resolves the dependency tree of `m` against `pool`; `visited` holds the
/// GUIDs already on the resolution path.
fn dep_tree_rec(m: &ModMetaData, pool: &Vec<ModMetaData>, visited: &Vec<String>) -> (r: Result<
    DependencyNode,
    TreeError,
>)
    requires
        meta_wf(m@),
        pool_wf(pool.deep_view()),
    ensures
        tree_result_view(r) == spec_dep_tree(m@, pool.deep_view(), visited.deep_view().to_set()),
    decreases tree_measure(pool.deep_view(), visited.deep_view().to_set()), 1int, 0int,
{
    let ghost poolv = pool.deep_view();
    let ghost vset = visited.deep_view().to_set();
    let guid = m.guid.clone();
    let version = m.version.clone();
    if m.depends.len() == 0 {
        let n = DependencyNode { guid, version, deps: None };
        proof {
            assert(m@.depends.len() == 0);
            assert(spec_dep_tree(m@, poolv, vset) == Ok::<NodeV, TreeErrV>(
                NodeV { guid: m@.guid, version: m@.version, deps: None },
            ));
            assert(node_view(n) =~~= NodeV { guid: m@.guid, version: m@.version, deps: None });
        }
        return Ok(n);
    }
    proof {
        assert(m.depends.deep_view().skip(0) =~= m@.depends);
    }
    match dep_forest_rec(&m.depends, 0, pool, visited) {
        Err(e) => Err(e),
        Ok(children) => {
            let n = DependencyNode { guid, version, deps: Some(children) };
            proof {
                assert(spec_dep_forest(m@.depends, poolv, vset) == Ok::<Seq<NodeV>, TreeErrV>(
                    nodes_view(children@),
                ));
                assert(spec_dep_tree(m@, poolv, vset) == Ok::<NodeV, TreeErrV>(
                    NodeV { guid: m@.guid, version: m@.version, deps: Some(nodes_view(children@)) },
                ));
                assert(node_view(n) =~~= NodeV {
                    guid: m@.guid,
                    version: m@.version,
                    deps: Some(nodes_view(children@)),
                });
            }
            Ok(n)
        },
    }
}

/// Resolves, in order, the references `depends[k..]`.
fn dep_forest_rec(
    depends: &Vec<ModDependencyEnum>,
    k: usize,
    pool: &Vec<ModMetaData>,
    visited: &Vec<String>,
) -> (r: Result<Vec<DependencyNode>, TreeError>)
    requires
        k <= depends.len(),
        forall|j: int|
            0 <= j < depends.deep_view().len() ==> dep_ref_ok(#[trigger] depends.deep_view()[j]),
        pool_wf(pool.deep_view()),
    ensures
        forest_result_view(r) == spec_dep_forest(
            depends.deep_view().skip(k as int),
            pool.deep_view(),
            visited.deep_view().to_set(),
        ),
    decreases
            tree_measure(pool.deep_view(), visited.deep_view().to_set()),
            0int,
            depends.len() - k,
{
    let ghost depsv = depends.deep_view().skip(k as int);
    let ghost poolv = pool.deep_view();
    let ghost vset = visited.deep_view().to_set();
    if k == depends.len() {
        let r: Vec<DependencyNode> = Vec::new();
        proof {
            assert(depsv =~= Seq::<DepRefV>::empty());
            assert(nodes_view(r@) =~= Seq::<NodeV>::empty());
        }
        return Ok(r);
    }
    proof {
        assert(depsv[0] == depends.deep_view()[k as int]);
        assert(depsv.drop_first() =~= depends.deep_view().skip(k as int + 1));
    }
    let dep = match ModMetaData::get_dependency(&depends[k]) {
        Ok(d) => d,
        Err(_) => {
            proof {
                assert(dep_ref_ok(depends.deep_view()[k as int]));
                assert(false);
            }
            return Err(TreeError::MissingDependency(String::new()));
        },
    };
    match find_pool_match(pool, &dep) {
        None => {
            if !dep.soft {
                Err(TreeError::MissingDependency(dep.guid))
            } else {
                dep_forest_rec(depends, k + 1, pool, visited)
            }
        },
        Some(i) => {
            proof {
                lemma_find_match(poolv, dep@);
                assert(poolv[i as int] == pool[i as int].deep_view());
            }
            if vec_contains_string(visited, &pool[i].guid) {
                proof {
                    assert(vset.contains(pool[i as int]@.guid));
                }
                Err(TreeError::CyclicDependency(pool[i].guid.clone()))
            } else {
                let mut deeper: Vec<String> = visited.clone();
                proof {
                    assert(deeper@ =~= visited@);
                }
                deeper.push(pool[i].guid.clone());
                proof {
                    assert(deeper.deep_view() =~= visited.deep_view().push(pool[i as int]@.guid));
                    lemma_push_to_set(visited.deep_view(), pool[i as int]@.guid);
                    assert(deeper.deep_view().to_set() =~= vset.insert(pool[i as int]@.guid));
                    assert(poolv.map_values(|mm: MetaV| mm.guid)[i as int] == pool[i as int]@.guid);
                    assert(poolv.map_values(|mm: MetaV| mm.guid).contains(pool[i as int]@.guid));
                    lemma_tree_measure_dec(poolv, vset, pool[i as int]@.guid);
                }
                match dep_tree_rec(&pool[i], pool, &deeper) {
                    Err(e) => Err(e),
                    Ok(n) => {
                        match dep_forest_rec(depends, k + 1, pool, visited) {
                            Err(e) => Err(e),
                            Ok(mut rest) => {
                                let ghost rest0 = rest@;
                                rest.insert(0, n);
                                proof {
                                    assert(rest@[0] == n);
                                    assert(rest@.drop_first() =~= rest0);
                                }
                                Ok(rest)
                            },
                        }
                    },
                }
            }
        },
    }
}

impl ModMetaData {
    /// Builds the dependency tree of this mod against the candidate pool
    /// `mod_metas`, detecting dependency cycles.
    pub fn get_dependency_tree(&self, mod_metas: &Vec<ModMetaData>) -> (r: Result<
        DependencyNode,
        TreeError,
    >)
        requires
            meta_wf(self@),
            pool_wf(mod_metas.deep_view()),
        ensures
            tree_result_view(r) == spec_dep_tree(
                self@,
                mod_metas.deep_view(),
                Set::empty().insert(self@.guid),
            ),
    {
        let mut visited: Vec<String> = Vec::new();
        visited.push(self.guid.clone());
        proof {
            assert(visited.deep_view() =~= seq![self@.guid]);
            lemma_singleton_to_set(self@.guid);
            assert(visited.deep_view().to_set() =~= Set::empty().insert(self@.guid));
        }
        dep_tree_rec(self, mod_metas, &visited)
    }
}

/// Mathematical value of a discovered mod archive.
#[verifier::ext_equal]
pub ghost struct ModFileV {
    pub manifest: int,
    pub metadata: MetaV,
    pub filepath: Seq<char>,
    pub entries: Seq<Seq<char>>,
}

/// One discovered mod archive: its manifest format number, its metadata, the
/// path of the archive on disk, and the names of the archive's entries.
#[derive(Clone, Debug)]
pub struct ModFile {
    pub manifest: i32,
    pub metadata: ModMetaData,
    pub filepath: String,
    pub entries: Vec<String>,
}

impl View for ModFile {
    type V = ModFileV;

    open spec fn view(&self) -> ModFileV {
        ModFileV {
            manifest: self.manifest as int,
            metadata: self.metadata@,
            filepath: self.filepath@,
            entries: self.entries.deep_view(),
        }
    }
}

impl DeepView for ModFile {
    type V = ModFileV;

    open spec fn deep_view(&self) -> ModFileV {
        self.view()
    }
}

/// The metadata of each file in a discovered set.
pub open spec fn metas_of(files: Seq<ModFileV>) -> Seq<MetaV> {
    files.map_values(|f: ModFileV| f.metadata)
}

/// Whether every member of a discovered set carries well-formed metadata.
pub open spec fn files_wf(files: Seq<ModFileV>) -> bool {
    forall|i: int| 0 <= i < files.len() ==> meta_wf(#[trigger] files[i].metadata)
}

impl ModFile {
    /// A copy of this mod file with the same mathematical value.
    pub fn dup(&self) -> (r: Self)
        ensures
            r@ == self@,
    {
        let r = ModFile {
            manifest: self.manifest,
            metadata: self.metadata.dup(),
            filepath: self.filepath.clone(),
            entries: self.entries.clone(),
        };
        proof {
            assert(r.entries@ =~= self.entries@);
            assert(r.entries.deep_view() =~= self.entries.deep_view());
            assert(r@ =~= self@);
        }
        r
    }

    /// Builds this mod's dependency tree against the metadata of the given
    /// mod set, detecting dependency cycles.
    pub fn get_dependency_tree(&self, mod_files: &Vec<ModFile>) -> (r: Result<
        DependencyNode,
        TreeError,
    >)
        requires
            meta_wf(self@.metadata),
            files_wf(mod_files.deep_view()),
        ensures
            tree_result_view(r) == spec_dep_tree(
                self@.metadata,
                metas_of(mod_files.deep_view()),
                Set::empty().insert(self@.metadata.guid),
            ),
    {
        let mut mod_metas: Vec<ModMetaData> = Vec::new();
        let mut i: usize = 0;
        while i < mod_files.len()
            invariant
                files_wf(mod_files.deep_view()),
                0 <= i <= mod_files.len(),
                mod_metas.deep_view().len() == i,
                forall|j: int|
                    0 <= j < i ==> mod_metas.deep_view()[j] == mod_files.deep_view()[j].metadata,
            decreases mod_files.len() - i,
        {
            let ghost before = mod_metas.deep_view();
            let m = mod_files[i].metadata.dup();
            proof {
                assert(m@ == mod_files.deep_view()[i as int].metadata);
            }
            mod_metas.push(m);
            proof {
                assert forall|j: int| 0 <= j < i + 1 implies mod_metas.deep_view()[j]
                    == mod_files.deep_view()[j].metadata by {
                    if j < i {
                        assert(mod_metas@[j] == mod_metas@.drop_last()[j]);
                        assert(mod_metas.deep_view()[j] == before[j]);
                    }
                }
            }
            i = i + 1;
        }
        proof {
            assert(mod_metas.deep_view() =~= metas_of(mod_files.deep_view()));
        }
        self.metadata.get_dependency_tree(&mod_metas)
    }
}

impl DependencyNode {
    /// Depth-first membership test: whether `guid` is this node's GUID or any
    /// descendant's.
    pub fn in_dependency_tree(&self, guid: &String) -> (r: bool)
        ensures
            r == spec_in_tree(node_view(*self), guid@),
        decreases *self,
    {
        if str_eq(self.guid.as_str(), guid.as_str()) {
            return true;
        }
        match &self.deps {
            None => false,
            Some(children) => {
                let mut i: usize = 0;
                while i < children.len()
                    invariant
                        self.deps == Some(*children),
                        0 <= i <= children@.len(),
                        forall|j: int|
                            0 <= j < i ==> !spec_in_tree(node_view(children@[j]), guid@),
                    decreases children@.len() - i,
                {
                    proof {
                        broadcast use vstd::std_specs::vec::axiom_vec_decreases_to_view;
                        broadcast use vstd::seq::axiom_seq_index_decreases;

                        assert(decreases_to!(*self => self.deps));
                        assert(decreases_to!(self.deps => *children));
                        assert(decreases_to!(*children => children@));
                        assert(decreases_to!(children@ => children@[i as int]));
                    }
                    if children[i].in_dependency_tree(guid) {
                        proof {
                            lemma_nodes_view(children@);
                            assert(node_view(*self).deps->Some_0[i as int] == node_view(
                                children@[i as int],
                            ));
                        }
                        return true;
                    }
                    i = i + 1;
                }
                proof {
                    lemma_nodes_view(children@);
                    let deps_v = node_view(*self).deps->Some_0;
                    assert forall|j: int| 0 <= j < deps_v.len() implies !spec_in_tree(
                        #[trigger] deps_v[j],
                        guid@,
                    ) by {
                        assert(deps_v[j] == node_view(children@[j]));
                    }
                }
                false
            },
        }
    }
}

} // verus!
