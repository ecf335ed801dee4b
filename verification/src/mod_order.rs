//! Deterministic ordering of a validated mod set into an application chain.
//!
//! Mods are processed in selection order and inserted one at a time:
//! a new mod goes immediately before the first chain member that depends on
//! it; otherwise, a mod without dependencies goes to the front; otherwise it
//! goes immediately after the last chain member it depends on, or to the end
//! when none of its dependencies has been placed yet.

use vstd::multiset::Multiset;
use vstd::prelude::*;

use crate::mod_data::{files_wf, meta_wf, spec_has_dependency, ModFile, ModFileV};

verus! {

/// Index of the first chain member that depends on `m`.
pub open spec fn first_dependent(chain: Seq<ModFileV>, m: ModFileV) -> Option<int>
    decreases chain.len(),
{
    if chain.len() == 0 {
        None
    } else if spec_has_dependency(chain[0].metadata, m.metadata) {
        Some(0)
    } else {
        match first_dependent(chain.drop_first(), m) {
            None => None,
            Some(i) => Some(i + 1),
        }
    }
}

/// `first_dependent` is determined by any witness of a first dependent.
pub proof fn lemma_first_dependent_is(chain: Seq<ModFileV>, m: ModFileV, i: int)
    requires
        0 <= i < chain.len(),
        spec_has_dependency(chain[i].metadata, m.metadata),
        forall|j: int|
            0 <= j < i ==> !spec_has_dependency((#[trigger] chain[j]).metadata, m.metadata),
    ensures
        first_dependent(chain, m) == Some(i),
    decreases chain.len(),
{
    if i > 0 {
        lemma_first_dependent_is(chain.drop_first(), m, i - 1);
        assert forall|j: int| 0 <= j < i - 1 implies !spec_has_dependency(
            (#[trigger] chain.drop_first()[j]).metadata,
            m.metadata,
        ) by {
            assert(chain.drop_first()[j] == chain[j + 1]);
        }
    }
}

/// `first_dependent` returns `None` when no chain member depends on `m`.
pub proof fn lemma_first_dependent_none(chain: Seq<ModFileV>, m: ModFileV)
    requires
        forall|j: int|
            0 <= j < chain.len() ==> !spec_has_dependency(
                (#[trigger] chain[j]).metadata,
                m.metadata,
            ),
    ensures
        first_dependent(chain, m) == None::<int>,
    decreases chain.len(),
{
    if chain.len() > 0 {
        assert forall|j: int| 0 <= j < chain.len() - 1 implies !spec_has_dependency(
            (#[trigger] chain.drop_first()[j]).metadata,
            m.metadata,
        ) by {
            assert(chain.drop_first()[j] == chain[j + 1]);
        }
        lemma_first_dependent_none(chain.drop_first(), m);
    }
}

/// What `first_dependent` returns, when it returns an index.
pub proof fn lemma_first_dependent(chain: Seq<ModFileV>, m: ModFileV)
    ensures
        match first_dependent(chain, m) {
            Some(i) => 0 <= i < chain.len() && spec_has_dependency(chain[i].metadata, m.metadata),
            None => forall|j: int|
                0 <= j < chain.len() ==> !spec_has_dependency(
                    (#[trigger] chain[j]).metadata,
                    m.metadata,
                ),
        },
    decreases chain.len(),
{
    if chain.len() > 0 {
        lemma_first_dependent(chain.drop_first(), m);
        if !spec_has_dependency(chain[0].metadata, m.metadata) {
            assert forall|j: int| 0 < j < chain.len() implies chain.drop_first()[j - 1] == chain[j]
                by {}
        }
    }
}

/// Index of the last chain member that `m` depends on.
pub open spec fn last_dependency(chain: Seq<ModFileV>, m: ModFileV) -> Option<int>
    decreases chain.len(),
{
    if chain.len() == 0 {
        None
    } else if spec_has_dependency(m.metadata, chain.last().metadata) {
        Some(chain.len() - 1)
    } else {
        last_dependency(chain.drop_last(), m)
    }
}

/// What `last_dependency` returns: the highest index `m` depends on, or
/// `None` when it depends on no chain member.
pub proof fn lemma_last_dependency(chain: Seq<ModFileV>, m: ModFileV)
    ensures
        match last_dependency(chain, m) {
            Some(i) => 0 <= i < chain.len() && spec_has_dependency(m.metadata, chain[i].metadata)
                && (forall|j: int|
                i < j < chain.len() ==> !spec_has_dependency(
                    m.metadata,
                    (#[trigger] chain[j]).metadata,
                )),
            None => forall|j: int|
                0 <= j < chain.len() ==> !spec_has_dependency(
                    m.metadata,
                    (#[trigger] chain[j]).metadata,
                ),
        },
    decreases chain.len(),
{
    if chain.len() > 0 && !spec_has_dependency(m.metadata, chain.last().metadata) {
        lemma_last_dependency(chain.drop_last(), m);
        assert forall|j: int| 0 <= j < chain.len() - 1 implies chain.drop_last()[j] == chain[j]
            by {}
    }
}

/// Where the insertion rules place `m` in the chain.
pub open spec fn chain_insert(chain: Seq<ModFileV>, m: ModFileV) -> Seq<ModFileV> {
    if chain.len() == 0 {
        seq![m]
    } else {
        match first_dependent(chain, m) {
            Some(i) => chain.insert(i, m),
            None => if m.metadata.depends.len() == 0 {
                chain.insert(0, m)
            } else {
                match last_dependency(chain, m) {
                    None => chain.push(m),
                    Some(i) => chain.insert(i + 1, m),
                }
            },
        }
    }
}

/// The application chain of a selection, built by inserting each mod in
/// selection order.
pub open spec fn spec_build_chain(files: Seq<ModFileV>) -> Seq<ModFileV>
    decreases files.len(),
{
    if files.len() == 0 {
        Seq::empty()
    } else {
        chain_insert(spec_build_chain(files.drop_last()), files.last())
    }
}

/// Whether every chain member carries well-formed metadata.
pub open spec fn chain_wf(chain: Seq<ModFileV>) -> bool {
    forall|k: int| 0 <= k < chain.len() ==> meta_wf((#[trigger] chain[k]).metadata)
}

/// First chain member that depends on `m`, scanning in order.
fn find_first_dependent(chain: &Vec<ModFile>, m: &ModFile) -> (r: Option<usize>)
    requires
        chain_wf(chain.deep_view()),
        meta_wf(m@.metadata),
    ensures
        match r {
            Some(i) => first_dependent(chain.deep_view(), m@) == Some(i as int) && i < chain.len(),
            None => first_dependent(chain.deep_view(), m@) == None::<int>,
        },
{
    let ghost chainv = chain.deep_view();
    let mut c: usize = 0;
    while c < chain.len()
        invariant
            chain_wf(chainv),
            meta_wf(m@.metadata),
            chainv == chain.deep_view(),
            chainv.len() == chain.len(),
            0 <= c <= chain.len(),
            forall|j: int|
                0 <= j < c ==> !spec_has_dependency((#[trigger] chainv[j]).metadata, m@.metadata),
        decreases chain.len() - c,
    {
        proof {
            assert(chainv[c as int] == chain@[c as int]@);
        }
        let member = &chain[c];
        let depends_on_new = if !member.metadata.has_dependencies() {
            false
        } else {
            member.metadata.has_dependency(&m.metadata)
        };
        if depends_on_new {
            proof {
                lemma_first_dependent_is(chainv, m@, c as int);
            }
            return Some(c);
        }
        c = c + 1;
    }
    proof {
        lemma_first_dependent_none(chainv, m@);
    }
    None
}

/// Last chain member that `m` depends on, scanning from the end.
fn find_last_dependency(chain: &Vec<ModFile>, m: &ModFile) -> (r: Option<usize>)
    requires
        chain_wf(chain.deep_view()),
        meta_wf(m@.metadata),
    ensures
        match r {
            Some(i) => last_dependency(chain.deep_view(), m@) == Some(i as int) && i < chain.len(),
            None => last_dependency(chain.deep_view(), m@) == None::<int>,
        },
{
    let ghost chainv = chain.deep_view();
    proof {
        assert(chainv.take(chainv.len() as int) =~= chainv);
    }
    let mut c: usize = chain.len();
    while c > 0
        invariant
            chain_wf(chainv),
            meta_wf(m@.metadata),
            chainv == chain.deep_view(),
            chainv.len() == chain.len(),
            0 <= c <= chain.len(),
            last_dependency(chainv, m@) == last_dependency(chainv.take(c as int), m@),
        decreases c,
    {
        c = c - 1;
        proof {
            assert(chainv.take(c as int + 1).last() == chainv[c as int]);
            assert(chainv.take(c as int + 1).drop_last() =~= chainv.take(c as int));
            assert(chainv[c as int] == chain@[c as int]@);
        }
        if m.metadata.has_dependency(&chain[c].metadata) {
            return Some(c);
        }
    }
    proof {
        assert(chainv.take(0) =~= Seq::<ModFileV>::empty());
    }
    None
}

/// Arranges the selected mods into the chain in which they are applied. Every
/// mod of the selection appears in the chain exactly once.
pub fn build_mod_chain(active_mod_files: &Vec<ModFile>) -> (r: Vec<ModFile>)
    requires
        files_wf(active_mod_files.deep_view()),
    ensures
        r.deep_view() == spec_build_chain(active_mod_files.deep_view()),
{
    let ghost filesv = active_mod_files.deep_view();
    let mut chain: Vec<ModFile> = Vec::new();
    proof {
        assert(chain.deep_view() =~= Seq::<ModFileV>::empty());
        assert(filesv.take(0) =~= Seq::<ModFileV>::empty());
    }
    let mut i: usize = 0;
    while i < active_mod_files.len()
        invariant
            files_wf(filesv),
            filesv == active_mod_files.deep_view(),
            filesv.len() == active_mod_files.len(),
            0 <= i <= active_mod_files.len(),
            chain.deep_view() == spec_build_chain(filesv.take(i as int)),
            forall|k: int|
                0 <= k < chain.deep_view().len() ==> meta_wf(
                    (#[trigger] chain.deep_view()[k]).metadata,
                ),
        decreases active_mod_files.len() - i,
    {
        let ghost chainv = chain.deep_view();
        proof {
            assert(filesv.take(i as int + 1).drop_last() =~= filesv.take(i as int));
            assert(filesv.take(i as int + 1).last() == filesv[i as int]);
            assert(filesv[i as int] == active_mod_files@[i as int]@);
            assert(meta_wf(filesv[i as int].metadata));
        }
        let mod_file = active_mod_files[i].dup();

        if chain.len() == 0 {
            chain.push(mod_file);
            proof {
                assert(chain.deep_view() =~= seq![filesv[i as int]]);
            }
            i = i + 1;
            continue ;
        }

        // A chain member that depends on the new mod: insert before the first.
        match find_first_dependent(&chain, &mod_file) {
            Some(p) => {
                chain.insert(p, mod_file);
                proof {
                    assert(chain.deep_view() =~= chainv.insert(p as int, filesv[i as int]));
                }
                i = i + 1;
                continue ;
            },
            None => {},
        }

        // A mod without dependencies goes to the front.
        if !mod_file.metadata.has_dependencies() {
            chain.insert(0, mod_file);
            proof {
                assert(chain.deep_view() =~= chainv.insert(0, filesv[i as int]));
            }
            i = i + 1;
            continue ;
        }

        // Otherwise, immediately after the last chain member it depends on,
        // or at the end when none of its dependencies is in the chain yet.
        match find_last_dependency(&chain, &mod_file) {
            None => {
                chain.push(mod_file);
                proof {
                    assert(chain.deep_view() =~= chainv.push(filesv[i as int]));
                }
            },
            Some(p) => {
                chain.insert(p + 1, mod_file);
                proof {
                    assert(chain.deep_view() =~= chainv.insert(p as int + 1, filesv[i as int]));
                }
            },
        }
        i = i + 1;
    }
    proof {
        assert(filesv.take(filesv.len() as int) =~= filesv);
    }
    chain
}

// ------------------------------------------------------------------
// Ordering laws
// ------------------------------------------------------------------

/// Whether a sequence of mods respects dependencies: whenever one member
/// depends on another member, the dependency stands strictly earlier. In
/// particular no member depends on itself.
pub open spec fn respects_dependencies(files: Seq<ModFileV>) -> bool {
    forall|i: int, j: int|
        #![trigger files[i], files[j]]
        0 <= i < files.len() && 0 <= j < files.len() && spec_has_dependency(
            files[i].metadata,
            files[j].metadata,
        ) ==> j < i
}

/// Every member of an inserted chain is the new mod or an old member.
proof fn lemma_chain_insert_elems(chain: Seq<ModFileV>, m: ModFileV, x: ModFileV)
    requires
        chain_insert(chain, m).contains(x),
    ensures
        chain.contains(x) || x == m,
{
    let new = chain_insert(chain, m);
    let k = choose|k: int| 0 <= k < new.len() && new[k] == x;
    if chain.len() == 0 {
        assert(x == m);
    } else {
        match first_dependent(chain, m) {
            Some(i) => {
                lemma_first_dependent(chain, m);
                chain.insert_ensures(i, m);
                if k < i {
                    assert(chain[k] == x);
                } else if k == i {
                    assert(x == m);
                } else {
                    assert(new[(k - 1) + 1] == chain[k - 1]);
                }
            },
            None => {
                if m.metadata.depends.len() == 0 {
                    chain.insert_ensures(0, m);
                    if k == 0 {
                        assert(x == m);
                    } else {
                        assert(new[(k - 1) + 1] == chain[k - 1]);
                    }
                } else {
                    match last_dependency(chain, m) {
                        None => {
                            if k < chain.len() {
                                assert(chain[k] == x);
                            } else {
                                assert(x == m);
                            }
                        },
                        Some(i) => {
                            lemma_last_dependency(chain, m);
                            chain.insert_ensures(i + 1, m);
                            if k < i + 1 {
                                assert(chain[k] == x);
                            } else if k == i + 1 {
                                assert(x == m);
                            } else {
                                assert(new[(k - 1) + 1] == chain[k - 1]);
                            }
                        },
                    }
                }
            },
        }
    }
}

/// Every member of a built chain is a member of the selection.
proof fn lemma_build_chain_elems(files: Seq<ModFileV>, x: ModFileV)
    requires
        spec_build_chain(files).contains(x),
    ensures
        files.contains(x),
    decreases files.len(),
{
    if files.len() > 0 {
        lemma_chain_insert_elems(spec_build_chain(files.drop_last()), files.last(), x);
        if spec_build_chain(files.drop_last()).contains(x) {
            lemma_build_chain_elems(files.drop_last(), x);
            let i = choose|i: int| 0 <= i < files.drop_last().len() && files.drop_last()[i] == x;
            assert(files[i] == x);
        } else {
            assert(files[files.len() - 1] == x);
        }
    }
}

/// The chain holds exactly the mods of the selection, as a multiset.
pub proof fn lemma_build_chain_multiset(files: Seq<ModFileV>)
    ensures
        spec_build_chain(files).to_multiset() == files.to_multiset(),
    decreases files.len(),
{
    broadcast use vstd::seq_lib::to_multiset_insert;
    broadcast use vstd::seq_lib::group_to_multiset_ensures;

    if files.len() > 0 {
        let prefix = files.drop_last();
        let m = files.last();
        let chain = spec_build_chain(prefix);
        lemma_build_chain_multiset(prefix);
        assert(files =~= prefix.push(m));
        assert(files.to_multiset() == prefix.to_multiset().insert(m));
        if chain.len() == 0 {
            assert(seq![m] =~= Seq::<ModFileV>::empty().insert(0, m));
            assert(prefix.to_multiset().len() == 0);
            assert(prefix.to_multiset() =~= Multiset::<ModFileV>::empty());
            assert(Seq::<ModFileV>::empty().to_multiset() =~= Multiset::<ModFileV>::empty());
        } else {
            match first_dependent(chain, m) {
                Some(i) => {
                    lemma_first_dependent(chain, m);
                },
                None => {
                    if m.metadata.depends.len() == 0 {
                    } else {
                        match last_dependency(chain, m) {
                            None => {
                                assert(chain.push(m) =~= chain.insert(chain.len() as int, m));
                            },
                            Some(i) => {
                                lemma_last_dependency(chain, m);
                            },
                        }
                    }
                },
            }
        }
    }
}

/// Inserting a mod that nothing in the chain depends on, and that does not
/// depend on itself, keeps the chain dependency-respecting.
proof fn lemma_chain_insert_respects(chain: Seq<ModFileV>, m: ModFileV)
    requires
        respects_dependencies(chain),
        forall|k: int|
            0 <= k < chain.len() ==> !spec_has_dependency(
                (#[trigger] chain[k]).metadata,
                m.metadata,
            ),
        !spec_has_dependency(m.metadata, m.metadata),
    ensures
        respects_dependencies(chain_insert(chain, m)),
{
    let new = chain_insert(chain, m);
    if chain.len() == 0 {
        assert forall|a: int, b: int|
            #![trigger new[a], new[b]]
            0 <= a < new.len() && 0 <= b < new.len() && spec_has_dependency(
                new[a].metadata,
                new[b].metadata,
            ) implies b < a by {
            assert(new[a] == m);
            assert(new[b] == m);
        }
        return ;
    }
    match first_dependent(chain, m) {
        Some(i) => {
            lemma_first_dependent(chain, m);
            assert(false);
        },
        None => {
            let pos: int = if m.metadata.depends.len() == 0 {
                0
            } else {
                match last_dependency(chain, m) {
                    None => chain.len() as int,
                    Some(i) => i + 1,
                }
            };
            if m.metadata.depends.len() > 0 && last_dependency(chain, m) is None {
                assert(chain.push(m) =~= chain.insert(chain.len() as int, m));
            }
            lemma_last_dependency(chain, m);
            assert(new == chain.insert(pos, m));
            chain.insert_ensures(pos, m);
            assert forall|a: int, b: int|
                #![trigger new[a], new[b]]
                0 <= a < new.len() && 0 <= b < new.len() && spec_has_dependency(
                    new[a].metadata,
                    new[b].metadata,
                ) implies b < a by {
                if a == pos && b == pos {
                    // m does not depend on itself
                } else if a == pos {
                    // m depends on new[b]: every dependency of m stands at or
                    // before the insertion point
                    if b > pos {
                        assert(new[(b - 1) + 1] == chain[b - 1]);
                        if m.metadata.depends.len() == 0 {
                            assert(!spec_has_dependency(m.metadata, chain[b - 1].metadata));
                        } else {
                            match last_dependency(chain, m) {
                                None => {
                                    assert(!spec_has_dependency(m.metadata, chain[b - 1].metadata));
                                },
                                Some(i) => {
                                    assert(b - 1 > i);
                                    assert(!spec_has_dependency(m.metadata, chain[b - 1].metadata));
                                },
                            }
                        }
                    }
                } else if b == pos {
                    // a chain member would depend on m, which nothing does
                    if a < pos {
                        assert(new[a] == chain[a]);
                    } else {
                        assert(new[(a - 1) + 1] == chain[a - 1]);
                    }
                    assert(false);
                } else {
                    // both are old members: the old order already places them
                    let fa: int = if a < pos {
                        a
                    } else {
                        a - 1
                    };
                    let fb: int = if b < pos {
                        b
                    } else {
                        b - 1
                    };
                    if a < pos {
                        assert(new[a] == chain[a]);
                    } else {
                        assert(new[(a - 1) + 1] == chain[a - 1]);
                    }
                    if b < pos {
                        assert(new[b] == chain[b]);
                    } else {
                        assert(new[(b - 1) + 1] == chain[b - 1]);
                    }
                    assert(spec_has_dependency(chain[fa].metadata, chain[fb].metadata));
                    assert(fb < fa);
                }
            }
        },
    }
}

/// Law: the chain places every mod after all of its dependencies, hard and
/// soft, whenever the selection itself already lists every mod after its
/// dependencies. The orderer preserves that order; on a selection in which a
/// mod stands before one of its dependencies, the insertion rules themselves
/// give no such guarantee.
pub proof fn lemma_build_chain_respects(files: Seq<ModFileV>)
    requires
        respects_dependencies(files),
    ensures
        respects_dependencies(spec_build_chain(files)),
    decreases files.len(),
{
    if files.len() > 0 {
        let prefix = files.drop_last();
        let m = files.last();
        assert forall|i: int, j: int|
            #![trigger prefix[i], prefix[j]]
            0 <= i < prefix.len() && 0 <= j < prefix.len() && spec_has_dependency(
                prefix[i].metadata,
                prefix[j].metadata,
            ) implies j < i by {
            assert(files[i] == prefix[i]);
            assert(files[j] == prefix[j]);
        }
        lemma_build_chain_respects(prefix);
        let chain = spec_build_chain(prefix);
        assert forall|k: int| 0 <= k < chain.len() implies !spec_has_dependency(
            (#[trigger] chain[k]).metadata,
            m.metadata,
        ) by {
            if spec_has_dependency(chain[k].metadata, m.metadata) {
                assert(chain.contains(chain[k]));
                lemma_build_chain_elems(prefix, chain[k]);
                let i = choose|i: int| 0 <= i < prefix.len() && prefix[i] == chain[k];
                assert(files[i] == chain[k]);
                assert(files[files.len() - 1] == m);
                assert(files.len() - 1 < i);
            }
        }
        assert(!spec_has_dependency(m.metadata, m.metadata)) by {
            assert(files[files.len() - 1] == m);
        }
        lemma_chain_insert_respects(chain, m);
    }
}

} // verus!
