//! Validation of a selected mod set: security of each archive's payload,
//! satisfaction of hard dependencies, file conflicts between mods, and the
//! naming of delta-patch entries.
//!
//! Checks run per mod in selection order. A security or patch-naming
//! violation aborts validation at once; unsatisfied dependencies accumulate
//! across all mods so the user sees every missing dependency at once; a file
//! conflict aborts as soon as one unresolved conflict is found.

use vstd::prelude::*;

use crate::mod_data::{dep_ref_norm, dep_ref_ok, spec_dep_label, spec_matches_dependency};
use crate::mod_data::{DepRefV, DepV, MetaV};
use crate::mod_data::{files_wf, metas_of, meta_wf, ModFile, ModFileV, ModMetaData};
use crate::mod_data::{spec_dep_tree, spec_in_tree, vec_contains_string, ModDependency};
use crate::mod_data::ModDependencyEnum;
use crate::text::{ends_with, ends_with_str, join_strings, spec_join, str_eq};

verus! {

/// Mathematical value of a validation verdict.
pub ghost enum VerdictV {
    Passed,
    Insecure(Seq<char>, Seq<char>),
    FailedDeps(Seq<Seq<char>>, Seq<Seq<char>>),
    Conflict(Seq<char>, Seq<Seq<char>>, Seq<Seq<char>>),
    BadPatchNames(Seq<char>, Seq<Seq<char>>),
}

/// The verdict of validating a selected mod set.
///
/// - `ModsOk`: every check passed.
/// - `ModInsecurity(guid, message)`: a mod ships a disallowed payload.
/// - `FailedDependency(missing, blamed)`: hard dependencies left unmatched,
///   with the mods that required them.
/// - `FileConflict(guid, mods, files)`: two mods ship the same file and
///   neither depends on the other.
/// - `InvalidPatchNames(guid, files)`: delta-patch entries under the wrong
///   name.
#[derive(Clone, Debug)]
pub enum ModCheckResult {
    ModsOk(),
    ModInsecurity(String, String),
    FailedDependency(Vec<String>, Vec<String>),
    FileConflict(String, Vec<String>, Vec<String>),
    InvalidPatchNames(String, Vec<String>),
}

impl View for ModCheckResult {
    type V = VerdictV;

    open spec fn view(&self) -> VerdictV {
        match self {
            ModCheckResult::ModsOk() => VerdictV::Passed,
            ModCheckResult::ModInsecurity(g, m) => VerdictV::Insecure(g@, m@),
            ModCheckResult::FailedDependency(d, b) => VerdictV::FailedDeps(
                d.deep_view(),
                b.deep_view(),
            ),
            ModCheckResult::FileConflict(g, ms, fs) => VerdictV::Conflict(
                g@,
                ms.deep_view(),
                fs.deep_view(),
            ),
            ModCheckResult::InvalidPatchNames(g, fs) => VerdictV::BadPatchNames(g@, fs.deep_view()),
        }
    }
}

/// The user-facing message of a verdict. A conflict over the delta-patch
/// entry itself means the mods carry incompatible patches.
pub open spec fn spec_verdict_message(v: VerdictV) -> Seq<char> {
    match v {
        VerdictV::Passed => Seq::empty(),
        VerdictV::Insecure(guid, m) => "Mod security failure: "@ + m + "\nCaused by: "@ + guid,
        VerdictV::FailedDeps(missing, blame) => "Missing dependencies: "@ + spec_join(
            missing,
            ", "@,
        ) + "\nRequired by: "@ + spec_join(blame, ", "@),
        VerdictV::Conflict(guid, mods, files) => "Mod "@ + guid + " is incompatible with "@
            + spec_join(mods, ", "@) + "\n"@ + (if files.contains("patch.xdelta"@) {
            "Incompatible patches"@
        } else {
            "Conflicting files: "@ + spec_join(files, ", "@)
        }),
        VerdictV::BadPatchNames(guid, files) => "Mod "@ + guid
            + " has patches not named patch.xdelta\n"@ + spec_join(files, ", "@),
    }
}

impl ModCheckResult {
    /// The message shown to the user for this verdict; empty when every check
    /// passed.
    pub fn describe(&self) -> (r: String)
        ensures
            r@ == spec_verdict_message(self@),
    {
        match self {
            ModCheckResult::ModsOk() => String::new(),
            ModCheckResult::ModInsecurity(guid, e_msg) => {
                let mut msg = String::from_str("Mod security failure: ");
                msg.append(e_msg.as_str());
                msg.append("\nCaused by: ");
                msg.append(guid.as_str());
                msg
            },
            ModCheckResult::FailedDependency(missing, blame) => {
                let mut msg = String::from_str("Missing dependencies: ");
                msg.append(join_strings(missing, ", ").as_str());
                msg.append("\nRequired by: ");
                msg.append(join_strings(blame, ", ").as_str());
                msg
            },
            ModCheckResult::FileConflict(guid, mods, files) => {
                let mut msg = String::from_str("Mod ");
                msg.append(guid.as_str());
                msg.append(" is incompatible with ");
                msg.append(join_strings(mods, ", ").as_str());
                msg.append("\n");
                let patch_name = String::from_str("patch.xdelta");
                if vec_contains_string(files, &patch_name) {
                    msg.append("Incompatible patches");
                } else {
                    msg.append("Conflicting files: ");
                    msg.append(join_strings(files, ", ").as_str());
                }
                msg
            },
            ModCheckResult::InvalidPatchNames(guid, files) => {
                let mut msg = String::from_str("Mod ");
                msg.append(guid.as_str());
                msg.append(" has patches not named patch.xdelta\n");
                msg.append(join_strings(files, ", ").as_str());
                msg
            },
        }
    }
}

// ------------------------------------------------------------------
// Security
// ------------------------------------------------------------------

/// Whether an archive entry is a disallowed payload: an executable or
/// library, or a direct override of the tracked binary asset.
pub open spec fn insecure_entry(e: Seq<char>) -> bool {
    ends_with(e, ".exe"@) || ends_with(e, ".dll"@) || e == "data.win"@
}

/// The verdict of scanning entries in order for a disallowed payload.
pub open spec fn spec_check_security(entries: Seq<Seq<char>>) -> Result<(), Seq<char>>
    decreases entries.len(),
{
    if entries.len() == 0 {
        Ok(())
    } else if ends_with(entries[0], ".exe"@) || ends_with(entries[0], ".dll"@) {
        Err("DISALLOWED FILE "@ + entries[0] + ", REPORT IMMEDIATELY"@)
    } else if entries[0] == "data.win"@ {
        Err("data.win is not allowed to be overridden"@)
    } else {
        spec_check_security(entries.drop_first())
    }
}

/// The security scan succeeds exactly when no entry is a disallowed payload.
pub proof fn lemma_check_security_ok(entries: Seq<Seq<char>>)
    ensures
        spec_check_security(entries) is Ok <==> (forall|i: int|
            0 <= i < entries.len() ==> !insecure_entry(#[trigger] entries[i])),
    decreases entries.len(),
{
    if entries.len() > 0 {
        lemma_check_security_ok(entries.drop_first());
        if !insecure_entry(entries[0]) {
            assert forall|i: int| 0 < i < entries.len() implies entries.drop_first()[i - 1]
                == entries[i] by {}
        }
    }
}

/// Scans the entry names of one mod archive for executables, libraries, or a
/// direct override of the tracked binary asset; fails on the first offender.
pub fn check_mod_security(entries: &Vec<String>) -> (r: Result<(), String>)
    ensures
        match r {
            Ok(()) => spec_check_security(entries.deep_view()) is Ok,
            Err(m) => spec_check_security(entries.deep_view()) == Err::<(), Seq<char>>(m@),
        },
{
    let ghost ev = entries.deep_view();
    proof {
        assert(ev.skip(0) =~= ev);
    }
    let mut i: usize = 0;
    while i < entries.len()
        invariant
            ev == entries.deep_view(),
            ev.len() == entries.len(),
            0 <= i <= entries.len(),
            spec_check_security(ev) == spec_check_security(ev.skip(i as int)),
        decreases entries.len() - i,
    {
        proof {
            assert(ev.skip(i as int)[0] == ev[i as int]);
            assert(ev.skip(i as int).drop_first() =~= ev.skip(i as int + 1));
            assert(ev[i as int] == entries@[i as int]@);
        }
        let entry = &entries[i];
        if ends_with_str(entry.as_str(), ".exe") || ends_with_str(entry.as_str(), ".dll") {
            let mut msg = String::from_str("DISALLOWED FILE ");
            msg.append(entry.as_str());
            msg.append(", REPORT IMMEDIATELY");
            return Err(msg);
        }
        if str_eq(entry.as_str(), "data.win") {
            return Err(String::from_str("data.win is not allowed to be overridden"));
        }
        i = i + 1;
    }
    proof {
        assert(ev.skip(i as int) =~= Seq::<Seq<char>>::empty());
    }
    Ok(())
}

// ------------------------------------------------------------------
// Patch naming
// ------------------------------------------------------------------

/// Whether an entry carries the delta-patch extension under the wrong name.
pub open spec fn bad_patch_entry(e: Seq<char>) -> bool {
    ends_with(e, ".xdelta"@) && e != "patch.xdelta"@
}

/// The misnamed patch entries, in order of appearance.
pub open spec fn spec_bad_patches(entries: Seq<Seq<char>>) -> Seq<Seq<char>>
    decreases entries.len(),
{
    if entries.len() == 0 {
        Seq::empty()
    } else {
        spec_bad_patches(entries.drop_last()) + (if bad_patch_entry(entries.last()) {
            seq![entries.last()]
        } else {
            Seq::empty()
        })
    }
}

/// Collects the entries that end in the patch extension but are not the
/// single recognized patch filename; fails when any exist.
pub fn check_patch_validity(entries: &Vec<String>) -> (r: Result<(), Vec<String>>)
    ensures
        match r {
            Ok(()) => spec_bad_patches(entries.deep_view()).len() == 0,
            Err(bad) => bad.deep_view() == spec_bad_patches(entries.deep_view()) && bad@.len() > 0,
        },
{
    let ghost ev = entries.deep_view();
    let mut bad: Vec<String> = Vec::new();
    let mut i: usize = 0;
    while i < entries.len()
        invariant
            ev == entries.deep_view(),
            ev.len() == entries.len(),
            0 <= i <= entries.len(),
            bad.deep_view() == spec_bad_patches(ev.take(i as int)),
        decreases entries.len() - i,
    {
        let ghost before = bad.deep_view();
        proof {
            assert(ev.take(i as int + 1).drop_last() =~= ev.take(i as int));
            assert(ev.take(i as int + 1).last() == ev[i as int]);
            assert(ev[i as int] == entries@[i as int]@);
        }
        let entry = &entries[i];
        if ends_with_str(entry.as_str(), ".xdelta") && !str_eq(entry.as_str(), "patch.xdelta") {
            bad.push(entry.clone());
            proof {
                assert(bad.deep_view() =~= before.push(ev[i as int]));
                assert(bad.deep_view() =~= spec_bad_patches(ev.take(i as int + 1)));
            }
        } else {
            proof {
                assert(bad.deep_view() =~= spec_bad_patches(ev.take(i as int + 1)));
            }
        }
        i = i + 1;
    }
    proof {
        assert(ev.take(ev.len() as int) =~= ev);
    }
    if bad.len() > 0 {
        Err(bad)
    } else {
        Ok(())
    }
}

// ------------------------------------------------------------------
// Dependency satisfaction
// ------------------------------------------------------------------

/// Whether some selected mod satisfies the normalized dependency `dep`.
pub open spec fn spec_dep_satisfied(selection: Seq<MetaV>, dep: DepV) -> bool {
    exists|i: int|
        0 <= i < selection.len() && spec_matches_dependency(#[trigger] selection[i], dep)
}

/// Labels of the non-soft dependencies among `deps` that no selected mod
/// satisfies, in order of appearance.
pub open spec fn spec_missing_deps(selection: Seq<MetaV>, deps: Seq<DepRefV>) -> Seq<Seq<char>>
    decreases deps.len(),
{
    if deps.len() == 0 {
        Seq::empty()
    } else {
        spec_missing_deps(selection, deps.drop_last()) + {
            let d = dep_ref_norm(deps.last());
            if !d.soft && !spec_dep_satisfied(selection, d) {
                seq![spec_dep_label(d)]
            } else {
                Seq::empty()
            }
        }
    }
}

/// Whether some mod of the selection satisfies `dep`.
fn selection_satisfies(active_mod_files: &Vec<ModFile>, dep: &ModDependency) -> (r: bool)
    requires
        files_wf(active_mod_files.deep_view()),
        crate::versions::semver_req_ok(dep@.version),
    ensures
        r == spec_dep_satisfied(metas_of(active_mod_files.deep_view()), dep@),
{
    let ghost sel = metas_of(active_mod_files.deep_view());
    let mut i: usize = 0;
    while i < active_mod_files.len()
        invariant
            files_wf(active_mod_files.deep_view()),
            crate::versions::semver_req_ok(dep@.version),
            sel == metas_of(active_mod_files.deep_view()),
            sel.len() == active_mod_files.len(),
            0 <= i <= active_mod_files.len(),
            forall|j: int| 0 <= j < i ==> !spec_matches_dependency(#[trigger] sel[j], dep@),
        decreases active_mod_files.len() - i,
    {
        proof {
            assert(sel[i as int] == active_mod_files.deep_view()[i as int].metadata);
        }
        if active_mod_files[i].metadata.matches_dependency(dep) {
            return true;
        }
        i = i + 1;
    }
    false
}

/// Resolves each of `mod_depends` against the selection; collects, in order,
/// a label for every non-soft dependency that no selected mod satisfies.
pub fn check_mod_dependencies(
    active_mod_files: &Vec<ModFile>,
    mod_depends: &Vec<ModDependencyEnum>,
) -> (r: Result<(), Vec<String>>)
    requires
        files_wf(active_mod_files.deep_view()),
        forall|j: int|
            0 <= j < mod_depends.deep_view().len() ==> dep_ref_ok(
                #[trigger] mod_depends.deep_view()[j],
            ),
    ensures
        match r {
            Ok(()) => spec_missing_deps(
                metas_of(active_mod_files.deep_view()),
                mod_depends.deep_view(),
            ).len() == 0,
            Err(v) => v.deep_view() == spec_missing_deps(
                metas_of(active_mod_files.deep_view()),
                mod_depends.deep_view(),
            ) && v@.len() > 0,
        },
{
    let ghost sel = metas_of(active_mod_files.deep_view());
    let ghost depsv = mod_depends.deep_view();
    let mut missing: Vec<String> = Vec::new();
    let mut i: usize = 0;
    while i < mod_depends.len()
        invariant
            files_wf(active_mod_files.deep_view()),
            forall|j: int| 0 <= j < depsv.len() ==> dep_ref_ok(#[trigger] depsv[j]),
            sel == metas_of(active_mod_files.deep_view()),
            depsv == mod_depends.deep_view(),
            depsv.len() == mod_depends.len(),
            0 <= i <= mod_depends.len(),
            missing.deep_view() == spec_missing_deps(sel, depsv.take(i as int)),
        decreases mod_depends.len() - i,
    {
        let ghost before = missing.deep_view();
        proof {
            assert(depsv.take(i as int + 1).drop_last() =~= depsv.take(i as int));
            assert(depsv.take(i as int + 1).last() == depsv[i as int]);
            assert(dep_ref_ok(depsv[i as int]));
        }
        let dep = match ModMetaData::get_dependency(&mod_depends[i]) {
            Ok(d) => d,
            Err(_) => {
                proof {
                    assert(false);
                }
                return Ok(());
            },
        };
        if !dep.soft {
            if !selection_satisfies(active_mod_files, &dep) {
                let mut label = dep.guid;
                label.append(" ");
                label.append(dep.version.as_str());
                missing.push(label);
                proof {
                    assert(missing.deep_view() =~= before.push(spec_dep_label(dep_ref_norm(
                        depsv[i as int],
                    ))));
                    assert(missing.deep_view() =~= spec_missing_deps(
                        sel,
                        depsv.take(i as int + 1),
                    ));
                }
            } else {
                proof {
                    assert(missing.deep_view() =~= spec_missing_deps(
                        sel,
                        depsv.take(i as int + 1),
                    ));
                }
            }
        } else {
            proof {
                assert(missing.deep_view() =~= spec_missing_deps(sel, depsv.take(i as int + 1)));
            }
        }
        i = i + 1;
    }
    proof {
        assert(depsv.take(depsv.len() as int) =~= depsv);
    }
    if missing.len() > 0 {
        Err(missing)
    } else {
        Ok(())
    }
}

// ------------------------------------------------------------------
// File conflicts
// ------------------------------------------------------------------

/// Mathematical value of a file claim.
#[verifier::ext_equal]
pub ghost struct ClaimV {
    pub file: Seq<char>,
    pub owner: int,
}

/// A file shipped by an already-checked mod: the file's archive-relative name
/// and the index of the owning mod in the selection.
#[derive(Clone, Debug)]
pub struct FileClaim {
    pub file: String,
    pub owner: usize,
}

impl View for FileClaim {
    type V = ClaimV;

    open spec fn view(&self) -> ClaimV {
        ClaimV { file: self.file@, owner: self.owner as int }
    }
}

impl DeepView for FileClaim {
    type V = ClaimV;

    open spec fn deep_view(&self) -> ClaimV {
        self.view()
    }
}

/// The owner of `file` among `claims`; the latest claim wins, as a later mod
/// that legitimately overrides a file becomes the file's owner.
pub open spec fn claim_lookup(claims: Seq<ClaimV>, file: Seq<char>) -> Option<int>
    decreases claims.len(),
{
    if claims.len() == 0 {
        None
    } else if claims.last().file == file {
        Some(claims.last().owner)
    } else {
        claim_lookup(claims.drop_last(), file)
    }
}

/// Whether every claim's owner is an index into a selection of length `n`.
pub open spec fn claims_in_range(claims: Seq<ClaimV>, n: int) -> bool {
    forall|i: int| 0 <= i < claims.len() ==> 0 <= (#[trigger] claims[i]).owner < n
}

/// A found claim's owner lies in range.
pub proof fn lemma_claim_lookup_range(claims: Seq<ClaimV>, file: Seq<char>, n: int)
    requires
        claims_in_range(claims, n),
    ensures
        claim_lookup(claims, file) matches Some(o) ==> 0 <= o < n,
    decreases claims.len(),
{
    if claims.len() > 0 && claims.last().file != file {
        lemma_claim_lookup_range(claims.drop_last(), file, n);
    }
}

/// Owner of `file` among `claims`, scanning latest claims first.
fn claim_lookup_exec(claims: &Vec<FileClaim>, file: &String) -> (r: Option<usize>)
    ensures
        match r {
            Some(o) => claim_lookup(claims.deep_view(), file@) == Some(o as int),
            None => claim_lookup(claims.deep_view(), file@) == None::<int>,
        },
{
    let ghost cv = claims.deep_view();
    proof {
        assert(cv.take(cv.len() as int) =~= cv);
    }
    let mut i: usize = claims.len();
    while i > 0
        invariant
            cv == claims.deep_view(),
            cv.len() == claims.len(),
            0 <= i <= claims.len(),
            claim_lookup(cv, file@) == claim_lookup(cv.take(i as int), file@),
        decreases i,
    {
        i = i - 1;
        proof {
            assert(cv.take(i as int + 1).last() == cv[i as int]);
            assert(cv.take(i as int + 1).drop_last() =~= cv.take(i as int));
        }
        if str_eq(claims[i].file.as_str(), file.as_str()) {
            return Some(claims[i].owner);
        }
    }
    None
}

/// Whether the dependency tree of `a`, built against the whole selection,
/// contains the GUID `g`. A tree that cannot be built contains nothing.
pub open spec fn spec_ancestry(files: Seq<ModFileV>, a: MetaV, g: Seq<char>) -> bool {
    match spec_dep_tree(a, metas_of(files), Set::empty().insert(a.guid)) {
        Ok(n) => spec_in_tree(n, g),
        Err(_) => false,
    }
}

/// Whether a conflict between mods `a` and `b` is excused: one of the two
/// depends, possibly transitively, on the other, and is assumed to override
/// it deliberately.
pub open spec fn conflict_excused(files: Seq<ModFileV>, a: MetaV, b: MetaV) -> bool {
    spec_ancestry(files, a, b.guid) || spec_ancestry(files, b, a.guid)
}

/// The entries of `m` that an earlier-checked mod also ships, without the
/// conflict being excused by ancestry, in order of appearance.
pub open spec fn spec_unresolved_conflicts(
    files: Seq<ModFileV>,
    claims: Seq<ClaimV>,
    m: ModFileV,
    entries: Seq<Seq<char>>,
) -> Seq<Seq<char>>
    decreases entries.len(),
{
    if entries.len() == 0 {
        Seq::empty()
    } else {
        spec_unresolved_conflicts(files, claims, m, entries.drop_last()) + {
            let e = entries.last();
            match claim_lookup(claims, e) {
                Some(o) => if !conflict_excused(files, m.metadata, files[o].metadata) {
                    seq![e]
                } else {
                    Seq::empty()
                },
                None => Seq::empty(),
            }
        }
    }
}

/// Appends `x` unless already present.
pub open spec fn dedup_push(s: Seq<Seq<char>>, x: Seq<char>) -> Seq<Seq<char>> {
    if s.contains(x) {
        s
    } else {
        s.push(x)
    }
}

/// The GUIDs of the mods owning the given unresolved-conflict entries, each
/// GUID once, in order of first occurrence.
pub open spec fn spec_conflict_mods(
    files: Seq<ModFileV>,
    claims: Seq<ClaimV>,
    conflicts: Seq<Seq<char>>,
) -> Seq<Seq<char>>
    decreases conflicts.len(),
{
    if conflicts.len() == 0 {
        Seq::empty()
    } else {
        let rest = spec_conflict_mods(files, claims, conflicts.drop_last());
        match claim_lookup(claims, conflicts.last()) {
            Some(o) => dedup_push(rest, files[o].metadata.guid),
            None => rest,
        }
    }
}

/// The entries a mod contributes to the claim table once it passes the
/// conflict check: everything but the manifest.
pub open spec fn spec_claimable_entries(entries: Seq<Seq<char>>) -> Seq<Seq<char>>
    decreases entries.len(),
{
    if entries.len() == 0 {
        Seq::empty()
    } else {
        spec_claimable_entries(entries.drop_last()) + (if entries.last() != "mod.toml"@ {
            seq![entries.last()]
        } else {
            Seq::empty()
        })
    }
}

/// Checks the entries of `mod_file` against the files claimed by mods checked
/// before it. A shared file is a conflict unless one of the two mods'
/// dependency trees contains the other's GUID. On success, returns the
/// entries (all but the manifest) that `mod_file` claims in turn; on failure,
/// the conflicting mods' GUIDs and the conflicting files.
pub fn check_mod_conflicts(
    checked_files: &Vec<FileClaim>,
    active_mod_files: &Vec<ModFile>,
    mod_file: &ModFile,
) -> (r: Result<Vec<String>, (Vec<String>, Vec<String>)>)
    requires
        meta_wf(mod_file@.metadata),
        files_wf(active_mod_files.deep_view()),
        claims_in_range(checked_files.deep_view(), active_mod_files.deep_view().len() as int),
    ensures
        match r {
            Ok(valid) => spec_unresolved_conflicts(
                active_mod_files.deep_view(),
                checked_files.deep_view(),
                mod_file@,
                mod_file@.entries,
            ).len() == 0 && valid.deep_view() == spec_claimable_entries(mod_file@.entries),
            Err((mods, fs)) => {
                &&& fs.deep_view() == spec_unresolved_conflicts(
                    active_mod_files.deep_view(),
                    checked_files.deep_view(),
                    mod_file@,
                    mod_file@.entries,
                )
                &&& fs@.len() > 0
                &&& mods.deep_view() == spec_conflict_mods(
                    active_mod_files.deep_view(),
                    checked_files.deep_view(),
                    fs.deep_view(),
                )
            },
        },
{
    let ghost filesv = active_mod_files.deep_view();
    let ghost claimsv = checked_files.deep_view();
    let ghost ev = mod_file@.entries;
    let mut conflicts: Vec<String> = Vec::new();
    let mut conflict_mods: Vec<String> = Vec::new();
    let mut i: usize = 0;
    while i < mod_file.entries.len()
        invariant
            meta_wf(mod_file@.metadata),
            files_wf(filesv),
            claims_in_range(claimsv, filesv.len() as int),
            filesv == active_mod_files.deep_view(),
            claimsv == checked_files.deep_view(),
            ev == mod_file@.entries,
            ev.len() == mod_file.entries.len(),
            0 <= i <= mod_file.entries.len(),
            conflicts.deep_view() == spec_unresolved_conflicts(
                filesv,
                claimsv,
                mod_file@,
                ev.take(i as int),
            ),
            conflict_mods.deep_view() == spec_conflict_mods(
                filesv,
                claimsv,
                conflicts.deep_view(),
            ),
        decreases mod_file.entries.len() - i,
    {
        let ghost conflicts_before = conflicts.deep_view();
        proof {
            assert(ev.take(i as int + 1).drop_last() =~= ev.take(i as int));
            assert(ev.take(i as int + 1).last() == ev[i as int]);
            assert(ev[i as int] == mod_file.entries@[i as int]@);
        }
        let entry = &mod_file.entries[i];
        match claim_lookup_exec(checked_files, entry) {
            None => {
                proof {
                    assert(conflicts.deep_view() =~= spec_unresolved_conflicts(
                        filesv,
                        claimsv,
                        mod_file@,
                        ev.take(i as int + 1),
                    ));
                }
            },
            Some(o) => {
                proof {
                    lemma_claim_lookup_range(claimsv, ev[i as int], filesv.len() as int);
                    assert(filesv[o as int] == active_mod_files.deep_view()[o as int]);
                }
                let owner = &active_mod_files[o];
                let mod_tree = mod_file.get_dependency_tree(active_mod_files);
                let owner_tree = owner.get_dependency_tree(active_mod_files);
                let mut excused = false;
                match mod_tree {
                    Ok(n) => {
                        if n.in_dependency_tree(&owner.metadata.guid) {
                            excused = true;
                        }
                    },
                    Err(_) => {},
                }
                if !excused {
                    match owner_tree {
                        Ok(n) => {
                            if n.in_dependency_tree(&mod_file.metadata.guid) {
                                excused = true;
                            }
                        },
                        Err(_) => {},
                    }
                }
                proof {
                    assert(excused == conflict_excused(
                        filesv,
                        mod_file@.metadata,
                        filesv[o as int].metadata,
                    ));
                }
                if !excused {
                    conflicts.push(entry.clone());
                    proof {
                        assert(conflicts.deep_view() =~= conflicts_before.push(ev[i as int]));
                        assert(conflicts.deep_view() =~= spec_unresolved_conflicts(
                            filesv,
                            claimsv,
                            mod_file@,
                            ev.take(i as int + 1),
                        ));
                        assert(conflicts.deep_view().drop_last() =~= conflicts_before);
                    }
                    let ghost mods_before = conflict_mods.deep_view();
                    if !vec_contains_string(&conflict_mods, &owner.metadata.guid) {
                        conflict_mods.push(owner.metadata.guid.clone());
                        proof {
                            assert(conflict_mods.deep_view() =~= mods_before.push(
                                filesv[o as int].metadata.guid,
                            ));
                        }
                    }
                    proof {
                        assert(conflict_mods.deep_view() == dedup_push(
                            mods_before,
                            filesv[o as int].metadata.guid,
                        ));
                    }
                } else {
                    proof {
                        assert(conflicts.deep_view() =~= spec_unresolved_conflicts(
                            filesv,
                            claimsv,
                            mod_file@,
                            ev.take(i as int + 1),
                        ));
                    }
                }
            },
        }
        i = i + 1;
    }
    proof {
        assert(ev.take(ev.len() as int) =~= ev);
    }
    if conflicts.len() > 0 {
        return Err((conflict_mods, conflicts));
    }
    let mut valid: Vec<String> = Vec::new();
    let mut i: usize = 0;
    while i < mod_file.entries.len()
        invariant
            ev == mod_file@.entries,
            ev.len() == mod_file.entries.len(),
            0 <= i <= mod_file.entries.len(),
            valid.deep_view() == spec_claimable_entries(ev.take(i as int)),
        decreases mod_file.entries.len() - i,
    {
        let ghost before = valid.deep_view();
        proof {
            assert(ev.take(i as int + 1).drop_last() =~= ev.take(i as int));
            assert(ev.take(i as int + 1).last() == ev[i as int]);
            assert(ev[i as int] == mod_file.entries@[i as int]@);
        }
        let entry = &mod_file.entries[i];
        if !str_eq(entry.as_str(), "mod.toml") {
            valid.push(entry.clone());
            proof {
                assert(valid.deep_view() =~= before.push(ev[i as int]));
                assert(valid.deep_view() =~= spec_claimable_entries(ev.take(i as int + 1)));
            }
        } else {
            proof {
                assert(valid.deep_view() =~= spec_claimable_entries(ev.take(i as int + 1)));
            }
        }
        i = i + 1;
    }
    proof {
        assert(ev.take(ev.len() as int) =~= ev);
    }
    Ok(valid)
}

// ------------------------------------------------------------------
// Whole-selection validation
// ------------------------------------------------------------------

/// The claim table extended by one mod's claimable entries, in order.
pub open spec fn claims_plus(claims: Seq<ClaimV>, valid: Seq<Seq<char>>, owner: int) -> Seq<ClaimV>
    decreases valid.len(),
{
    if valid.len() == 0 {
        claims
    } else {
        claims_plus(claims, valid.drop_last(), owner).push(ClaimV { file: valid.last(), owner })
    }
}

/// Extending a claim table keeps its owners in range.
pub proof fn lemma_claims_plus_range(claims: Seq<ClaimV>, valid: Seq<Seq<char>>, owner: int, n: int)
    requires
        claims_in_range(claims, n),
        0 <= owner < n,
    ensures
        claims_in_range(claims_plus(claims, valid, owner), n),
    decreases valid.len(),
{
    if valid.len() > 0 {
        lemma_claims_plus_range(claims, valid.drop_last(), owner, n);
    }
}

/// The verdict of validating `files[j..]`, given the claim table and the
/// missing-dependency and blame lists accumulated over `files[..j]`.
pub open spec fn spec_validate_from(
    files: Seq<ModFileV>,
    j: int,
    claims: Seq<ClaimV>,
    missing: Seq<Seq<char>>,
    blame: Seq<Seq<char>>,
) -> VerdictV
    decreases files.len() - j,
{
    if j < 0 || j >= files.len() {
        if missing.len() > 0 {
            VerdictV::FailedDeps(missing, blame)
        } else {
            VerdictV::Passed
        }
    } else {
        let f = files[j];
        match spec_check_security(f.entries) {
            Err(m) => VerdictV::Insecure(f.metadata.guid, m),
            Ok(u) => {
                let bad = spec_bad_patches(f.entries);
                if bad.len() > 0 {
                    VerdictV::BadPatchNames(f.metadata.guid, bad)
                } else {
                    let miss = spec_missing_deps(metas_of(files), f.metadata.depends);
                    if miss.len() > 0 {
                        spec_validate_from(
                            files,
                            j + 1,
                            claims,
                            missing + miss,
                            blame.push(f.metadata.guid),
                        )
                    } else {
                        let confl = spec_unresolved_conflicts(files, claims, f, f.entries);
                        if confl.len() > 0 {
                            VerdictV::Conflict(
                                f.metadata.guid,
                                spec_conflict_mods(files, claims, confl),
                                confl,
                            )
                        } else {
                            spec_validate_from(
                                files,
                                j + 1,
                                claims_plus(claims, spec_claimable_entries(f.entries), j),
                                missing,
                                blame,
                            )
                        }
                    }
                }
            },
        }
    }
}

/// The verdict of validating a selected mod set, checked in selection order.
pub open spec fn spec_validate(files: Seq<ModFileV>) -> VerdictV {
    spec_validate_from(files, 0, Seq::empty(), Seq::empty(), Seq::empty())
}

/// Runs the security, patch-naming, dependency and conflict checks over the
/// selected mods, in selection order. Security and naming violations abort at
/// once; missing dependencies accumulate; the first unresolved file conflict
/// aborts.
pub fn validate_active_mods(active_mod_files: &Vec<ModFile>) -> (r: ModCheckResult)
    requires
        files_wf(active_mod_files.deep_view()),
    ensures
        r@ == spec_validate(active_mod_files.deep_view()),
{
    let ghost filesv = active_mod_files.deep_view();
    let mut checked_files: Vec<FileClaim> = Vec::new();
    let mut deps_unsatisfied: Vec<String> = Vec::new();
    let mut mods_blame: Vec<String> = Vec::new();
    proof {
        assert(checked_files.deep_view() =~= Seq::<ClaimV>::empty());
        assert(deps_unsatisfied.deep_view() =~= Seq::<Seq<char>>::empty());
        assert(mods_blame.deep_view() =~= Seq::<Seq<char>>::empty());
    }
    let mut j: usize = 0;
    while j < active_mod_files.len()
        invariant
            files_wf(filesv),
            filesv == active_mod_files.deep_view(),
            filesv.len() == active_mod_files.len(),
            0 <= j <= active_mod_files.len(),
            claims_in_range(checked_files.deep_view(), filesv.len() as int),
            spec_validate(filesv) == spec_validate_from(
                filesv,
                j as int,
                checked_files.deep_view(),
                deps_unsatisfied.deep_view(),
                mods_blame.deep_view(),
            ),
        decreases active_mod_files.len() - j,
    {
        proof {
            assert(filesv[j as int] == active_mod_files@[j as int]@);
            assert(meta_wf(filesv[j as int].metadata));
        }
        let mod_file = &active_mod_files[j];
        let guid = mod_file.metadata.guid.clone();

        if let Err(e_msg) = check_mod_security(&mod_file.entries) {
            return ModCheckResult::ModInsecurity(guid, e_msg);
        }

        if let Err(bad_patches) = check_patch_validity(&mod_file.entries) {
            return ModCheckResult::InvalidPatchNames(guid, bad_patches);
        }

        proof {
            assert(mod_file.metadata.depends.deep_view() == filesv[j as int].metadata.depends);
        }
        match check_mod_dependencies(active_mod_files, &mod_file.metadata.depends) {
            Err(mut bad_deps) => {
                let ghost missing_before = deps_unsatisfied.deep_view();
                let ghost blame_before = mods_blame.deep_view();
                deps_unsatisfied.append(&mut bad_deps);
                mods_blame.push(guid);
                proof {
                    assert(deps_unsatisfied.deep_view() =~= missing_before + spec_missing_deps(
                        metas_of(filesv),
                        filesv[j as int].metadata.depends,
                    ));
                    assert(mods_blame.deep_view() =~= blame_before.push(
                        filesv[j as int].metadata.guid,
                    ));
                }
                j = j + 1;
                continue ;
            },
            Ok(u) => {},
        }

        match check_mod_conflicts(&checked_files, active_mod_files, mod_file) {
            Err((conflict_mods, conflict_files)) => {
                return ModCheckResult::FileConflict(guid, conflict_mods, conflict_files);
            },
            Ok(valid_files) => {
                let ghost claims_before = checked_files.deep_view();
                let ghost vv = valid_files.deep_view();
                let mut k: usize = 0;
                while k < valid_files.len()
                    invariant
                        0 <= k <= valid_files.len(),
                        j < filesv.len(),
                        vv == valid_files.deep_view(),
                        vv.len() == valid_files.len(),
                        checked_files.deep_view() == claims_plus(
                            claims_before,
                            vv.take(k as int),
                            j as int,
                        ),
                    decreases valid_files.len() - k,
                {
                    let ghost cb = checked_files.deep_view();
                    proof {
                        assert(vv.take(k as int + 1).drop_last() =~= vv.take(k as int));
                        assert(vv.take(k as int + 1).last() == vv[k as int]);
                        assert(vv[k as int] == valid_files@[k as int]@);
                    }
                    checked_files.push(FileClaim { file: valid_files[k].clone(), owner: j });
                    proof {
                        assert(checked_files.deep_view() =~= cb.push(
                            ClaimV { file: vv[k as int], owner: j as int },
                        ));
                    }
                    k = k + 1;
                }
                proof {
                    assert(vv.take(vv.len() as int) =~= vv);
                    assert(checked_files.deep_view() == claims_plus(
                        claims_before,
                        spec_claimable_entries(filesv[j as int].entries),
                        j as int,
                    ));
                    lemma_claims_plus_range(
                        claims_before,
                        spec_claimable_entries(filesv[j as int].entries),
                        j as int,
                        filesv.len() as int,
                    );
                }
            },
        }
        j = j + 1;
    }

    if deps_unsatisfied.len() > 0 {
        ModCheckResult::FailedDependency(deps_unsatisfied, mods_blame)
    } else {
        ModCheckResult::ModsOk()
    }
}

// ------------------------------------------------------------------
// Conflict-flagging law
// ------------------------------------------------------------------

/// Looking a file up in an extended claim table: the extension owns every
/// file it lists; other files keep their old owner.
proof fn lemma_claims_plus_lookup(claims: Seq<ClaimV>, valid: Seq<Seq<char>>, o: int, e: Seq<char>)
    ensures
        claim_lookup(claims_plus(claims, valid, o), e) == (if valid.contains(e) {
            Some(o)
        } else {
            claim_lookup(claims, e)
        }),
    decreases valid.len(),
{
    if valid.len() > 0 {
        lemma_claims_plus_lookup(claims, valid.drop_last(), o, e);
        let c2 = claims_plus(claims, valid, o);
        assert(c2.last() == ClaimV { file: valid.last(), owner: o });
        assert(c2.drop_last() =~= claims_plus(claims, valid.drop_last(), o));
        if valid.last() == e {
            assert(valid.contains(e)) by {
                assert(valid[valid.len() - 1] == e);
            }
        } else {
            assert(valid.contains(e) <==> valid.drop_last().contains(e)) by {
                if valid.contains(e) {
                    let i = choose|i: int| 0 <= i < valid.len() && valid[i] == e;
                    assert(valid.drop_last()[i] == e);
                }
                if valid.drop_last().contains(e) {
                    let i = choose|i: int|
                        0 <= i < valid.drop_last().len() && valid.drop_last()[i] == e;
                    assert(valid[i] == e);
                }
            }
        }
    }
}

/// Membership in a nonempty sequence, split at its last element.
proof fn lemma_contains_step(s: Seq<Seq<char>>, e: Seq<char>)
    requires
        s.len() > 0,
    ensures
        s.contains(e) <==> (s.drop_last().contains(e) || s.last() == e),
{
    if s.contains(e) {
        let i = choose|i: int| 0 <= i < s.len() && s[i] == e;
        if i < s.len() - 1 {
            assert(s.drop_last()[i] == e);
        }
    }
    if s.drop_last().contains(e) {
        let i = choose|i: int| 0 <= i < s.drop_last().len() && s.drop_last()[i] == e;
        assert(s[i] == e);
    }
    if s.last() == e {
        assert(s[s.len() - 1] == e);
    }
}

/// A mod claims exactly its entries other than the manifest.
proof fn lemma_claimable_contains(entries: Seq<Seq<char>>, e: Seq<char>)
    ensures
        spec_claimable_entries(entries).contains(e) <==> (entries.contains(e) && e
            != "mod.toml"@),
    decreases entries.len(),
{
    if entries.len() > 0 {
        lemma_claimable_contains(entries.drop_last(), e);
        lemma_contains_step(entries, e);
        let prev = spec_claimable_entries(entries.drop_last());
        let whole = spec_claimable_entries(entries);
        if entries.last() != "mod.toml"@ {
            assert(whole.drop_last() =~= prev);
            assert(whole.last() == entries.last());
            lemma_contains_step(whole, e);
        } else {
            assert(whole =~= prev);
        }
    }
}

/// An entry owned by another mod without an excuse makes the unresolved
/// conflicts of a mod shipping it nonempty.
proof fn lemma_conflicts_nonempty(
    files: Seq<ModFileV>,
    claims: Seq<ClaimV>,
    m: ModFileV,
    entries: Seq<Seq<char>>,
    e: Seq<char>,
    o: int,
)
    requires
        entries.contains(e),
        claim_lookup(claims, e) == Some(o),
        !conflict_excused(files, m.metadata, files[o].metadata),
    ensures
        spec_unresolved_conflicts(files, claims, m, entries).len() > 0,
    decreases entries.len(),
{
    if entries.len() > 0 {
        if entries.last() == e {
        } else {
            assert(entries.drop_last().contains(e)) by {
                let i = choose|i: int| 0 <= i < entries.len() && entries[i] == e;
                assert(entries.drop_last()[i] == e);
            }
            lemma_conflicts_nonempty(files, claims, m, entries.drop_last(), e, o);
        }
    }
}

/// One step of the validation walk, toward the conflict at mod `b`.
proof fn lemma_validate_from_conflict(
    files: Seq<ModFileV>,
    a: int,
    b: int,
    e: Seq<char>,
    j: int,
    claims: Seq<ClaimV>,
    missing: Seq<Seq<char>>,
    blame: Seq<Seq<char>>,
)
    requires
        0 <= a < b < files.len(),
        files[a].entries.contains(e),
        files[b].entries.contains(e),
        e != "mod.toml"@,
        forall|c: int|
            0 <= c < files.len() && c != a && c != b ==> !(#[trigger] files[c]).entries.contains(
                e,
            ),
        forall|k: int|
            0 <= k < files.len() ==> spec_check_security((#[trigger] files[k]).entries) is Ok,
        forall|k: int|
            0 <= k < files.len() ==> spec_bad_patches((#[trigger] files[k]).entries).len() == 0,
        forall|k: int|
            0 <= k < files.len() ==> spec_missing_deps(
                metas_of(files),
                (#[trigger] files[k]).metadata.depends,
            ).len() == 0,
        !conflict_excused(files, files[b].metadata, files[a].metadata),
        0 <= j <= b,
        j <= a ==> claim_lookup(claims, e) == None::<int>,
        a < j ==> claim_lookup(claims, e) == Some(a),
    ensures
        spec_validate_from(files, j, claims, missing, blame) is Conflict,
    decreases b - j,
{
    let f = files[j];
    if j == b {
        lemma_conflicts_nonempty(files, claims, f, f.entries, e, a);
    } else {
        let confl = spec_unresolved_conflicts(files, claims, f, f.entries);
        if confl.len() > 0 {
        } else {
            let claims2 = claims_plus(claims, spec_claimable_entries(f.entries), j);
            lemma_claims_plus_lookup(claims, spec_claimable_entries(f.entries), j, e);
            lemma_claimable_contains(f.entries, e);
            if j == a {
                assert(claim_lookup(claims2, e) == Some(a));
            } else {
                assert(!files[j].entries.contains(e));
            }
            lemma_validate_from_conflict(files, a, b, e, j + 1, claims2, missing, blame);
        }
    }
}

/// Law: a file shipped by two selected mods is flagged as a file conflict
/// unless one of the two mods' dependency trees contains the other's GUID.
/// Stated for a validation run that reaches the conflict: no mod trips the
/// security or patch-naming check, every hard dependency is satisfied, and no
/// third mod ships the same file.
pub proof fn lemma_shared_file_flagged(files: Seq<ModFileV>, a: int, b: int, e: Seq<char>)
    requires
        0 <= a < b < files.len(),
        files[a].entries.contains(e),
        files[b].entries.contains(e),
        e != "mod.toml"@,
        forall|c: int|
            0 <= c < files.len() && c != a && c != b ==> !(#[trigger] files[c]).entries.contains(
                e,
            ),
        forall|k: int|
            0 <= k < files.len() ==> spec_check_security((#[trigger] files[k]).entries) is Ok,
        forall|k: int|
            0 <= k < files.len() ==> spec_bad_patches((#[trigger] files[k]).entries).len() == 0,
        forall|k: int|
            0 <= k < files.len() ==> spec_missing_deps(
                metas_of(files),
                (#[trigger] files[k]).metadata.depends,
            ).len() == 0,
        !conflict_excused(files, files[b].metadata, files[a].metadata),
    ensures
        spec_validate(files) is Conflict,
{
    lemma_validate_from_conflict(files, a, b, e, 0, Seq::empty(), Seq::empty(), Seq::empty());
}

/// Law, read the other way: when validation passes, any file that two mods
/// both ship (and no third mod does) is excused by dependency ancestry
/// between the two.
pub proof fn lemma_passed_means_sharing_excused(files: Seq<ModFileV>, a: int, b: int, e: Seq<char>)
    requires
        0 <= a < b < files.len(),
        files[a].entries.contains(e),
        files[b].entries.contains(e),
        e != "mod.toml"@,
        forall|c: int|
            0 <= c < files.len() && c != a && c != b ==> !(#[trigger] files[c]).entries.contains(
                e,
            ),
        forall|k: int|
            0 <= k < files.len() ==> spec_check_security((#[trigger] files[k]).entries) is Ok,
        forall|k: int|
            0 <= k < files.len() ==> spec_bad_patches((#[trigger] files[k]).entries).len() == 0,
        forall|k: int|
            0 <= k < files.len() ==> spec_missing_deps(
                metas_of(files),
                (#[trigger] files[k]).metadata.depends,
            ).len() == 0,
        spec_validate(files) == VerdictV::Passed,
    ensures
        conflict_excused(files, files[b].metadata, files[a].metadata),
{
    if !conflict_excused(files, files[b].metadata, files[a].metadata) {
        lemma_shared_file_flagged(files, a, b, e);
    }
}

/// Checks the semantics of every selected mod, then validates the selection.
/// Fails with the index of the first mod whose metadata is not well formed,
/// together with the message of its semantics check.
pub fn validate_selection(active_mod_files: &Vec<ModFile>) -> (r: Result<
    ModCheckResult,
    (usize, String),
>)
    ensures
        match r {
            Ok(v) => files_wf(active_mod_files.deep_view()) && v@ == spec_validate(
                active_mod_files.deep_view(),
            ),
            Err((i, m)) => {
                &&& 0 <= i < active_mod_files.deep_view().len()
                &&& !meta_wf(active_mod_files.deep_view()[i as int].metadata)
                &&& forall|k: int|
                    0 <= k < i ==> meta_wf(
                        (#[trigger] active_mod_files.deep_view()[k]).metadata,
                    )
            },
        },
{
    let ghost filesv = active_mod_files.deep_view();
    let mut i: usize = 0;
    while i < active_mod_files.len()
        invariant
            filesv == active_mod_files.deep_view(),
            filesv.len() == active_mod_files.len(),
            0 <= i <= active_mod_files.len(),
            forall|k: int| 0 <= k < i ==> meta_wf((#[trigger] filesv[k]).metadata),
        decreases active_mod_files.len() - i,
    {
        proof {
            assert(filesv[i as int] == active_mod_files@[i as int]@);
        }
        if let Err(m) = active_mod_files[i].metadata.validate_semantics() {
            return Err((i, m));
        }
        i = i + 1;
    }
    Ok(validate_active_mods(active_mod_files))
}

} // verus!
