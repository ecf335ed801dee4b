//! Planning the application of an ordered mod chain.
//!
//! For each mod, every archive entry except the manifest is extracted under
//! the game root; the delta-patch entry instead goes to a staging directory,
//! the tracked binary asset is moved aside, and the delta codec decodes the
//! patch against it to produce the new asset in place. Every path written
//! under the game root is recorded in `replaced_files` exactly once. The
//! steps are decided here; an unverified shell performs them and invokes the
//! codec.

use vstd::prelude::*;

use crate::config::AppConfig;
use crate::mod_data::{files_wf, vec_contains_string, ModFile};
use crate::mod_order::{build_mod_chain, spec_build_chain};
use crate::mod_validation::{spec_validate, validate_active_mods, ModCheckResult, VerdictV};
use crate::text::str_eq;

verus! {

/// Mathematical value of one application step.
pub ghost enum ApplyStepV {
    ExtractEntry { entry: Seq<char>, dest: Seq<char> },
    StageBinary { from: Seq<char>, to: Seq<char> },
    DecodeDelta { source: Seq<char>, patch: Seq<char>, target: Seq<char> },
}

/// One step of applying a mod:
/// - `ExtractEntry`: write the archive entry `entry` to the path `dest`,
///   creating parent directories as needed;
/// - `StageBinary`: move the file `from` to `to`, across file systems if need
///   be;
/// - `DecodeDelta`: run the delta codec in decode mode with `source` as the
///   decode source and `patch` as the patch, overwriting `target`.
#[derive(Clone, Debug)]
pub enum ApplyStep {
    ExtractEntry { entry: String, dest: String },
    StageBinary { from: String, to: String },
    DecodeDelta { source: String, patch: String, target: String },
}

impl View for ApplyStep {
    type V = ApplyStepV;

    open spec fn view(&self) -> ApplyStepV {
        match self {
            ApplyStep::ExtractEntry { entry, dest } => ApplyStepV::ExtractEntry {
                entry: entry@,
                dest: dest@,
            },
            ApplyStep::StageBinary { from, to } => ApplyStepV::StageBinary { from: from@, to: to@ },
            ApplyStep::DecodeDelta { source, patch, target } => ApplyStepV::DecodeDelta {
                source: source@,
                patch: patch@,
                target: target@,
            },
        }
    }
}

impl DeepView for ApplyStep {
    type V = ApplyStepV;

    open spec fn deep_view(&self) -> ApplyStepV {
        self.view()
    }
}

/// A path under `base`, separated by a slash.
pub open spec fn spec_joined(base: Seq<char>, rel: Seq<char>) -> Seq<char> {
    base + "/"@ + rel
}

/// Joins a relative path onto a base directory.
pub fn join_path(base: &str, rel: &str) -> (r: String)
    ensures
        r@ == spec_joined(base@, rel@),
{
    let mut r = String::from_str(base);
    r.append("/");
    r.append(rel);
    r
}

/// The replaced-file list after recording one mod's entries: each entry but
/// the manifest, with the patch entry standing for the tracked binary asset,
/// appended once each.
pub open spec fn spec_record_files(
    replaced: Seq<Seq<char>>,
    entries: Seq<Seq<char>>,
) -> Seq<Seq<char>>
    decreases entries.len(),
{
    if entries.len() == 0 {
        replaced
    } else {
        let prev = spec_record_files(replaced, entries.drop_last());
        let e = entries.last();
        if e == "mod.toml"@ {
            prev
        } else {
            let p = if e == "patch.xdelta"@ {
                "data.win"@
            } else {
                e
            };
            if prev.contains(p) {
                prev
            } else {
                prev.push(p)
            }
        }
    }
}

/// The steps that apply one mod's entries, in archive order: plain entries
/// are extracted under the game root; the patch entry is staged under the
/// temporary directory, the tracked binary asset is moved aside, and the
/// codec decodes the patch over it.
pub open spec fn spec_mod_steps(
    entries: Seq<Seq<char>>,
    game_root: Seq<char>,
    temp_dir: Seq<char>,
) -> Seq<ApplyStepV>
    decreases entries.len(),
{
    if entries.len() == 0 {
        Seq::empty()
    } else {
        let prev = spec_mod_steps(entries.drop_last(), game_root, temp_dir);
        let e = entries.last();
        if e == "mod.toml"@ {
            prev
        } else if e == "patch.xdelta"@ {
            prev + seq![
                ApplyStepV::ExtractEntry { entry: e, dest: spec_joined(temp_dir, e) },
                ApplyStepV::StageBinary {
                    from: spec_joined(game_root, "data.win"@),
                    to: spec_joined(temp_dir, "data.win"@),
                },
                ApplyStepV::DecodeDelta {
                    source: spec_joined(temp_dir, "data.win"@),
                    patch: spec_joined(temp_dir, e),
                    target: spec_joined(game_root, "data.win"@),
                },
            ]
        } else {
            prev.push(ApplyStepV::ExtractEntry { entry: e, dest: spec_joined(game_root, e) })
        }
    }
}

impl ModFile {
    /// Plans the application of this mod: the steps to perform, in order, and
    /// the paths recorded in `replaced_files` (each once) for a later reset.
    pub fn extraction_plan(
        &self,
        game_root: &str,
        temp_dir: &str,
        replaced_files: &mut Vec<String>,
    ) -> (r: Vec<ApplyStep>)
        ensures
            final (replaced_files).deep_view() == spec_record_files(
                old(replaced_files).deep_view(),
                self@.entries,
            ),
            r.deep_view() == spec_mod_steps(self@.entries, game_root@, temp_dir@),
    {
        let ghost ev = self@.entries;
        let ghost replaced0 = replaced_files.deep_view();
        let mut steps: Vec<ApplyStep> = Vec::new();
        proof {
            assert(steps.deep_view() =~= Seq::<ApplyStepV>::empty());
            assert(ev.take(0) =~= Seq::<Seq<char>>::empty());
        }
        let mut i: usize = 0;
        while i < self.entries.len()
            invariant
                ev == self@.entries,
                ev.len() == self.entries.len(),
                0 <= i <= self.entries.len(),
                replaced_files.deep_view() == spec_record_files(replaced0, ev.take(i as int)),
                steps.deep_view() == spec_mod_steps(ev.take(i as int), game_root@, temp_dir@),
            decreases self.entries.len() - i,
        {
            let ghost replaced_before = replaced_files.deep_view();
            let ghost steps_before = steps.deep_view();
            proof {
                assert(ev.take(i as int + 1).drop_last() =~= ev.take(i as int));
                assert(ev.take(i as int + 1).last() == ev[i as int]);
                assert(ev[i as int] == self.entries@[i as int]@);
            }
            let entry = &self.entries[i];
            if str_eq(entry.as_str(), "mod.toml") {
                i = i + 1;
                continue ;
            }
            let is_patch = str_eq(entry.as_str(), "patch.xdelta");

            let recorded = if is_patch {
                String::from_str("data.win")
            } else {
                entry.clone()
            };
            if !vec_contains_string(replaced_files, &recorded) {
                replaced_files.push(recorded);
                proof {
                    assert(replaced_files.deep_view() =~= spec_record_files(
                        replaced0,
                        ev.take(i as int + 1),
                    ));
                }
            } else {
                proof {
                    assert(replaced_files.deep_view() =~= spec_record_files(
                        replaced0,
                        ev.take(i as int + 1),
                    ));
                }
            }

            if is_patch {
                steps.push(
                    ApplyStep::ExtractEntry {
                        entry: entry.clone(),
                        dest: join_path(temp_dir, entry.as_str()),
                    },
                );
                steps.push(
                    ApplyStep::StageBinary {
                        from: join_path(game_root, "data.win"),
                        to: join_path(temp_dir, "data.win"),
                    },
                );
                steps.push(
                    ApplyStep::DecodeDelta {
                        source: join_path(temp_dir, "data.win"),
                        patch: join_path(temp_dir, entry.as_str()),
                        target: join_path(game_root, "data.win"),
                    },
                );
                proof {
                    assert(steps.deep_view() =~= spec_mod_steps(
                        ev.take(i as int + 1),
                        game_root@,
                        temp_dir@,
                    ));
                }
            } else {
                steps.push(
                    ApplyStep::ExtractEntry {
                        entry: entry.clone(),
                        dest: join_path(game_root, entry.as_str()),
                    },
                );
                proof {
                    assert(steps.deep_view() =~= steps_before.push(
                        ApplyStepV::ExtractEntry {
                            entry: ev[i as int],
                            dest: spec_joined(game_root@, ev[i as int]),
                        },
                    ));
                    assert(steps.deep_view() =~= spec_mod_steps(
                        ev.take(i as int + 1),
                        game_root@,
                        temp_dir@,
                    ));
                }
            }
            i = i + 1;
        }
        proof {
            assert(ev.take(ev.len() as int) =~= ev);
        }
        steps
    }
}

/// The error returned when applying a mod fails: blame on the mod in
/// progress, with the outcome of the best-effort reset appended to the
/// message when that reset failed too.
pub fn apply_failure_message(guid: &String, e_msg: &String, reset_result: &Result<(), String>) -> (r:
    (Option<String>, String))
    ensures
        match r.0 {
            Some(g) => g@ == guid@,
            None => false,
        },
        r.1@ == (match reset_result {
            Ok(u) => e_msg@,
            Err(m) => e_msg@ + "\nFailed to reset origin: "@ + m@,
        }),
{
    let mut msg = e_msg.clone();
    match reset_result {
        Ok(_) => {},
        Err(m) => {
            msg.append("\nFailed to reset origin: ");
            msg.append(m.as_str());
        },
    }
    (Some(guid.clone()), msg)
}

/// The outcome of planning a whole apply action.
#[derive(Debug)]
pub enum PlanOutcome {
    /// The selection passed validation; the mods, in application order.
    Chain(Vec<ModFile>),
    /// A selected mod's metadata is not well formed: its index in the
    /// selection, and the message of its semantics check.
    BadMetadata(usize, String),
    /// The selection failed validation with this verdict.
    Rejected(ModCheckResult),
}

/// Validates the selection and, when every check passes, arranges it into the
/// chain in which the mods are applied.
pub fn plan_application(active_mod_files: &Vec<ModFile>) -> (r: PlanOutcome)
    ensures
        match r {
            PlanOutcome::Chain(chain) => files_wf(active_mod_files.deep_view()) && spec_validate(
                active_mod_files.deep_view(),
            ) == VerdictV::Passed && chain.deep_view() == spec_build_chain(
                active_mod_files.deep_view(),
            ),
            PlanOutcome::BadMetadata(i, m) => 0 <= i < active_mod_files.deep_view().len()
                && !crate::mod_data::meta_wf(active_mod_files.deep_view()[i as int].metadata),
            PlanOutcome::Rejected(v) => files_wf(active_mod_files.deep_view()) && v@
                == spec_validate(active_mod_files.deep_view()) && v@ != VerdictV::Passed,
        },
{
    match crate::mod_validation::validate_selection(active_mod_files) {
        Err((i, m)) => PlanOutcome::BadMetadata(i, m),
        Ok(verdict) => match verdict {
            ModCheckResult::ModsOk() => PlanOutcome::Chain(build_mod_chain(active_mod_files)),
            other => PlanOutcome::Rejected(other),
        },
    }
}

} // verus!
