//! Restoring the game directory from the origin snapshot.
//!
//! The origin snapshot is an archive of the pristine game tree. A reset pass
//! walks `replaced_files` and, for each path, either restores it from the
//! snapshot or — when the snapshot has no such entry, meaning the file did
//! not originally exist — deletes the working copy. The decisions are made
//! here; an unverified shell carries them out on disk.

use vstd::prelude::*;

use crate::config::AppConfig;
use crate::mod_data::vec_contains_string;

verus! {

/// Mathematical value of one reset action.
pub ghost enum ResetActionV {
    Restore(Seq<char>),
    Delete(Seq<char>),
}

/// One action of a reset pass, on a path relative to the game root: restore
/// the path from the origin snapshot, or delete the working copy because the
/// file did not originally exist.
#[derive(Clone, Debug)]
pub enum ResetAction {
    Restore(String),
    Delete(String),
}

impl View for ResetAction {
    type V = ResetActionV;

    open spec fn view(&self) -> ResetActionV {
        match self {
            ResetAction::Restore(p) => ResetActionV::Restore(p@),
            ResetAction::Delete(p) => ResetActionV::Delete(p@),
        }
    }
}

impl DeepView for ResetAction {
    type V = ResetActionV;

    open spec fn deep_view(&self) -> ResetActionV {
        self.view()
    }
}

/// The actions of a reset pass: one per replaced file, in order; a path the
/// origin archive holds is restored, any other is deleted.
pub open spec fn spec_reset_plan(
    replaced: Seq<Seq<char>>,
    origin_entries: Seq<Seq<char>>,
) -> Seq<ResetActionV>
    decreases replaced.len(),
{
    if replaced.len() == 0 {
        Seq::empty()
    } else {
        spec_reset_plan(replaced.drop_last(), origin_entries).push(
            if origin_entries.contains(replaced.last()) {
                ResetActionV::Restore(replaced.last())
            } else {
                ResetActionV::Delete(replaced.last())
            },
        )
    }
}

/// Plans a reset pass for the given configuration, against the entry names of
/// the origin snapshot.
pub fn reset_plan(config: &AppConfig, origin_entries: &Vec<String>) -> (r: Vec<ResetAction>)
    ensures
        r.deep_view() == spec_reset_plan(
            config@.data_win.replaced_files,
            origin_entries.deep_view(),
        ),
{
    let ghost rv = config@.data_win.replaced_files;
    let ghost ov = origin_entries.deep_view();
    let mut plan: Vec<ResetAction> = Vec::new();
    proof {
        assert(plan.deep_view() =~= Seq::<ResetActionV>::empty());
        assert(rv.take(0) =~= Seq::<Seq<char>>::empty());
    }
    let mut i: usize = 0;
    while i < config.data_win.replaced_files.len()
        invariant
            rv == config@.data_win.replaced_files,
            ov == origin_entries.deep_view(),
            rv.len() == config.data_win.replaced_files.len(),
            0 <= i <= config.data_win.replaced_files.len(),
            plan.deep_view() == spec_reset_plan(rv.take(i as int), ov),
        decreases config.data_win.replaced_files.len() - i,
    {
        let ghost before = plan.deep_view();
        proof {
            assert(rv.take(i as int + 1).drop_last() =~= rv.take(i as int));
            assert(rv.take(i as int + 1).last() == rv[i as int]);
            assert(rv[i as int] == config.data_win.replaced_files@[i as int]@);
        }
        let path = &config.data_win.replaced_files[i];
        if vec_contains_string(origin_entries, path) {
            plan.push(ResetAction::Restore(path.clone()));
        } else {
            plan.push(ResetAction::Delete(path.clone()));
        }
        proof {
            assert(plan.deep_view() =~= spec_reset_plan(rv.take(i as int + 1), ov));
        }
        i = i + 1;
    }
    proof {
        assert(rv.take(rv.len() as int) =~= rv);
    }
    plan
}

/// The configuration left behind by a completed reset pass: the same
/// configuration with no replaced files left.
pub open spec fn spec_after_reset(c: crate::config::AppConfigV) -> crate::config::AppConfigV {
    crate::config::AppConfigV {
        data_win: crate::config::DataWinConfigV {
            replaced_files: Seq::empty(),
            ..c.data_win
        },
        ..c
    }
}

/// Marks a reset pass complete: every replaced file has been put back, so the
/// list is cleared. Nothing else of the configuration changes.
pub fn finish_reset(config: &mut AppConfig)
    ensures
        final (config)@ == spec_after_reset(old(config)@),
{
    config.data_win.replaced_files.clear();
    proof {
        assert(config@.data_win.replaced_files =~= Seq::<Seq<char>>::empty());
        assert(config@ =~~= spec_after_reset(old(config)@));
    }
}

/// Law: a reset pass is idempotent. A completed reset leaves no replaced
/// files, so a second pass plans no actions at all, and completing that empty
/// pass changes nothing further.
pub proof fn lemma_reset_idempotent(c: crate::config::AppConfigV, origin_entries: Seq<Seq<char>>)
    ensures
        spec_reset_plan(spec_after_reset(c).data_win.replaced_files, origin_entries) == Seq::<
            ResetActionV,
        >::empty(),
        spec_after_reset(spec_after_reset(c)) == spec_after_reset(c),
{
    assert(spec_after_reset(spec_after_reset(c)) =~~= spec_after_reset(c));
}

/// Whether a leftover empty directory, named relative to the game root with a
/// trailing slash, may be removed: it may unless the origin snapshot records
/// the directory itself.
pub fn dir_removal_allowed(dirname: &String, origin_entries: &Vec<String>) -> (r: bool)
    ensures
        r == !origin_entries.deep_view().contains(dirname@),
{
    !vec_contains_string(origin_entries, dirname)
}

/// Gate of a purge: purging fails when no origin snapshot exists, since there
/// is nothing to restore from.
pub fn purge_gate(origin_exists: bool) -> (r: Result<(), String>)
    ensures
        match r {
            Ok(()) => origin_exists,
            Err(m) => !origin_exists && m@ == "Origin not initialized"@,
        },
{
    if origin_exists {
        Ok(())
    } else {
        Err(String::from_str("Origin not initialized"))
    }
}

/// Marks a purge complete: after the reset pass, the mod selection is cleared
/// as well. The snapshot file itself is deleted by the caller.
pub fn finish_purge(config: &mut AppConfig)
    ensures
        final (config)@.data_win.active_mods == Seq::<Seq<char>>::empty(),
        final (config)@.data_win.replaced_files == old(config)@.data_win.replaced_files,
        final (config)@.data_win.game_root == old(config)@.data_win.game_root,
        final (config)@.filepath == old(config)@.filepath,
{
    config.data_win.active_mods.clear();
    proof {
        assert(config@.data_win.active_mods =~= Seq::<Seq<char>>::empty());
    }
}

} // verus!
