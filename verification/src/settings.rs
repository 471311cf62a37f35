//! What a change of the settings sets in motion.

use crate::plan::{lemma_contained_if, lemma_contained_in_either, only_if, push_if};
use vstd::prelude::*;

verus! {

/// The settings that something other than the next frame depends on. A
/// setting that is one of a list of choices is held as its place in the list.
#[derive(Debug, Clone, Copy, PartialEq, Eq, Structural)]
pub struct WatchedSettings {
    pub tile_worker_count: u64,
    pub tile_resolution_px: u64,
    pub pause_tile_generation: bool,
    pub pause_tile_generation_while_drawing: bool,
    pub tile_rebuild_policy: u8,
    pub tile_prefetch_radius: u8,
    pub distant_tiles_enabled: bool,
    pub vector_depth_radius: u64,
    pub depth_capture_radius: u64,
    pub edge_quality: u8,
    pub smoothing: u8,
    pub cache_size_mib: u64,
    pub png_compression: u8,
    pub storage_commit_mode: u8,
    pub session_logging: u8,
}

/// Something to do after the settings have changed.
#[derive(Debug, Clone, Copy, PartialEq, Eq, Structural)]
pub enum SettingsAction {
    ClearObjectSelection,
    RecreateTileScheduler,
    InvalidateTileRendering,
    ApplyTileGenerationPause,
    ApplyPauseWhileDrawing,
    ApplyTileRequestSettings,
    ApplyStorageCommitMode,
    ApplySessionLogging,
    SaveSettings,
}

/// Whether the tile workers have to start anew: their number, the quality
/// they render with or the cache they write to has changed.
pub open spec fn scheduler_changed(previous: WatchedSettings, current: WatchedSettings) -> bool {
    ||| current.tile_worker_count != previous.tile_worker_count
    ||| current.edge_quality != previous.edge_quality
    ||| current.smoothing != previous.smoothing
    ||| current.cache_size_mib != previous.cache_size_mib
    ||| current.png_compression != previous.png_compression
}

/// Whether other tiles may be wanted, or wanted at another time.
pub open spec fn requests_changed(previous: WatchedSettings, current: WatchedSettings) -> bool {
    ||| current.tile_rebuild_policy != previous.tile_rebuild_policy
    ||| current.tile_prefetch_radius != previous.tile_prefetch_radius
    ||| current.distant_tiles_enabled != previous.distant_tiles_enabled
    ||| current.vector_depth_radius != previous.vector_depth_radius
}

/// What a change from `previous` to `current` sets in motion, in order.
pub open spec fn change_actions(
    previous: WatchedSettings,
    current: WatchedSettings,
) -> Seq<SettingsAction> {
    only_if(
        current.depth_capture_radius != previous.depth_capture_radius,
        SettingsAction::ClearObjectSelection,
    ) + only_if(scheduler_changed(previous, current), SettingsAction::RecreateTileScheduler) + only_if(
        !scheduler_changed(previous, current) && current.tile_resolution_px
            != previous.tile_resolution_px,
        SettingsAction::InvalidateTileRendering,
    ) + only_if(
        current.pause_tile_generation != previous.pause_tile_generation,
        SettingsAction::ApplyTileGenerationPause,
    ) + only_if(
        current.pause_tile_generation_while_drawing != previous.pause_tile_generation_while_drawing,
        SettingsAction::ApplyPauseWhileDrawing,
    ) + only_if(requests_changed(previous, current), SettingsAction::ApplyTileRequestSettings) + only_if(
        current.storage_commit_mode != previous.storage_commit_mode,
        SettingsAction::ApplyStorageCommitMode,
    ) + only_if(
        current.session_logging != previous.session_logging,
        SettingsAction::ApplySessionLogging,
    ) + seq![SettingsAction::SaveSettings]
}

/// What to do, in order, when the settings window closes a frame: `edited`
/// tells whether a control changed a setting, `reset_requested` whether all
/// settings went back to their defaults.
pub fn settings_actions(
    edited: bool,
    reset_requested: bool,
    previous: &WatchedSettings,
    current: &WatchedSettings,
) -> (actions: Vec<SettingsAction>)
    ensures
        actions@ == if edited || reset_requested {
            change_actions(*previous, *current)
        } else {
            seq![]
        },
{
    let mut actions: Vec<SettingsAction> = Vec::new();
    if !edited && !reset_requested {
        assert(actions@ =~= seq![]);
        return actions;
    }
    let scheduler: bool = current.tile_worker_count != previous.tile_worker_count
        || current.edge_quality != previous.edge_quality || current.smoothing != previous.smoothing
        || current.cache_size_mib != previous.cache_size_mib || current.png_compression
        != previous.png_compression;
    let requests: bool = current.tile_rebuild_policy != previous.tile_rebuild_policy
        || current.tile_prefetch_radius != previous.tile_prefetch_radius
        || current.distant_tiles_enabled != previous.distant_tiles_enabled
        || current.vector_depth_radius != previous.vector_depth_radius;
    push_if(
        &mut actions,
        current.depth_capture_radius != previous.depth_capture_radius,
        SettingsAction::ClearObjectSelection,
    );
    assert(actions@ =~= only_if(
        current.depth_capture_radius != previous.depth_capture_radius,
        SettingsAction::ClearObjectSelection,
    ));
    push_if(&mut actions, scheduler, SettingsAction::RecreateTileScheduler);
    push_if(
        &mut actions,
        !scheduler && current.tile_resolution_px != previous.tile_resolution_px,
        SettingsAction::InvalidateTileRendering,
    );
    push_if(
        &mut actions,
        current.pause_tile_generation != previous.pause_tile_generation,
        SettingsAction::ApplyTileGenerationPause,
    );
    push_if(
        &mut actions,
        current.pause_tile_generation_while_drawing != previous.pause_tile_generation_while_drawing,
        SettingsAction::ApplyPauseWhileDrawing,
    );
    push_if(&mut actions, requests, SettingsAction::ApplyTileRequestSettings);
    push_if(
        &mut actions,
        current.storage_commit_mode != previous.storage_commit_mode,
        SettingsAction::ApplyStorageCommitMode,
    );
    push_if(
        &mut actions,
        current.session_logging != previous.session_logging,
        SettingsAction::ApplySessionLogging,
    );
    push_if(&mut actions, true, SettingsAction::SaveSettings);
    actions
}

/// How many depths lie within `radius` of one depth, itself among them.
pub fn depth_level_count(radius: u64) -> (levels: u64)
    ensures
        levels == if 2 * radius + 1 <= u64::MAX {
            2 * radius + 1
        } else {
            u64::MAX as int
        },
{
    if radius > (u64::MAX - 1) / 2 {
        u64::MAX
    } else {
        2 * radius + 1
    }
}

/// A change of the settings is always saved, as the last thing.
pub proof fn law_settings_are_saved_last(previous: WatchedSettings, current: WatchedSettings)
    ensures
        change_actions(previous, current).last() == SettingsAction::SaveSettings,
{
}

/// Where no watched setting differs, there is nothing to do but to save.
pub proof fn law_unwatched_changes_are_only_saved(settings: WatchedSettings)
    ensures
        change_actions(settings, settings) == seq![SettingsAction::SaveSettings],
{
    assert(change_actions(settings, settings) =~= seq![SettingsAction::SaveSettings]);
}

/// The tile workers start anew exactly where their number, the quality they
/// render with or the cache they write to has changed; and where they do, the
/// tiles are not dropped once more.
pub proof fn law_tiles_are_rebuilt_once(previous: WatchedSettings, current: WatchedSettings)
    ensures
        change_actions(previous, current).contains(SettingsAction::RecreateTileScheduler)
            <==> scheduler_changed(previous, current),
        change_actions(previous, current).contains(SettingsAction::RecreateTileScheduler)
            ==> !change_actions(previous, current).contains(SettingsAction::InvalidateTileRendering),
{
    lemma_action_is_set_in_motion(previous, current, SettingsAction::RecreateTileScheduler);
    lemma_action_is_set_in_motion(previous, current, SettingsAction::InvalidateTileRendering);
}

proof fn lemma_action_is_set_in_motion(
    previous: WatchedSettings,
    current: WatchedSettings,
    action: SettingsAction,
)
    ensures
        action == SettingsAction::RecreateTileScheduler ==> (change_actions(
            previous,
            current,
        ).contains(action) <==> scheduler_changed(previous, current)),
        action == SettingsAction::InvalidateTileRendering ==> (change_actions(
            previous,
            current,
        ).contains(action) <==> !scheduler_changed(previous, current) && current.tile_resolution_px
            != previous.tile_resolution_px),
        action == SettingsAction::ClearObjectSelection ==> (change_actions(
            previous,
            current,
        ).contains(action) <==> current.depth_capture_radius != previous.depth_capture_radius),
        action == SettingsAction::ApplyTileGenerationPause ==> (change_actions(
            previous,
            current,
        ).contains(action) <==> current.pause_tile_generation != previous.pause_tile_generation),
        action == SettingsAction::ApplyPauseWhileDrawing ==> (change_actions(
            previous,
            current,
        ).contains(action) <==> current.pause_tile_generation_while_drawing
            != previous.pause_tile_generation_while_drawing),
        action == SettingsAction::ApplyTileRequestSettings ==> (change_actions(
            previous,
            current,
        ).contains(action) <==> requests_changed(previous, current)),
        action == SettingsAction::ApplyStorageCommitMode ==> (change_actions(
            previous,
            current,
        ).contains(action) <==> current.storage_commit_mode != previous.storage_commit_mode),
        action == SettingsAction::ApplySessionLogging ==> (change_actions(
            previous,
            current,
        ).contains(action) <==> current.session_logging != previous.session_logging),
{
    let selection = only_if(
        current.depth_capture_radius != previous.depth_capture_radius,
        SettingsAction::ClearObjectSelection,
    );
    let recreate = only_if(
        scheduler_changed(previous, current),
        SettingsAction::RecreateTileScheduler,
    );
    let invalidate = only_if(
        !scheduler_changed(previous, current) && current.tile_resolution_px
            != previous.tile_resolution_px,
        SettingsAction::InvalidateTileRendering,
    );
    let pause = only_if(
        current.pause_tile_generation != previous.pause_tile_generation,
        SettingsAction::ApplyTileGenerationPause,
    );
    let drawing = only_if(
        current.pause_tile_generation_while_drawing != previous.pause_tile_generation_while_drawing,
        SettingsAction::ApplyPauseWhileDrawing,
    );
    let requests = only_if(
        requests_changed(previous, current),
        SettingsAction::ApplyTileRequestSettings,
    );
    let storage = only_if(
        current.storage_commit_mode != previous.storage_commit_mode,
        SettingsAction::ApplyStorageCommitMode,
    );
    let logging = only_if(
        current.session_logging != previous.session_logging,
        SettingsAction::ApplySessionLogging,
    );
    let saved = only_if(true, SettingsAction::SaveSettings);
    lemma_contained_if(
        current.depth_capture_radius != previous.depth_capture_radius,
        SettingsAction::ClearObjectSelection,
        action,
    );
    lemma_contained_if(
        scheduler_changed(previous, current),
        SettingsAction::RecreateTileScheduler,
        action,
    );
    lemma_contained_if(
        !scheduler_changed(previous, current) && current.tile_resolution_px
            != previous.tile_resolution_px,
        SettingsAction::InvalidateTileRendering,
        action,
    );
    lemma_contained_if(
        current.pause_tile_generation != previous.pause_tile_generation,
        SettingsAction::ApplyTileGenerationPause,
        action,
    );
    lemma_contained_if(
        current.pause_tile_generation_while_drawing != previous.pause_tile_generation_while_drawing,
        SettingsAction::ApplyPauseWhileDrawing,
        action,
    );
    lemma_contained_if(
        requests_changed(previous, current),
        SettingsAction::ApplyTileRequestSettings,
        action,
    );
    lemma_contained_if(
        current.storage_commit_mode != previous.storage_commit_mode,
        SettingsAction::ApplyStorageCommitMode,
        action,
    );
    lemma_contained_if(
        current.session_logging != previous.session_logging,
        SettingsAction::ApplySessionLogging,
        action,
    );
    lemma_contained_if(true, SettingsAction::SaveSettings, action);
    lemma_contained_in_either(selection, recreate, action);
    lemma_contained_in_either(selection + recreate, invalidate, action);
    lemma_contained_in_either(selection + recreate + invalidate, pause, action);
    lemma_contained_in_either(selection + recreate + invalidate + pause, drawing, action);
    lemma_contained_in_either(
        selection + recreate + invalidate + pause + drawing,
        requests,
        action,
    );
    lemma_contained_in_either(
        selection + recreate + invalidate + pause + drawing + requests,
        storage,
        action,
    );
    lemma_contained_in_either(
        selection + recreate + invalidate + pause + drawing + requests + storage,
        logging,
        action,
    );
    lemma_contained_in_either(
        selection + recreate + invalidate + pause + drawing + requests + storage + logging,
        saved,
        action,
    );
    assert(saved =~= seq![SettingsAction::SaveSettings]);
}

/// Each setting that is changed sets in motion what depends on it.
pub proof fn law_every_change_is_acted_on(previous: WatchedSettings, current: WatchedSettings)
    ensures
        ({
            let actions = change_actions(previous, current);
            let rebuilt = actions.contains(SettingsAction::RecreateTileScheduler);
            let requested = actions.contains(SettingsAction::ApplyTileRequestSettings);
            &&& previous.tile_worker_count != current.tile_worker_count ==> rebuilt
            &&& previous.edge_quality != current.edge_quality ==> rebuilt
            &&& previous.smoothing != current.smoothing ==> rebuilt
            &&& previous.cache_size_mib != current.cache_size_mib ==> rebuilt
            &&& previous.png_compression != current.png_compression ==> rebuilt
            &&& previous.tile_resolution_px != current.tile_resolution_px ==> rebuilt
                || actions.contains(SettingsAction::InvalidateTileRendering)
            &&& previous.tile_rebuild_policy != current.tile_rebuild_policy ==> requested
            &&& previous.tile_prefetch_radius != current.tile_prefetch_radius ==> requested
            &&& previous.distant_tiles_enabled != current.distant_tiles_enabled ==> requested
            &&& previous.vector_depth_radius != current.vector_depth_radius ==> requested
            &&& previous.depth_capture_radius != current.depth_capture_radius
                <==> actions.contains(SettingsAction::ClearObjectSelection)
            &&& previous.pause_tile_generation != current.pause_tile_generation
                <==> actions.contains(SettingsAction::ApplyTileGenerationPause)
            &&& previous.pause_tile_generation_while_drawing
                != current.pause_tile_generation_while_drawing <==> actions.contains(
                SettingsAction::ApplyPauseWhileDrawing,
            )
            &&& previous.storage_commit_mode != current.storage_commit_mode
                <==> actions.contains(SettingsAction::ApplyStorageCommitMode)
            &&& previous.session_logging != current.session_logging <==> actions.contains(
                SettingsAction::ApplySessionLogging,
            )
        }),
{
    lemma_action_is_set_in_motion(previous, current, SettingsAction::RecreateTileScheduler);
    lemma_action_is_set_in_motion(previous, current, SettingsAction::InvalidateTileRendering);
    lemma_action_is_set_in_motion(previous, current, SettingsAction::ApplyTileRequestSettings);
    lemma_action_is_set_in_motion(previous, current, SettingsAction::ClearObjectSelection);
    lemma_action_is_set_in_motion(previous, current, SettingsAction::ApplyTileGenerationPause);
    lemma_action_is_set_in_motion(previous, current, SettingsAction::ApplyPauseWhileDrawing);
    lemma_action_is_set_in_motion(previous, current, SettingsAction::ApplyStorageCommitMode);
    lemma_action_is_set_in_motion(previous, current, SettingsAction::ApplySessionLogging);
}

} // verus!
