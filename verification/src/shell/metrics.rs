//! Counters of a running playtest, made ready for the editor.

use crate::math::{clamp_i32, clamp_int, saturate_i32};
use vstd::prelude::*;

verus! {

/// Positions are counted from this far below zero.
pub const DEBUG_MAP_POSITION_BIAS: i32 = 1_000_000;

/// Sines and cosines are counted from this far below zero, which is also their
/// greatest size.
pub const VIEW_BASIS_BIAS: i32 = 4096;

/// A set of rooms in two halves.
#[derive(Clone, Copy, Debug, PartialEq, Eq, Structural)]
pub struct MaskHalves {
    pub lo: u32,
    pub hi: u32,
}

/// Sets of rooms as the guest counts them.
#[derive(Clone, Copy, Debug, PartialEq, Eq, Structural)]
pub struct RoomMasks {
    pub loaded: MaskHalves,
    pub loading: MaskHalves,
    pub active: MaskHalves,
    pub drawn: MaskHalves,
    pub portal_visible: MaskHalves,
    pub portal_frontier: MaskHalves,
    pub portal_missing: MaskHalves,
    pub portal_build_failed: MaskHalves,
    pub portal_tested: MaskHalves,
    pub portal_accepted: MaskHalves,
    pub portal_reject_frustum: MaskHalves,
    pub portal_bounds_fallback: MaskHalves,
    pub portal_tested_portal: MaskHalves,
    pub portal_accepted_portal: MaskHalves,
    pub portal_reject_frustum_portal: MaskHalves,
    pub portal_bounds_fallback_portal: MaskHalves,
}

/// Positions and views as the guest counts them.
#[derive(Clone, Copy, Debug, PartialEq, Eq, Structural)]
pub struct PoseCounters {
    pub player_room_index: u32,
    pub portal_current_room_index: u32,
    pub player_local_x: u32,
    pub player_local_z: u32,
    pub player_view_yaw: u32,
    pub camera_local_x: u32,
    pub camera_local_y: u32,
    pub camera_local_z: u32,
    pub camera_global_x: u32,
    pub camera_global_y: u32,
    pub camera_global_z: u32,
    pub camera_sin_yaw: u32,
    pub camera_cos_yaw: u32,
    pub camera_sin_pitch: u32,
    pub camera_cos_pitch: u32,
}

/// Peaks of the guest's counters.
#[derive(Clone, Copy, Debug, PartialEq, Eq, Structural)]
pub struct RecentCounters {
    pub chunk_visible: u32,
    pub chunk_loaded: u32,
    pub chunk_candidates: u32,
    pub chunk_built: u32,
    pub chunk_cache_skips: u32,
    pub portal_visible_rooms: u32,
    pub portal_frontier_rooms: u32,
    pub portal_missing_resident: u32,
    pub portal_build_failed: u32,
    pub portal_tests: u32,
    pub portal_accepts: u32,
    pub portal_bounds_fallbacks: u32,
    pub stream_requests: u32,
    pub stream_misses: u32,
    pub stream_prefetches: u32,
    pub stream_evictions: u32,
    pub stream_slot_limit: u32,
    pub stream_pending: u32,
    pub stream_failed: u32,
    pub stream_protected_full: u32,
    pub vram_texture_drops: u32,
    pub room_material_slot_overflow: u32,
    pub room_visibility_fallback_draws: u32,
    pub portal_reject_backface: u32,
    pub portal_reject_frustum: u32,
    pub portal_reject_tiny: u32,
    pub portal_cap_room: u32,
    pub portal_cap_frustum: u32,
    pub portal_cap_depth: u32,
    pub stream_priority_current: u32,
    pub stream_priority_visible: u32,
    pub stream_priority_frontier: u32,
    pub vram_slot_table_full: u32,
    pub vram_window_full: u32,
    pub vram_clut_full: u32,
    pub vram_upload_queue_full: u32,
}

/// One sample of the profile.
#[derive(Clone, Copy, Debug, PartialEq, Eq, Structural)]
pub struct ProfileSample {
    pub serial: u64,
    pub recent: RecentCounters,
    pub masks: RoomMasks,
    pub pose: PoseCounters,
}

/// A set of rooms that the guest may count.
#[derive(Clone, Copy, Debug, PartialEq, Eq, Structural)]
pub enum RoomMask {
    Loaded,
    Loading,
    Active,
    Drawn,
    PortalVisible,
    PortalFrontier,
    PortalMissing,
    PortalBuildFailed,
    PortalTested,
    PortalAccepted,
    PortalRejectFrustum,
    PortalBoundsFallback,
    PortalTestedPortal,
    PortalAcceptedPortal,
    PortalRejectFrustumPortal,
    PortalBoundsFallbackPortal,
}

/// A counter of the map: half of a set of rooms, or part of a position or view.
#[derive(Clone, Copy, Debug, PartialEq, Eq, Structural)]
pub enum MapCounter {
    MaskLo(RoomMask),
    MaskHi(RoomMask),
    PlayerRoomIndex,
    PortalCurrentRoom,
    PlayerLocalX,
    PlayerLocalZ,
    PlayerViewYaw,
    CameraLocalX,
    CameraLocalY,
    CameraLocalZ,
    CameraGlobalX,
    CameraGlobalY,
    CameraGlobalZ,
    CameraSinYaw,
    CameraCosYaw,
    CameraSinPitch,
    CameraCosPitch,
}

/// What a sample is looked for by.
#[derive(Clone, Copy, Debug, PartialEq, Eq, Structural)]
pub enum MapQuery {
    /// A counter of the map that is drawn: any but the set of loaded rooms.
    RenderMap,
    /// A counter of the map.
    ChunkMap,
    /// Both level parts of the player's place in its room and of the camera's
    /// place in the world.
    Pose,
}

/// A sample carries what is looked for, by the counters that the guest sent.
pub open spec fn carries(present: Seq<MapCounter>, query: MapQuery) -> bool {
    match query {
        MapQuery::RenderMap => exists|i: int|
            0 <= i < present.len() && (#[trigger] present[i]) != MapCounter::MaskLo(
                RoomMask::Loaded,
            ) && present[i] != MapCounter::MaskHi(RoomMask::Loaded),
        MapQuery::ChunkMap => present.len() > 0,
        MapQuery::Pose => {
            &&& present.contains(MapCounter::PlayerLocalX)
            &&& present.contains(MapCounter::PlayerLocalZ)
            &&& present.contains(MapCounter::CameraGlobalX)
            &&& present.contains(MapCounter::CameraGlobalZ)
        },
    }
}

/// A sample with the map counters that the guest sent for it.
#[derive(Debug, PartialEq, Eq)]
pub struct RecordedSample {
    pub sample: ProfileSample,
    pub present: Vec<MapCounter>,
}

/// What the profile holds.
#[derive(Debug, PartialEq, Eq)]
pub struct ProfileHistory {
    /// The samples, oldest first.
    pub samples: Vec<RecordedSample>,
    /// Average over the last moments.
    pub live_average: Option<ProfileSample>,
    pub average: Option<ProfileSample>,
}

/// The newest sample.
pub open spec fn latest_sample(samples: Seq<RecordedSample>) -> Option<ProfileSample> {
    if samples.len() == 0 {
        None
    } else {
        Some(samples.last().sample)
    }
}

/// The newest sample that carries what is looked for.
pub open spec fn latest_with(samples: Seq<RecordedSample>, query: MapQuery) -> Option<ProfileSample>
    decreases samples.len(),
{
    if samples.len() == 0 {
        None
    } else if carries(samples.last().present@, query) {
        Some(samples.last().sample)
    } else {
        latest_with(samples.drop_last(), query)
    }
}

fn has_counter(present: &Vec<MapCounter>, counter: MapCounter) -> (found: bool)
    ensures
        found == present@.contains(counter),
{
    for i in 0..present.len()
        invariant
            forall|j: int| 0 <= j < i ==> present@[j] != counter,
    {
        if present[i] == counter {
            assert(present@[i as int] == counter);
            return true;
        }
    }
    false
}

fn has_render_counter(present: &Vec<MapCounter>) -> (found: bool)
    ensures
        found == carries(present@, MapQuery::RenderMap),
{
    for i in 0..present.len()
        invariant
            forall|j: int|
                0 <= j < i ==> (#[trigger] present@[j]) == MapCounter::MaskLo(RoomMask::Loaded)
                    || present@[j] == MapCounter::MaskHi(RoomMask::Loaded),
    {
        let loaded = matches!(
            present[i],
            MapCounter::MaskLo(RoomMask::Loaded) | MapCounter::MaskHi(RoomMask::Loaded)
        );
        if !loaded {
            assert(present@[i as int] != MapCounter::MaskLo(RoomMask::Loaded));
            return true;
        }
    }
    false
}

fn sample_carries(present: &Vec<MapCounter>, query: MapQuery) -> (result: bool)
    ensures
        result == carries(present@, query),
{
    match query {
        MapQuery::RenderMap => has_render_counter(present),
        MapQuery::ChunkMap => present.len() > 0,
        MapQuery::Pose => has_counter(present, MapCounter::PlayerLocalX) && has_counter(
            present,
            MapCounter::PlayerLocalZ,
        ) && has_counter(present, MapCounter::CameraGlobalX) && has_counter(
            present,
            MapCounter::CameraGlobalZ,
        ),
    }
}

/// The newest sample that carries what is looked for.
pub fn find_latest_with(samples: &Vec<RecordedSample>, query: MapQuery) -> (sample: Option<
    ProfileSample,
>)
    ensures
        sample == latest_with(samples@, query),
{
    let mut left: usize = samples.len();
    assert(samples@.take(left as int) =~= samples@);
    while left > 0
        invariant
            left <= samples@.len(),
            latest_with(samples@, query) == latest_with(samples@.take(left as int), query),
        decreases left,
    {
        let ghost rest = samples@.take(left as int);
        left = left - 1;
        assert(rest.drop_last() =~= samples@.take(left as int));
        assert(rest.last() == samples@[left as int]);
        if sample_carries(&samples[left].present, query) {
            return Some(samples[left].sample);
        }
    }
    None
}

/// What the editor shows of a playtest, as far as it is counted in whole
/// numbers.
#[derive(Clone, Copy, Debug, PartialEq, Eq)]
pub struct EditorPlaytestMetrics {
    pub sample_serial: u64,
    pub chunk_visible: u32,
    pub chunk_loaded: u32,
    pub chunk_candidates: u32,
    pub chunk_built: u32,
    pub chunk_cache_skips: u32,
    pub portal_visible_rooms: u32,
    pub portal_frontier_rooms: u32,
    pub portal_missing_resident: u32,
    pub portal_build_failed: u32,
    pub portal_tests: u32,
    pub portal_accepts: u32,
    pub portal_bounds_fallbacks: u32,
    pub stream_requests: u32,
    pub stream_misses: u32,
    pub stream_prefetches: u32,
    pub stream_evictions: u32,
    pub stream_slot_limit: u32,
    pub stream_pending: u32,
    pub stream_failed: u32,
    pub stream_protected_full: u32,
    pub vram_texture_drops: u32,
    pub room_material_slot_overflow: u32,
    pub room_visibility_fallback_draws: u32,
    pub portal_rejects: [u32; 3],
    pub portal_caps: [u32; 3],
    pub stream_priorities: [u32; 3],
    pub vram_caps_full: [u32; 4],
    pub chunk_loaded_mask: u64,
    pub chunk_loading_mask: u64,
    pub chunk_active_mask: u64,
    pub chunk_drawn_mask: u64,
    pub portal_visible_mask: u64,
    pub portal_frontier_mask: u64,
    pub portal_missing_mask: u64,
    pub portal_build_failed_mask: u64,
    pub portal_tested_mask: u64,
    pub portal_accepted_mask: u64,
    pub portal_reject_frustum_mask: u64,
    pub portal_bounds_fallback_mask: u64,
    pub portal_tested_portal_mask: u64,
    pub portal_accepted_portal_mask: u64,
    pub portal_reject_frustum_portal_mask: u64,
    pub portal_bounds_fallback_portal_mask: u64,
    pub player_map_valid: bool,
    pub player_room_index: u32,
    pub portal_current_room_index: u32,
    pub player_local_x: i32,
    pub player_local_z: i32,
    pub player_view_yaw_q12: u16,
    pub camera_view_basis_valid: bool,
    pub camera_view_sin_yaw_q12: i32,
    pub camera_view_cos_yaw_q12: i32,
    pub camera_view_sin_pitch_q12: i32,
    pub camera_view_cos_pitch_q12: i32,
    pub camera_map_valid: bool,
    pub camera_global_valid: bool,
    pub camera_local_x: i32,
    pub camera_local_y: i32,
    pub camera_local_z: i32,
    pub camera_global_x: i32,
    pub camera_global_y: i32,
    pub camera_global_z: i32,
}

/// A number that was counted from below zero.
pub open spec fn unbiased(value: u32, bias: i32) -> int {
    saturate_i32(value - bias)
}

/// A number that was counted from below zero.
pub fn profile_counter_i32_biased(value: u32, bias: i32) -> (result: i32)
    ensures
        result == unbiased(value, bias),
{
    let wide: i64 = value as i64 - bias as i64;
    if wide < i32::MIN as i64 {
        i32::MIN
    } else if wide > i32::MAX as i64 {
        i32::MAX
    } else {
        wide as i32
    }
}

/// A set of rooms in one piece.
pub open spec fn whole_mask(halves: MaskHalves) -> int {
    halves.lo + halves.hi * 0x1_0000_0000
}

/// A set of rooms in one piece.
pub fn chunk_mask(halves: MaskHalves) -> (mask: u64)
    ensures
        mask == whole_mask(halves),
{
    let lo: u64 = halves.lo as u64;
    let hi: u64 = halves.hi as u64;
    assert(lo | (hi << 32) == lo + hi * 0x1_0000_0000) by (bit_vector)
        requires
            lo <= 0xFFFF_FFFF,
            hi <= 0xFFFF_FFFF,
    ;
    lo | (hi << 32)
}

/// A sine or cosine that was counted from below zero.
pub open spec fn basis_part(value: u32) -> int {
    clamp_int(unbiased(value, VIEW_BASIS_BIAS), -4096, 4096)
}

fn view_basis(value: u32) -> (part: i32)
    ensures
        part == basis_part(value),
{
    clamp_i32(profile_counter_i32_biased(value, VIEW_BASIS_BIAS), -4096, 4096)
}

/// The sample that the counters are read from: an average where there is one.
pub open spec fn shown_sample(history: ProfileHistory, latest: ProfileSample) -> ProfileSample {
    match (history.live_average, history.average) {
        (Some(sample), _) => sample,
        (None, Some(sample)) => sample,
        (None, None) => latest,
    }
}

/// The sample that the sets of rooms are read from: the newest one of the drawn
/// map, else the newest one of the map.
pub open spec fn map_sample(history: ProfileHistory, latest: ProfileSample) -> ProfileSample {
    match (
        latest_with(history.samples@, MapQuery::RenderMap),
        latest_with(history.samples@, MapQuery::ChunkMap),
    ) {
        (Some(sample), _) => sample,
        (None, Some(sample)) => sample,
        (None, None) => shown_sample(history, latest),
    }
}

/// The sample that positions are read from: the newest one with a position.
pub open spec fn pose_sample(history: ProfileHistory, latest: ProfileSample) -> ProfileSample {
    match latest_with(history.samples@, MapQuery::Pose) {
        Some(sample) => sample,
        None => map_sample(history, latest),
    }
}

/// The peaks are those of a sample.
pub open spec fn shows_recent(metrics: EditorPlaytestMetrics, recent: RecentCounters) -> bool {
    &&& metrics.chunk_visible == recent.chunk_visible
    &&& metrics.chunk_loaded == recent.chunk_loaded
    &&& metrics.chunk_candidates == recent.chunk_candidates
    &&& metrics.chunk_built == recent.chunk_built
    &&& metrics.chunk_cache_skips == recent.chunk_cache_skips
    &&& metrics.portal_visible_rooms == recent.portal_visible_rooms
    &&& metrics.portal_frontier_rooms == recent.portal_frontier_rooms
    &&& metrics.portal_missing_resident == recent.portal_missing_resident
    &&& metrics.portal_build_failed == recent.portal_build_failed
    &&& metrics.portal_tests == recent.portal_tests
    &&& metrics.portal_accepts == recent.portal_accepts
    &&& metrics.portal_bounds_fallbacks == recent.portal_bounds_fallbacks
    &&& metrics.stream_requests == recent.stream_requests
    &&& metrics.stream_misses == recent.stream_misses
    &&& metrics.stream_prefetches == recent.stream_prefetches
    &&& metrics.stream_evictions == recent.stream_evictions
    &&& metrics.stream_slot_limit == recent.stream_slot_limit
    &&& metrics.stream_pending == recent.stream_pending
    &&& metrics.stream_failed == recent.stream_failed
    &&& metrics.stream_protected_full == recent.stream_protected_full
    &&& metrics.vram_texture_drops == recent.vram_texture_drops
    &&& metrics.room_material_slot_overflow == recent.room_material_slot_overflow
    &&& metrics.room_visibility_fallback_draws == recent.room_visibility_fallback_draws
    &&& metrics.portal_rejects@ == seq![
        recent.portal_reject_backface,
        recent.portal_reject_frustum,
        recent.portal_reject_tiny,
    ]
    &&& metrics.portal_caps@ == seq![
        recent.portal_cap_room,
        recent.portal_cap_frustum,
        recent.portal_cap_depth,
    ]
    &&& metrics.stream_priorities@ == seq![
        recent.stream_priority_current,
        recent.stream_priority_visible,
        recent.stream_priority_frontier,
    ]
    &&& metrics.vram_caps_full@ == seq![
        recent.vram_slot_table_full,
        recent.vram_window_full,
        recent.vram_clut_full,
        recent.vram_upload_queue_full,
    ]
}

/// The sets of rooms are those of a sample.
pub open spec fn shows_masks(metrics: EditorPlaytestMetrics, masks: RoomMasks) -> bool {
    &&& metrics.chunk_loaded_mask == whole_mask(masks.loaded)
    &&& metrics.chunk_loading_mask == whole_mask(masks.loading)
    &&& metrics.chunk_active_mask == whole_mask(masks.active)
    &&& metrics.chunk_drawn_mask == whole_mask(masks.drawn)
    &&& metrics.portal_visible_mask == whole_mask(masks.portal_visible)
    &&& metrics.portal_frontier_mask == whole_mask(masks.portal_frontier)
    &&& metrics.portal_missing_mask == whole_mask(masks.portal_missing)
    &&& metrics.portal_build_failed_mask == whole_mask(masks.portal_build_failed)
    &&& metrics.portal_tested_mask == whole_mask(masks.portal_tested)
    &&& metrics.portal_accepted_mask == whole_mask(masks.portal_accepted)
    &&& metrics.portal_reject_frustum_mask == whole_mask(masks.portal_reject_frustum)
    &&& metrics.portal_bounds_fallback_mask == whole_mask(masks.portal_bounds_fallback)
    &&& metrics.portal_tested_portal_mask == whole_mask(masks.portal_tested_portal)
    &&& metrics.portal_accepted_portal_mask == whole_mask(masks.portal_accepted_portal)
    &&& metrics.portal_reject_frustum_portal_mask == whole_mask(masks.portal_reject_frustum_portal)
    &&& metrics.portal_bounds_fallback_portal_mask == whole_mask(masks.portal_bounds_fallback_portal)
}

/// Positions and views are those of a sample; they count only if the sample
/// had every counter of a position.
pub open spec fn shows_pose(
    metrics: EditorPlaytestMetrics,
    pose: PoseCounters,
    valid: bool,
) -> bool {
    &&& metrics.player_map_valid == valid
    &&& metrics.player_room_index == pose.player_room_index
    &&& metrics.portal_current_room_index == pose.portal_current_room_index
    &&& metrics.player_local_x == unbiased(pose.player_local_x, DEBUG_MAP_POSITION_BIAS)
    &&& metrics.player_local_z == unbiased(pose.player_local_z, DEBUG_MAP_POSITION_BIAS)
    &&& metrics.player_view_yaw_q12 == if pose.player_view_yaw <= u16::MAX {
        pose.player_view_yaw as int
    } else {
        u16::MAX as int
    }
    &&& metrics.camera_view_basis_valid == (valid && (pose.camera_sin_yaw > 0
        || pose.camera_cos_yaw > 0 || pose.camera_sin_pitch > 0 || pose.camera_cos_pitch > 0))
    &&& metrics.camera_view_sin_yaw_q12 == basis_part(pose.camera_sin_yaw)
    &&& metrics.camera_view_cos_yaw_q12 == basis_part(pose.camera_cos_yaw)
    &&& metrics.camera_view_sin_pitch_q12 == basis_part(pose.camera_sin_pitch)
    &&& metrics.camera_view_cos_pitch_q12 == basis_part(pose.camera_cos_pitch)
    &&& metrics.camera_map_valid == (valid && (pose.camera_local_x > 0 || pose.camera_local_y > 0
        || pose.camera_local_z > 0))
    &&& metrics.camera_global_valid == (valid && (pose.camera_global_x > 0
        || pose.camera_global_y > 0 || pose.camera_global_z > 0))
    &&& metrics.camera_local_x == unbiased(pose.camera_local_x, DEBUG_MAP_POSITION_BIAS)
    &&& metrics.camera_local_y == unbiased(pose.camera_local_y, DEBUG_MAP_POSITION_BIAS)
    &&& metrics.camera_local_z == unbiased(pose.camera_local_z, DEBUG_MAP_POSITION_BIAS)
    &&& metrics.camera_global_x == unbiased(pose.camera_global_x, DEBUG_MAP_POSITION_BIAS)
    &&& metrics.camera_global_y == unbiased(pose.camera_global_y, DEBUG_MAP_POSITION_BIAS)
    &&& metrics.camera_global_z == unbiased(pose.camera_global_z, DEBUG_MAP_POSITION_BIAS)
}

fn choose_shown(history: &ProfileHistory, latest: ProfileSample) -> (sample: ProfileSample)
    ensures
        sample == shown_sample(*history, latest),
{
    match (history.live_average, history.average) {
        (Some(sample), _) => sample,
        (None, Some(sample)) => sample,
        (None, None) => latest,
    }
}

fn choose_map(history: &ProfileHistory, latest: ProfileSample) -> (sample: ProfileSample)
    ensures
        sample == map_sample(*history, latest),
{
    if let Some(sample) = find_latest_with(&history.samples, MapQuery::RenderMap) {
        return sample;
    }
    match find_latest_with(&history.samples, MapQuery::ChunkMap) {
        Some(sample) => sample,
        None => choose_shown(history, latest),
    }
}

/// What the editor shows of a playtest; nothing before the first sample.
pub fn editor_play_metrics(history: &ProfileHistory) -> (metrics: Option<EditorPlaytestMetrics>)
    ensures
        match (metrics, latest_sample(history.samples@)) {
            (None, None) => true,
            (Some(metrics), Some(latest)) => {
                &&& metrics.sample_serial == latest.serial
                &&& shows_recent(metrics, shown_sample(*history, latest).recent)
                &&& shows_masks(metrics, map_sample(*history, latest).masks)
                &&& shows_pose(
                    metrics,
                    pose_sample(*history, latest).pose,
                    latest_with(history.samples@, MapQuery::Pose) is Some,
                )
            },
            _ => false,
        },
{
    if history.samples.len() == 0 {
        return None;
    }
    let latest = history.samples[history.samples.len() - 1].sample;
    let recent = choose_shown(history, latest).recent;
    let masks = choose_map(history, latest).masks;
    let posed = find_latest_with(&history.samples, MapQuery::Pose);
    let valid = posed.is_some();
    let pose = match posed {
        Some(sample) => sample.pose,
        None => choose_map(history, latest).pose,
    };
    let yaw: u16 = if pose.player_view_yaw <= 0xFFFF {
        pose.player_view_yaw as u16
    } else {
        0xFFFF
    };
    let metrics = EditorPlaytestMetrics {
        sample_serial: latest.serial,
        chunk_visible: recent.chunk_visible,
        chunk_loaded: recent.chunk_loaded,
        chunk_candidates: recent.chunk_candidates,
        chunk_built: recent.chunk_built,
        chunk_cache_skips: recent.chunk_cache_skips,
        portal_visible_rooms: recent.portal_visible_rooms,
        portal_frontier_rooms: recent.portal_frontier_rooms,
        portal_missing_resident: recent.portal_missing_resident,
        portal_build_failed: recent.portal_build_failed,
        portal_tests: recent.portal_tests,
        portal_accepts: recent.portal_accepts,
        portal_bounds_fallbacks: recent.portal_bounds_fallbacks,
        stream_requests: recent.stream_requests,
        stream_misses: recent.stream_misses,
        stream_prefetches: recent.stream_prefetches,
        stream_evictions: recent.stream_evictions,
        stream_slot_limit: recent.stream_slot_limit,
        stream_pending: recent.stream_pending,
        stream_failed: recent.stream_failed,
        stream_protected_full: recent.stream_protected_full,
        vram_texture_drops: recent.vram_texture_drops,
        room_material_slot_overflow: recent.room_material_slot_overflow,
        room_visibility_fallback_draws: recent.room_visibility_fallback_draws,
        portal_rejects: [
            recent.portal_reject_backface,
            recent.portal_reject_frustum,
            recent.portal_reject_tiny,
        ],
        portal_caps: [recent.portal_cap_room, recent.portal_cap_frustum, recent.portal_cap_depth],
        stream_priorities: [
            recent.stream_priority_current,
            recent.stream_priority_visible,
            recent.stream_priority_frontier,
        ],
        vram_caps_full: [
            recent.vram_slot_table_full,
            recent.vram_window_full,
            recent.vram_clut_full,
            recent.vram_upload_queue_full,
        ],
        chunk_loaded_mask: chunk_mask(masks.loaded),
        chunk_loading_mask: chunk_mask(masks.loading),
        chunk_active_mask: chunk_mask(masks.active),
        chunk_drawn_mask: chunk_mask(masks.drawn),
        portal_visible_mask: chunk_mask(masks.portal_visible),
        portal_frontier_mask: chunk_mask(masks.portal_frontier),
        portal_missing_mask: chunk_mask(masks.portal_missing),
        portal_build_failed_mask: chunk_mask(masks.portal_build_failed),
        portal_tested_mask: chunk_mask(masks.portal_tested),
        portal_accepted_mask: chunk_mask(masks.portal_accepted),
        portal_reject_frustum_mask: chunk_mask(masks.portal_reject_frustum),
        portal_bounds_fallback_mask: chunk_mask(masks.portal_bounds_fallback),
        portal_tested_portal_mask: chunk_mask(masks.portal_tested_portal),
        portal_accepted_portal_mask: chunk_mask(masks.portal_accepted_portal),
        portal_reject_frustum_portal_mask: chunk_mask(masks.portal_reject_frustum_portal),
        portal_bounds_fallback_portal_mask: chunk_mask(masks.portal_bounds_fallback_portal),
        player_map_valid: valid,
        player_room_index: pose.player_room_index,
        portal_current_room_index: pose.portal_current_room_index,
        player_local_x: profile_counter_i32_biased(pose.player_local_x, DEBUG_MAP_POSITION_BIAS),
        player_local_z: profile_counter_i32_biased(pose.player_local_z, DEBUG_MAP_POSITION_BIAS),
        player_view_yaw_q12: yaw,
        camera_view_basis_valid: valid && (pose.camera_sin_yaw > 0 || pose.camera_cos_yaw > 0
            || pose.camera_sin_pitch > 0 || pose.camera_cos_pitch > 0),
        camera_view_sin_yaw_q12: view_basis(pose.camera_sin_yaw),
        camera_view_cos_yaw_q12: view_basis(pose.camera_cos_yaw),
        camera_view_sin_pitch_q12: view_basis(pose.camera_sin_pitch),
        camera_view_cos_pitch_q12: view_basis(pose.camera_cos_pitch),
        camera_map_valid: valid && (pose.camera_local_x > 0 || pose.camera_local_y > 0
            || pose.camera_local_z > 0),
        camera_global_valid: valid && (pose.camera_global_x > 0 || pose.camera_global_y > 0
            || pose.camera_global_z > 0),
        camera_local_x: profile_counter_i32_biased(pose.camera_local_x, DEBUG_MAP_POSITION_BIAS),
        camera_local_y: profile_counter_i32_biased(pose.camera_local_y, DEBUG_MAP_POSITION_BIAS),
        camera_local_z: profile_counter_i32_biased(pose.camera_local_z, DEBUG_MAP_POSITION_BIAS),
        camera_global_x: profile_counter_i32_biased(pose.camera_global_x, DEBUG_MAP_POSITION_BIAS),
        camera_global_y: profile_counter_i32_biased(pose.camera_global_y, DEBUG_MAP_POSITION_BIAS),
        camera_global_z: profile_counter_i32_biased(pose.camera_global_z, DEBUG_MAP_POSITION_BIAS),
    };
    proof {
        assert(metrics.portal_rejects@ =~= seq![
            recent.portal_reject_backface,
            recent.portal_reject_frustum,
            recent.portal_reject_tiny,
        ]);
        assert(metrics.portal_caps@ =~= seq![
            recent.portal_cap_room,
            recent.portal_cap_frustum,
            recent.portal_cap_depth,
        ]);
        assert(metrics.stream_priorities@ =~= seq![
            recent.stream_priority_current,
            recent.stream_priority_visible,
            recent.stream_priority_frontier,
        ]);
        assert(metrics.vram_caps_full@ =~= seq![
            recent.vram_slot_table_full,
            recent.vram_window_full,
            recent.vram_clut_full,
            recent.vram_upload_queue_full,
        ]);
    }
    Some(metrics)
}

/// A number below the limits comes back as it was before it was counted from
/// below zero.
pub proof fn law_bias_is_undone(value: int, bias: i32)
    requires
        i32::MIN <= value <= i32::MAX,
        0 <= value + bias <= u32::MAX,
    ensures
        unbiased((value + bias) as u32, bias) == value,
{
}

/// The newest sample that carries something is the one behind which none does;
/// there is none exactly where no sample carries it.
pub proof fn law_newest_sample_is_found(samples: Seq<RecordedSample>, query: MapQuery, i: int)
    requires
        0 <= i < samples.len(),
        forall|j: int| i < j < samples.len() ==> !carries((#[trigger] samples[j]).present@, query),
    ensures
        carries(samples[i].present@, query) ==> latest_with(samples, query) == Some(
            samples[i].sample,
        ),
        i == 0 && !carries(samples[i].present@, query) ==> latest_with(samples, query) is None,
    decreases samples.len(),
{
    if i < samples.len() - 1 {
        assert(!carries(samples[samples.len() - 1].present@, query));
        let rest = samples.drop_last();
        assert forall|j: int| i < j < rest.len() implies !carries(
            (#[trigger] rest[j]).present@,
            query,
        ) by {
            assert(rest[j] == samples[j]);
        }
        law_newest_sample_is_found(rest, query, i);
    } else if i == 0 {
        assert(latest_with(samples.drop_last(), query) is None);
    }
}

/// A mask joins both its halves, and each can be read back.
pub open spec fn joins(mask: int, halves: MaskHalves) -> bool {
    mask % 0x1_0000_0000 == halves.lo && mask / 0x1_0000_0000 == halves.hi
}

/// Every mask that the editor shows holds both halves of the guest's counters.
pub proof fn law_masks_hold_both_halves(metrics: EditorPlaytestMetrics, masks: RoomMasks)
    requires
        shows_masks(metrics, masks),
    ensures
        joins(metrics.chunk_loaded_mask as int, masks.loaded),
        joins(metrics.chunk_loading_mask as int, masks.loading),
        joins(metrics.chunk_active_mask as int, masks.active),
        joins(metrics.chunk_drawn_mask as int, masks.drawn),
        joins(metrics.portal_visible_mask as int, masks.portal_visible),
        joins(metrics.portal_frontier_mask as int, masks.portal_frontier),
        joins(metrics.portal_missing_mask as int, masks.portal_missing),
        joins(metrics.portal_build_failed_mask as int, masks.portal_build_failed),
        joins(metrics.portal_tested_mask as int, masks.portal_tested),
        joins(metrics.portal_accepted_mask as int, masks.portal_accepted),
        joins(metrics.portal_reject_frustum_mask as int, masks.portal_reject_frustum),
        joins(metrics.portal_bounds_fallback_mask as int, masks.portal_bounds_fallback),
        joins(metrics.portal_tested_portal_mask as int, masks.portal_tested_portal),
        joins(metrics.portal_accepted_portal_mask as int, masks.portal_accepted_portal),
        joins(metrics.portal_reject_frustum_portal_mask as int, masks.portal_reject_frustum_portal),
        joins(
            metrics.portal_bounds_fallback_portal_mask as int,
            masks.portal_bounds_fallback_portal,
        ),
{
}

/// Places and directions that the guest sent with their bias added are shown as
/// they were.
pub proof fn law_pose_is_read_back(
    metrics: EditorPlaytestMetrics,
    pose: PoseCounters,
    valid: bool,
    x: int,
    z: int,
    sin: int,
    cos: int,
)
    requires
        shows_pose(metrics, pose, valid),
        -1_000_000 <= x <= 1_000_000,
        -1_000_000 <= z <= 1_000_000,
        -4096 <= sin <= 4096,
        -4096 <= cos <= 4096,
    ensures
        pose.player_local_x == x + 1_000_000 ==> metrics.player_local_x == x,
        pose.player_local_z == z + 1_000_000 ==> metrics.player_local_z == z,
        pose.camera_local_x == x + 1_000_000 ==> metrics.camera_local_x == x,
        pose.camera_local_y == x + 1_000_000 ==> metrics.camera_local_y == x,
        pose.camera_local_z == z + 1_000_000 ==> metrics.camera_local_z == z,
        pose.camera_global_x == x + 1_000_000 ==> metrics.camera_global_x == x,
        pose.camera_global_y == x + 1_000_000 ==> metrics.camera_global_y == x,
        pose.camera_global_z == z + 1_000_000 ==> metrics.camera_global_z == z,
        pose.camera_sin_yaw == sin + 4096 ==> metrics.camera_view_sin_yaw_q12 == sin,
        pose.camera_cos_yaw == cos + 4096 ==> metrics.camera_view_cos_yaw_q12 == cos,
        pose.camera_sin_pitch == sin + 4096 ==> metrics.camera_view_sin_pitch_q12 == sin,
        pose.camera_cos_pitch == cos + 4096 ==> metrics.camera_view_cos_pitch_q12 == cos,
        pose.player_view_yaw < 4096 ==> metrics.player_view_yaw_q12 == pose.player_view_yaw,
        !valid ==> !metrics.player_map_valid && !metrics.camera_map_valid
            && !metrics.camera_global_valid && !metrics.camera_view_basis_valid,
        valid ==> metrics.player_map_valid,
        valid ==> (!metrics.camera_map_valid <==> pose.camera_local_x == 0 && pose.camera_local_y
            == 0 && pose.camera_local_z == 0),
        valid ==> (!metrics.camera_global_valid <==> pose.camera_global_x == 0
            && pose.camera_global_y == 0 && pose.camera_global_z == 0),
        valid ==> (!metrics.camera_view_basis_valid <==> pose.camera_sin_yaw == 0
            && pose.camera_cos_yaw == 0 && pose.camera_sin_pitch == 0 && pose.camera_cos_pitch
            == 0),
{
}

/// The map comes from the newest sample of the drawn map, else of any map; the
/// pose from the newest sample that has one. Averages are shown first of all.
pub proof fn law_samples_are_chosen_by_what_they_carry(history: ProfileHistory, latest: ProfileSample)
    ensures
        latest_with(history.samples@, MapQuery::RenderMap) matches Some(sample) ==> map_sample(
            history,
            latest,
        ) == sample,
        latest_with(history.samples@, MapQuery::RenderMap) is None ==> (latest_with(
            history.samples@,
            MapQuery::ChunkMap,
        ) matches Some(sample) ==> map_sample(history, latest) == sample),
        latest_with(history.samples@, MapQuery::Pose) matches Some(sample) ==> pose_sample(
            history,
            latest,
        ) == sample,
        history.live_average matches Some(sample) ==> shown_sample(history, latest) == sample,
        history.live_average is None ==> (history.average matches Some(sample) ==> shown_sample(
            history,
            latest,
        ) == sample),
        history.live_average is None && history.average is None ==> shown_sample(history, latest)
            == latest,
{
}

} // verus!
