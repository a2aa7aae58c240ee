use frontend::preview::backdrop::{
    active_far_vista_panel_count, clear_packet, far_vista_heights, far_vista_segments,
    far_vista_texture_for_segment, preview_cyclorama_quad_outside_screen,
    preview_project_cyclorama_direction, preview_vertices_in_front, push_backdrop_quad,
    BackdropQuad, FarVistaTextures, ViewDirection,
};
use frontend::preview::camera::{
    camera_local, dot_view_world, preview_view_rotation, view_shift, view_translation,
    world_to_view, CameraBasis, MAX_VIEW_RADIUS, Q12_ONE,
};
use frontend::preview::clip::{clip_preview_brush_polygon, PreviewClipVertex};
use frontend::preview::grid::{
    Corner, GridDirection, GridHorizontalFace, GridSector, GridVerticalFace, HorizontalTriangle,
    ResourceId, WallCorner, WorldGrid,
};
use frontend::preview::lights::{collect_preview_lights, LightNode, LightSample};
use frontend::preview::material::{
    BlendMode, FaceShade, MaterialFaceSidedness, MaterialSlot, TextureWindow,
};
use frontend::preview::overlays::{
    aabb_corners, adaptive_grid_value, bright_overlay_color, box_wireframe, clip_view_segment,
    grid_candidate_selected, grid_index_count, grid_index_range, leak_steps, level_point,
    light_bulb_icon, light_gizmo, opening_marker, ring_angle, view_segment_near_intersection,
    visible_runs, walk_entity_bounds, BulbStroke, EntityBoundKind, EntityBounds, GridRange,
    StrokeWeight, VisibleRun, BSP_SURFACE_GRID_DARK, BSP_SURFACE_GRID_LIGHT,
    BSP_SURFACE_GRID_LINES_PER_AXIS, BSP_SURFACE_GRID_SEGMENT_CAP,
};
use frontend::preview::particles::{
    particle_samples, preview_particle_lerp_u8, preview_particle_seed,
    preview_particle_signed_spread, push_particle_preview_sample, ParticleEmitterSettings,
    ParticleLimits,
};
use frontend::preview::poi::{
    beacon_outline, beacon_shape, beacon_style, beacon_yaw, poi_face_world_points,
    poi_preview_style, push_point_of_interest_beacon, PoiFacts,
};
use frontend::preview::portals::{
    portal_edge_height_span_for_world_cell, portal_edge_wall_corners_for_world_cell,
    portal_neighbour_world_cell, portal_seam_runs, walk_portal_seams, PortalEdge, PortalSeamRun,
    SeamNode,
};
use frontend::preview::primitives::{
    clamp_preview_projected, face_side_visible, preview_projected_triangle_hw_safe, push_tex_tri,
    push_tri, push_tri_colors, room_depth_slot, shadow_depth_slot,
    split_preview_projected_triangle, PreviewScratch, PreviewTriangle, PREVIEW_GEOMETRY_SLOT_MAX,
    PREVIEW_GEOMETRY_SLOT_MIN, PREVIEW_SHADOW_DEPTH_BIAS,
};
use frontend::preview::room_geometry::{
    horizontal_triangle_world_points, push_wall_face, wall_face_center,
    wall_material_sidedness_for_edge, wall_side_visible, wall_world_points, WallPlacement, WallView,
};
use frontend::preview::scene::{NodeId, Scene, SceneNode, SceneNodeKind};
use frontend::preview::screen::{Projected, ViewVertex, WorldProjection, WorldVertex};
use frontend::preview::shading::{
    animated_material_frame, animated_material_quad_uvs, material_blend_mode, material_color,
    material_sized_uvs, material_texture_tint, should_draw_culled_face_outline,
    MaterialAnimationMode, PlayedAnimation, PreviewFog, PsxBlendMode, ShadeMaterial, ShadeProject,
    ShadeResource, GRID_TILE_UV, PREVIEW_FLOOR_UVS,
};
use frontend::preview::visible_rooms::{
    preview_room_grids, visible_room_grids, PreviewFloor, ResolvedFloor, RoomFocus,
};

fn flat(r: u8, g: u8, b: u8) -> FaceShade {
    flat_sided(r, g, b, MaterialFaceSidedness::Front)
}

fn flat_sided(r: u8, g: u8, b: u8, sidedness: MaterialFaceSidedness) -> FaceShade {
    FaceShade::Flat { rgb: (r, g, b), sidedness }
}

fn unpack(shade: FaceShade) -> (u8, u8, u8) {
    match shade {
        FaceShade::Flat { rgb, .. } => rgb,
        FaceShade::Textured { tint, .. } => tint,
    }
}

fn slot(texture_width: u8, texture_height: u8) -> MaterialSlot {
    MaterialSlot {
        tpage_word: 0,
        clut_word: 0,
        texture_window: TextureWindow::Unbounded,
        texture_width,
        texture_height,
    }
}

fn fog(rgb: (u8, u8, u8), near: i32, far: i32) -> PreviewFog {
    PreviewFog { enabled: true, rgb, near, far }
}

fn projected(sx: i16, sy: i16) -> Projected {
    Projected { sx, sy, sz: 100 }
}

fn material(tint: (u8, u8, u8), blend_mode: PsxBlendMode) -> ShadeMaterial {
    ShadeMaterial { tint, blend_mode, sidedness: MaterialFaceSidedness::Front }
}

fn project(name: &str, material: Option<ShadeMaterial>) -> ShadeProject {
    ShadeProject {
        resources: vec![ShadeResource { id: ResourceId(1), name: name.to_string(), material }],
        default_sidedness: MaterialFaceSidedness::Front,
    }
}

#[test]
fn global_grid_cap_samples_evenly_across_all_candidates() {
    let total = 10_000u64;
    let selected: Vec<_> = (0..total)
        .filter(|ordinal| grid_candidate_selected(*ordinal, total))
        .collect();
    assert_eq!(selected.len() as u64, BSP_SURFACE_GRID_SEGMENT_CAP);
    assert!(selected[0] < total / 100);
    assert!(selected[selected.len() - 1] > total * 99 / 100);
}

#[test]
fn surface_grid_chooses_the_farthest_luminance_extreme() {
    assert_eq!(adaptive_grid_value((0, 0, 0)), BSP_SURFACE_GRID_LIGHT);
    assert_eq!(adaptive_grid_value((255, 255, 255)), BSP_SURFACE_GRID_DARK);
    assert_eq!(adaptive_grid_value((127, 127, 127)), BSP_SURFACE_GRID_LIGHT);
    assert_eq!(adaptive_grid_value((128, 128, 128)), BSP_SURFACE_GRID_DARK);
}

#[test]
fn grid_brightness_follows_the_weighted_sum() {
    for r in 0..=255u8 {
        for g in 0..=255u8 {
            for b in 0..=255u8 {
                let luma = 0.299 * f64::from(r) + 0.587 * f64::from(g) + 0.114 * f64::from(b);
                let expected =
                    if luma < 127.5 { BSP_SURFACE_GRID_LIGHT } else { BSP_SURFACE_GRID_DARK };
                assert_eq!(adaptive_grid_value((r, g, b)), expected);
            }
        }
    }
}

#[test]
fn dense_surface_grid_coarsens_on_power_of_two_grid_multiples() {
    let GridRange { first, last, stride } = grid_index_range(-1024 / 16, 1024 / 16);
    assert_eq!((first, last, stride), (-64, 64, 8));
    assert_eq!(first.rem_euclid(stride), 0);
    assert!(((last - first) / stride + 1) as u64 <= BSP_SURFACE_GRID_LINES_PER_AXIS);
}

#[test]
fn grid_ranges_start_on_a_multiple_and_may_be_empty() {
    let range = grid_index_range(3, 40);
    assert_eq!((range.first, range.last, range.stride), (4, 40, 2));
    assert_eq!(grid_index_count(range), 19);
    let empty = grid_index_range(5, 4);
    assert_eq!((empty.first, empty.last, empty.stride), (1, 0, 1));
    assert_eq!(grid_index_count(empty), 0);
    let below = grid_index_range(-7, -1);
    assert_eq!((below.first, below.stride), (-7, 1));
    assert_eq!(grid_index_range(i64::MIN, i64::MAX).last, i64::MAX);
}

#[test]
fn poi_beacon_face_keeps_the_approved_opposing_corner_cuts() {
    let face = poi_face_world_points(
        [0, 32, 0],
        0,
        4096,
        4,
        [[-18, 32], [32, 32], [32, -18], [18, -32], [-32, -32], [-32, 18]],
    );
    assert_eq!(face[0], [-18, 64, 4]);
    assert_eq!(face[2], [32, 14, 4]);
    assert_eq!(face[4], [-32, 0, 4]);
}

#[test]
fn poi_beacon_authoring_states_remain_visually_distinct() {
    let idle = poi_preview_style(true, false, false, false);
    let selected = poi_preview_style(true, false, true, false);
    let incomplete = poi_preview_style(true, true, false, false);
    let disabled = poi_preview_style(false, false, false, false);
    assert_ne!(idle, selected);
    assert_ne!(idle, incomplete);
    assert_ne!(idle, disabled);
    assert!(u16::from(selected.face.0) > u16::from(idle.face.0));
}

#[test]
fn poi_beacon_is_submitted_as_depth_sorted_world_geometry() {
    let style = beacon_style(&PoiFacts {
        enabled: true,
        pages: vec!["Recovered protocol.".to_owned()],
        item: false,
        selected: false,
        hovered: false,
    });
    let front = [
        projected(10, 10),
        projected(60, 10),
        projected(60, 40),
        projected(40, 60),
        projected(10, 60),
        projected(10, 30),
    ];
    let back = front.map(|p| Projected { sx: p.sx + 4, sz: 120, ..p });
    let mut scratch = PreviewScratch::new(64, 2);
    push_point_of_interest_beacon(&mut scratch, front, back, style);

    assert!(scratch.used >= 4);
    for packet in &scratch.packets {
        assert!(packet.slot >= PREVIEW_GEOMETRY_SLOT_MIN);
        assert!(packet.slot <= PREVIEW_GEOMETRY_SLOT_MAX);
    }
    let mut hidden = PreviewScratch::new(64, 2);
    let behind = front.map(|p| Projected { sz: 0, ..p });
    push_point_of_interest_beacon(&mut hidden, behind, back, style);
    assert_eq!(hidden.used, 0);
}

#[test]
fn beacons_turn_and_scale() {
    let shape = beacon_shape(64);
    assert_eq!(shape.half, 32);
    assert_eq!(beacon_outline(shape)[4], [-32, -32]);
    assert_eq!(beacon_yaw(0, 0), 0);
    assert_eq!(beacon_yaw(4095, 1), 4104);
    assert_eq!(beacon_yaw(u16::MAX, 1), 8);
}

#[test]
fn editor_preview_uses_authored_average_blend_mode() {
    let project = project("Water", Some(material((0x80, 0x80, 0x80), PsxBlendMode::Average)));
    assert_eq!(material_blend_mode(&project, Some(ResourceId(1))), BlendMode::Average);
    assert_eq!(material_blend_mode(&project, None), BlendMode::Opaque);
}

#[test]
fn textured_preview_uses_authored_material_tint() {
    let project = project("Brick Wall", Some(material((0x60, 0x70, 0x90), PsxBlendMode::Opaque)));
    assert_eq!(material_texture_tint(&project, ResourceId(1)), (0x60, 0x70, 0x90));
}

#[test]
fn names_colour_materials_without_a_texture() {
    let fallback = (1, 2, 3);
    let brick = project("Old BRICK", None);
    assert_eq!(material_color(&brick, Some(ResourceId(1)), fallback), (0xC8, 0x70, 0x40));
    let plain = project("Plain", Some(material((9, 8, 7), PsxBlendMode::Opaque)));
    assert_eq!(material_color(&plain, Some(ResourceId(1)), fallback), (9, 8, 7));
    assert_eq!(material_color(&plain, Some(ResourceId(2)), fallback), fallback);
    assert_eq!(material_color(&plain, None, fallback), fallback);
}

#[test]
fn horizontal_preview_points_use_triangle_local_heights() {
    let corners = [Corner::NW, Corner::NE, Corner::SE];
    assert_eq!(
        horizontal_triangle_world_points([0, 1024, 0, 1024], corners, [64, 128, 192]),
        [(0, 64, 1024), (1024, 128, 1024), (1024, 192, 0)]
    );
}

#[test]
fn walls_stand_on_the_edge_of_their_cell() {
    let bounds = [0, 1024, 0, 1024];
    assert_eq!(wall_face_center(bounds, GridDirection::North, [0, 0, 100, 100]), (512, 50, 1024));
    assert_eq!(
        wall_face_center(bounds, GridDirection::NorthWestSouthEast, [0, 0, 100, 100]),
        (512, 50, 512)
    );
    for point in wall_world_points(bounds, GridDirection::East, [0, 0, 64, 64]) {
        assert_eq!(point.0, 1024);
    }
}

fn edge(x: u16, z: u16, direction: GridDirection) -> PortalEdge {
    PortalEdge { x, z, direction }
}

#[test]
fn portal_seam_runs_coalesce_connected_edges() {
    let runs = portal_seam_runs(vec![
        edge(2, 0, GridDirection::North),
        edge(0, 0, GridDirection::North),
        edge(1, 0, GridDirection::North),
        edge(4, 2, GridDirection::East),
        edge(4, 3, GridDirection::East),
    ]);

    assert_eq!(
        runs,
        vec![
            PortalSeamRun { start: edge(0, 0, GridDirection::North), len: 3 },
            PortalSeamRun { start: edge(4, 2, GridDirection::East), len: 2 },
        ]
    );
}

#[test]
fn seam_runs_end_where_the_next_edge_is_missing() {
    let runs = portal_seam_runs(vec![
        edge(5, 1, GridDirection::North),
        edge(2, 1, GridDirection::North),
        edge(3, 1, GridDirection::North),
        edge(u16::MAX, 1, GridDirection::North),
    ]);
    assert_eq!(
        runs,
        vec![
            PortalSeamRun { start: edge(2, 1, GridDirection::North), len: 2 },
            PortalSeamRun { start: edge(5, 1, GridDirection::North), len: 1 },
            PortalSeamRun { start: edge(u16::MAX, 1, GridDirection::North), len: 1 },
        ]
    );
}

fn floor(height: i32) -> GridHorizontalFace {
    let triangle = |corners: [Corner; 3]| HorizontalTriangle {
        corners,
        heights: [height; 3],
        material: None,
    };
    GridHorizontalFace {
        heights: [height; 4],
        triangle_a: triangle([Corner::NW, Corner::NE, Corner::SE]),
        triangle_b: triangle([Corner::NW, Corner::SE, Corner::SW]),
        dropped_corner: None,
    }
}

fn wall(bottom: i32, top: i32) -> GridVerticalFace {
    GridVerticalFace {
        heights: [bottom, bottom, top, top],
        material: None,
        dropped_corner: None,
        triangle_a: [WallCorner::BL, WallCorner::BR, WallCorner::TR],
        triangle_b: [WallCorner::BL, WallCorner::TR, WallCorner::TL],
    }
}

#[test]
fn portal_edge_height_span_uses_real_adjacent_geometry() {
    let mut east = vec![];
    east.push(wall(0, 3328));
    let grid = WorldGrid {
        origin_x: 0,
        origin_z: 0,
        width: 2,
        depth: 1,
        sector_size: 2048,
        ambient_color: (0, 0, 0),
        fog_enabled: false,
        fog_color: (0, 0, 0),
        fog_near: 0,
        fog_far: 1,
        sectors: vec![
            Some(GridSector { floor: Some(floor(-128)), ..GridSector::empty() }),
            Some(GridSector { floor: Some(floor(64)), east, ..GridSector::empty() }),
        ],
    };

    let heights = portal_edge_height_span_for_world_cell(&grid, 0, 0, GridDirection::East);
    let outline = [
        (2048, heights[0], 2048),
        (2048, heights[1], 0),
        (2048, heights[2], 0),
        (2048, heights[3], 2048),
    ];
    let corners =
        portal_edge_wall_corners_for_world_cell(Some(outline)).expect("portal wall corners");

    assert_eq!(corners[0].1, -104);
    assert_eq!(corners[1].1, -104);
    assert_eq!(corners[2].1, 3328);
    assert_eq!(corners[3].1, 3328);
}

#[test]
fn portals_face_the_neighbouring_cell() {
    assert_eq!(
        portal_neighbour_world_cell(3, 4, GridDirection::East),
        Some((4, 4, GridDirection::West))
    );
    assert_eq!(portal_neighbour_world_cell(3, 4, GridDirection::NorthWestSouthEast), None);
}

#[test]
fn selected_seams_are_drawn_heavier() {
    let node = |id, is_portal, hidden, in_room| SeamNode {
        id: NodeId(id),
        is_portal,
        hidden,
        in_room,
    };
    let nodes = vec![
        node(1, true, false, true),
        node(2, true, true, true),
        node(3, true, false, false),
        node(4, false, false, true),
        node(5, true, false, true),
    ];
    let seams = walk_portal_seams(&nodes, NodeId(5), None);
    assert_eq!(seams.len(), 2);
    assert_eq!(seams[0].line.rgb, (0xFF, 0x48, 0xD6));
    assert_eq!((seams[0].id, seams[0].line.weight), (NodeId(1), StrokeWeight::Seam));
    assert_eq!((seams[1].id, seams[1].line.weight), (NodeId(5), StrokeWeight::StrongSeam));
    assert_eq!(
        walk_portal_seams(&nodes, NodeId(0), Some(NodeId(1)))[0].line.weight,
        StrokeWeight::StrongSeam
    );
}

fn node(id: u64, parent: Option<u64>, kind: SceneNodeKind) -> SceneNode {
    SceneNode { id: NodeId(id), parent: parent.map(NodeId), hidden: false, kind }
}

fn room(id: u64) -> SceneNode {
    node(id, Some(0), SceneNodeKind::Section { floor_count: 1 })
}

fn portal(id: u64, source: u64, target: u64) -> SceneNode {
    node(id, Some(source), SceneNodeKind::Portal { target_room: Some(NodeId(target)) })
}

fn focus(active_room: u64, active_floors: Vec<ResolvedFloor>) -> RoomFocus {
    RoomFocus {
        active_room: Some(NodeId(active_room)),
        active_floors,
        selected: NodeId(0),
        selected_primitive: None,
        selected_primitives: vec![],
        validation_issue_primitives: vec![],
    }
}

#[test]
fn visible_room_grids_keeps_all_non_hidden_rooms() {
    let mut scene = Scene { nodes: vec![node(0, None, SceneNodeKind::Other), room(1), room(2)] };
    assert_eq!(visible_room_grids(&scene), vec![NodeId(1), NodeId(2)]);

    scene.nodes[1].hidden = true;
    assert_eq!(visible_room_grids(&scene), vec![NodeId(2)]);
}

#[test]
fn preview_room_grids_walks_bounded_portal_neighborhood() {
    let mut nodes = vec![node(0, None, SceneNodeKind::Other)];
    for id in 1..=6 {
        nodes.push(room(id));
    }
    for (id, (source, target)) in [(10, (1, 2)), (11, (2, 3)), (12, (3, 4)), (13, (4, 5))] {
        nodes.push(portal(id, source, target));
    }
    let scene = Scene { nodes };
    let floors = vec![ResolvedFloor { floor_index: 0, y_offset: 0, active: true }];
    let visible: Vec<NodeId> = preview_room_grids(&scene, &focus(1, floors), 64)
        .into_iter()
        .map(|entry| entry.room)
        .collect();

    assert_eq!(visible, vec![NodeId(1), NodeId(2), NodeId(3), NodeId(4)]);
    assert!(!visible.contains(&NodeId(5)));
    assert!(!visible.contains(&NodeId(6)));
}

#[test]
fn preview_room_grids_shows_active_floor_and_below_only() {
    let scene = Scene {
        nodes: vec![
            node(0, None, SceneNodeKind::Other),
            node(1, Some(0), SceneNodeKind::Section { floor_count: 3 }),
        ],
    };
    let resolved = vec![
        ResolvedFloor { floor_index: 0, y_offset: -1024, active: false },
        ResolvedFloor { floor_index: 1, y_offset: 0, active: true },
    ];
    let floors = preview_room_grids(&scene, &focus(1, resolved), 64);
    let entries: Vec<(usize, i32, bool)> = floors
        .iter()
        .filter(|f: &&PreviewFloor| f.room == NodeId(1))
        .map(|f| (f.floor_index, f.y_offset, f.active))
        .collect();

    assert_eq!(entries.len(), 2, "active + below only: {entries:?}");
    assert!(
        entries.iter().any(|&(i, off, act)| i == 1 && off == 0 && act),
        "active floor 1 at y_offset 0: {entries:?}"
    );
    let below = entries.iter().find(|&&(i, _, _)| i == 0).expect("floor 0 below");
    assert!(below.1 < 0, "floor below descends (negative y_offset): {below:?}");
    assert!(!entries.iter().any(|&(i, _, _)| i == 2), "floor above hidden");
}

#[test]
fn face_sidedness_matches_runtime_winding_convention() {
    let front = [projected(0, 0), projected(10, 0), projected(0, 10)];
    let back = [front[0], front[2], front[1]];

    assert!(face_side_visible(MaterialFaceSidedness::Front, front));
    assert!(!face_side_visible(MaterialFaceSidedness::Front, back));
    assert!(!face_side_visible(MaterialFaceSidedness::Back, front));
    assert!(face_side_visible(MaterialFaceSidedness::Back, back));
    assert!(face_side_visible(MaterialFaceSidedness::Both, front));
    assert!(face_side_visible(MaterialFaceSidedness::Both, back));
}

#[test]
fn preview_rejects_triangles_outside_psx_packet_extent() {
    assert!(preview_projected_triangle_hw_safe([
        projected(0, 0),
        projected(64, 0),
        projected(0, 64),
    ]));
    assert!(!preview_projected_triangle_hw_safe([
        projected(-1024, 0),
        projected(1023, 0),
        projected(0, 16),
    ]));
    assert!(!preview_projected_triangle_hw_safe([
        projected(0, -512),
        projected(16, 512),
        projected(0, 0),
    ]));
}

/// The screen position of a point for a camera that is turned by quarters.
fn seen_from(camera: (i32, i32, i32), yaw_q12: i32, point: (i32, i32, i32)) -> Projected {
    let (sin, cos) = match yaw_q12 {
        0 => (0, 1),
        1024 => (1, 0),
        2048 => (0, -1),
        _ => (-1, 0),
    };
    let (x, y, z) = (point.0 - camera.0, point.1 - camera.1, point.2 - camera.2);
    let (right, down, ahead) = (cos * x - sin * z, -y, -sin * x - cos * z);
    assert!(ahead > 0, "{point:?} lies behind the camera");
    Projected {
        sx: (160 + 320 * right / ahead) as i16,
        sy: (120 + 320 * down / ahead) as i16,
        sz: ahead as u16,
    }
}

fn wall_face_emits_from_camera(
    edge: GridDirection,
    position: (i32, i32, i32),
    yaw_q12: i32,
    sidedness: MaterialFaceSidedness,
) -> bool {
    let bounds = [0, 1024, 0, 1024];
    let heights = [384, 384, 640, 640];
    let points = wall_world_points(bounds, edge, heights);
    let face = wall(384, 640);
    let placement = WallPlacement {
        center: wall_face_center(bounds, edge, heights),
        bounds,
        edge,
        points,
        material: None,
        dropped_corner: None,
        triangle_a: face.triangle_a,
        triangle_b: face.triangle_b,
    };
    let view = WallView {
        shade: flat_sided(128, 128, 128, sidedness),
        quad: PREVIEW_FLOOR_UVS,
        in_front: true,
        projected: points.map(|point| seen_from(position, yaw_q12, point)),
    };
    let mut scratch = PreviewScratch::new(16, 2);
    let queued = push_wall_face(&mut scratch, placement, view, position);
    assert_eq!(queued, scratch.used > 0 || scratch.tex_used > 0);
    queued
}

#[test]
fn editor_cardinal_wall_front_material_renders_from_owning_cell() {
    let cases = [
        (GridDirection::North, (512, 512, 512), 2048, (512, 512, 1536), 0),
        (GridDirection::East, (512, 512, 512), 3072, (1536, 512, 512), 1024),
        (GridDirection::South, (512, 512, 512), 0, (512, 512, -512), 2048),
        (GridDirection::West, (512, 512, 512), 1024, (-512, 512, 512), 3072),
    ];
    for (edge, inside, inside_yaw, outside, outside_yaw) in cases {
        assert!(
            wall_face_emits_from_camera(edge, inside, inside_yaw, MaterialFaceSidedness::Front),
            "{edge:?} wall front material should render from inside the owning cell"
        );
        assert!(
            !wall_face_emits_from_camera(edge, inside, inside_yaw, MaterialFaceSidedness::Back),
            "{edge:?} wall back material should not render from inside the owning cell"
        );
        assert!(
            !wall_face_emits_from_camera(edge, outside, outside_yaw, MaterialFaceSidedness::Front),
            "{edge:?} wall front material should not render from outside the owning cell"
        );
        assert!(
            wall_face_emits_from_camera(edge, outside, outside_yaw, MaterialFaceSidedness::Back),
            "{edge:?} wall back material should render from outside the owning cell"
        );
    }
}

#[test]
fn walls_show_from_the_side_of_their_material() {
    let bounds = [0, 1024, 0, 1024];
    let cases = [
        (GridDirection::North, (512, 512, 1536)),
        (GridDirection::East, (1536, 512, 512)),
        (GridDirection::South, (512, 512, -512)),
        (GridDirection::West, (-512, 512, 512)),
    ];
    for (edge, outside) in cases {
        let shows = |sidedness, from| wall_side_visible(sidedness, bounds, edge, from);
        assert!(shows(MaterialFaceSidedness::Front, (512, 512, 512)));
        assert!(!shows(MaterialFaceSidedness::Back, (512, 512, 512)));
        assert!(!shows(MaterialFaceSidedness::Front, outside));
        assert!(shows(MaterialFaceSidedness::Back, outside));
    }
}

#[test]
fn editor_diagonal_wall_materials_are_forced_double_sided() {
    for edge in [GridDirection::NorthWestSouthEast, GridDirection::NorthEastSouthWest] {
        assert_eq!(
            wall_material_sidedness_for_edge(MaterialFaceSidedness::Front, edge),
            MaterialFaceSidedness::Both
        );
        assert_eq!(
            wall_material_sidedness_for_edge(MaterialFaceSidedness::Back, edge),
            MaterialFaceSidedness::Both
        );
        assert!(wall_side_visible(
            MaterialFaceSidedness::Front,
            [0, 1024, 0, 1024],
            edge,
            (256, 512, 256)
        ));
        assert!(wall_side_visible(
            MaterialFaceSidedness::Back,
            [0, 1024, 0, 1024],
            edge,
            (768, 512, 768)
        ));
    }
}

#[test]
fn preview_near_guard_rejects_vertices_behind_camera() {
    assert!(preview_vertices_in_front(&vec![64, 64], 16));
    assert!(!preview_vertices_in_front(&vec![64, -16], 16));
}

#[test]
fn culled_room_face_outline_respects_preview_toggle() {
    assert!(should_draw_culled_face_outline(
        true,
        flat_sided(128, 128, 128, MaterialFaceSidedness::Front)
    ));
    assert!(should_draw_culled_face_outline(
        true,
        flat_sided(128, 128, 128, MaterialFaceSidedness::Back)
    ));
    assert!(!should_draw_culled_face_outline(
        false,
        flat_sided(128, 128, 128, MaterialFaceSidedness::Back)
    ));
    assert!(!should_draw_culled_face_outline(
        true,
        flat_sided(128, 128, 128, MaterialFaceSidedness::Both)
    ));
}

#[test]
fn preview_depth_slots_share_world_geometry_band() {
    assert_eq!(room_depth_slot(0), PREVIEW_GEOMETRY_SLOT_MIN);
    assert_eq!(room_depth_slot(u32::MAX), PREVIEW_GEOMETRY_SLOT_MAX);
    assert!(shadow_depth_slot(2048) < room_depth_slot(2048));
    assert_eq!(shadow_depth_slot(0), PREVIEW_GEOMETRY_SLOT_MIN);
    assert_eq!(PREVIEW_SHADOW_DEPTH_BIAS, 128);
}

#[test]
fn preview_fog_blends_after_near_plane() {
    let fog = fog((10, 20, 30), 100, 300);

    assert_eq!(fog.apply_rgb((110, 120, 130), 100), (110, 120, 130));
    assert_eq!(fog.apply_rgb((110, 120, 130), 200), (60, 70, 80));
    assert_eq!(fog.apply_rgb((110, 120, 130), 300), (10, 20, 30));
    assert_eq!(fog.apply_rgb((110, 120, 130), 900), (10, 20, 30));
}

#[test]
fn preview_fog_applies_to_flat_and_textured_tints() {
    let fog = fog((0, 0, 0), 0, 256);
    let flat = fog.apply_shade(flat(128, 64, 32), 128);
    let textured = fog.apply_shade(
        FaceShade::Textured {
            slot: slot(64, 64),
            tint: (128, 64, 32),
            blend_mode: BlendMode::Opaque,
            sidedness: MaterialFaceSidedness::Front,
        },
        128,
    );

    assert_eq!(unpack(flat), (64, 32, 16));
    assert_eq!(unpack(textured), (64, 32, 16));
}

fn textured(width: u8, height: u8) -> FaceShade {
    FaceShade::Textured {
        slot: slot(width, height),
        tint: (128, 128, 128),
        blend_mode: BlendMode::Opaque,
        sidedness: MaterialFaceSidedness::Both,
    }
}

#[test]
fn material_sized_uvs_stretch_32px_texture_once_by_default() {
    assert_eq!(
        material_sized_uvs(textured(32, 32), PREVIEW_FLOOR_UVS),
        [(0, 0), (32, 0), (32, 32), (0, 32)]
    );
}

#[test]
fn material_sized_uvs_preserve_authored_repeat_count() {
    assert_eq!(
        material_sized_uvs(
            textured(32, 64),
            [(0, 0), (128, 0), (128, GRID_TILE_UV), (0, GRID_TILE_UV)]
        ),
        [(0, 0), (64, 0), (64, GRID_TILE_UV), (0, GRID_TILE_UV)]
    );
}

#[test]
fn editor_water_preview_uses_material_uv_motion() {
    let (width, height, played) =
        animated_material_frame(MaterialAnimationMode::UvScroll { enabled: true }, slot(64, 64));
    assert_eq!(played, PlayedAnimation::UvScroll);
    assert_eq!(animated_material_quad_uvs(width, height, 0, 0)[0], (0, 0));
    assert_eq!(animated_material_quad_uvs(width, height, 8, 4)[0], (8, 4));
}

#[test]
fn bsp_preview_lights_use_world_units_and_sector_scaled_radius() {
    let sample = LightSample {
        position: [3840, 1280, 21120],
        radius: 4096,
        color: [255, 240, 200],
        intensity_q8: 256,
    };
    let light = |id, hidden, in_room| LightNode {
        id: NodeId(id),
        hidden,
        in_room,
        sample: Some(sample),
    };
    let unlit = LightNode { sample: None, ..light(9, false, true) };
    let samples = collect_preview_lights(&vec![unlit, light(1, false, false)], false);
    assert_eq!(samples.len(), 1);
    assert_eq!(samples[0].sample.position, [3840, 1280, 21120]);
    assert_eq!(samples[0].sample.radius, 4096);
    assert_eq!(collect_preview_lights(&vec![light(1, true, true)], false).len(), 0);
    let rooms = vec![light(1, false, false), light(2, false, true)];
    assert_eq!(collect_preview_lights(&rooms, true).len(), 1);
}

#[test]
fn point_light_uses_own_transform() {
    let lamp = LightNode { id: NodeId(1), hidden: false, in_room: false, sample: None };
    let sample = LightSample {
        position: [99, 99, 99],
        radius: 4 * 1024,
        color: [1, 2, 3],
        intensity_q8: 192,
    };
    let light = LightNode { id: NodeId(2), sample: Some(sample), ..lamp };

    let lights = collect_preview_lights(&vec![lamp, light], false);

    assert_eq!(lights.len(), 1);
    assert_eq!(lights[0].host_id, light.id);
    assert_eq!(lights[0].sample.position, [99, 99, 99]);
    assert_eq!(lights[0].sample.color, [1, 2, 3]);
    assert_eq!(lights[0].sample.intensity_q8 as f32 / 256.0, 0.75);
    assert_eq!(lights[0].sample.radius as f32 / 1024.0, 4.0);
}

#[test]
fn triangles_are_queued_until_the_pool_is_full() {
    let shape = [projected(0, 0), projected(10, 0), projected(0, 10)];
    let mut scratch = PreviewScratch::new(2, 0);
    assert!(push_tri(&mut scratch, shape, (1, 2, 3)));
    assert!(push_tri_colors(&mut scratch, shape, [(1, 2, 3), (4, 5, 6), (7, 8, 9)]));
    assert!(!push_tri(&mut scratch, shape, (1, 2, 3)));
    assert_eq!(scratch.packets.len(), 2);
    assert_eq!(scratch.packets[1].colors[1], (4, 5, 6));
    assert!(scratch.full());
}

#[test]
fn large_triangles_are_split_in_half() {
    let wide = [projected(-900, 0), projected(900, 0), projected(0, 100)];
    let (left, right) = split_preview_projected_triangle(PreviewTriangle {
        p: wide,
        uvs: [(0, 0), (64, 0), (32, 64)],
        colors: [(0, 0, 0), (100, 100, 100), (50, 50, 50)],
    });
    assert!(preview_projected_triangle_hw_safe(left.p));
    assert!(preview_projected_triangle_hw_safe(right.p));
    let mut scratch = PreviewScratch::new(8, 3);
    assert!(push_tri(&mut scratch, wide, (9, 9, 9)));
    assert_eq!(scratch.used, 2);
    assert_eq!(clamp_preview_projected(projected(5000, -5000)).sx, 1023);
}

#[test]
fn textured_triangles_use_their_own_pool() {
    let shape = [projected(0, 0), projected(10, 0), projected(0, 10)];
    let mut scratch = PreviewScratch::new(1, 0);
    let uvs = [(0, 0), (64, 0), (0, 64)];
    assert!(push_tex_tri(&mut scratch, shape, uvs, slot(64, 64), (128, 128, 128), BlendMode::Add));
    assert_eq!((scratch.used, scratch.tex_used), (0, 1));
    assert!(scratch.packets[0].material.is_some());
}

fn corner(x: i32, y: i32, z: i32) -> PreviewClipVertex {
    PreviewClipVertex::new(ViewVertex { x, y, z }, 0, 0, (128, 128, 128))
}

#[test]
fn brush_faces_are_cut_at_the_near_plane() {
    let projection = WorldProjection { focal_length: 320, near_z: 64 };
    let seen = [corner(-10, -10, 100), corner(10, -10, 100), corner(10, 10, 100)];
    assert_eq!(clip_preview_brush_polygon(projection, &seen).len(), 3);
    let behind = [corner(-10, -10, 10), corner(10, -10, 10), corner(10, 10, 10)];
    assert_eq!(clip_preview_brush_polygon(projection, &behind).len(), 0);
    let crossing = [corner(-10, -10, 100), corner(10, -10, 100), corner(10, 10, 10)];
    let cut = clip_preview_brush_polygon(projection, &crossing);
    assert_eq!(cut.len(), 4);
    for vertex in &cut {
        assert!(vertex.view.z >= 64);
    }
}

#[test]
fn brush_faces_are_cut_at_the_guarded_screen_edges() {
    let projection = WorldProjection { focal_length: 100_000, near_z: 1 };
    let wide = [
        corner(-1000, -1000, 100),
        corner(1000, -1000, 100),
        corner(1000, 1000, 100),
        corner(-1000, 1000, 100),
    ];
    let cut = clip_preview_brush_polygon(projection, &wide);
    assert_eq!(cut.len(), 4);
    for vertex in &cut {
        assert!(vertex.view.x.abs() <= 2 && vertex.view.y.abs() <= 2);
    }
    let many: Vec<_> = (0..41).map(|x| corner(x, 0, 100)).collect();
    assert!(clip_preview_brush_polygon(projection, &many).is_empty());
}

#[test]
fn picked_lines_lie_evenly() {
    let total = 5000;
    let picked: Vec<u64> = (0..total).filter(|at| grid_candidate_selected(*at, total)).collect();
    assert_eq!(picked.len(), 2048);
    assert!(picked.windows(2).all(|pair| (2..=3).contains(&(pair[1] - pair[0]))));
}

#[test]
fn segments_are_cut_at_the_near_plane() {
    let front = ViewVertex { x: 100, y: 0, z: 200 };
    let behind = ViewVertex { x: 0, y: 0, z: 0 };
    assert_eq!(
        view_segment_near_intersection(behind, front, 100),
        Some(ViewVertex { x: 50, y: 0, z: 100 })
    );
    assert_eq!(view_segment_near_intersection(front, behind, 100), None);
    assert_eq!(clip_view_segment(behind, behind, 100), None);
    assert_eq!(
        clip_view_segment(front, behind, 100),
        Some((front, ViewVertex { x: 50, y: 0, z: 100 }))
    );
}

#[test]
fn leak_markers_shrink_towards_their_middle() {
    let opening = vec![[0, 0, 0], [100, 0, 0], [100, 100, 0], [0, 100, 0]];
    assert_eq!(
        opening_marker(&opening),
        vec![[5, 5, 0], [95, 5, 0], [95, 95, 0], [5, 95, 0]]
    );
    assert!(opening_marker(&vec![[0, 0, 0], [1, 1, 1]]).is_empty());
    assert_eq!(leak_steps(0), 1);
    assert_eq!(leak_steps(9_999), 256);
}

#[test]
fn visible_pieces_join_into_runs() {
    let runs = visible_runs(&vec![true, true, false, false, true]);
    assert_eq!(
        runs,
        vec![VisibleRun { start: 0, end: 2 }, VisibleRun { start: 4, end: 5 }]
    );
    assert!(visible_runs(&vec![false, false]).is_empty());
}

#[test]
fn entity_bounds_show_selection_and_facing() {
    let bounds = vec![
        EntityBounds { node: NodeId(1), kind: EntityBoundKind::Model },
        EntityBounds { node: NodeId(2), kind: EntityBoundKind::Portal },
        EntityBounds { node: NodeId(3), kind: EntityBoundKind::PointLight },
    ];
    let outlines = walk_entity_bounds(&bounds, NodeId(1), Some(NodeId(3)));
    assert_eq!(outlines.len(), 2);
    assert_eq!(outlines[0].style.rgb, (0x60, 0xC8, 0xFF));
    assert!(outlines[0].arrow);
    assert_eq!(outlines[1].index, 2);
    assert_eq!(outlines[1].style.rgb, (0xFF, 0xE0, 0x60));
    assert!(!outlines[1].arrow);
}

#[test]
fn boxes_have_eight_corners_and_twelve_edges() {
    let corners = aabb_corners([10, 20, 30], [1, 2, 3]).unwrap();
    assert_eq!(corners[0], [9, 18, 27]);
    assert_eq!(corners[7], [11, 22, 33]);
    assert_eq!(corners[5], [11, 18, 33]);
    assert_eq!(aabb_corners([0, 0, 0], [1, 0, 1]), None);
    let mut seen = [projected(0, 0); 8];
    assert_eq!(box_wireframe(seen).len(), 12);
    seen[0].sz = 0;
    assert_eq!(box_wireframe(seen).len(), 9);
}

#[test]
fn rings_and_arrows_lie_level() {
    assert_eq!(ring_angle(4, 16), 1024);
    assert_eq!(ring_angle(16, 16), 4096);
    assert_eq!(level_point([5, 6, 7], 100, 4096, 0), [105, 6, 7]);
    assert_eq!(level_point([5, 6, 7], 100, 0, -4096), [5, 6, -93]);
}

#[test]
fn lights_are_drawn_as_bulbs() {
    let icon = light_bulb_icon(projected(0, 0), true);
    assert_eq!(icon.len(), 10);
    assert_eq!(icon[0], BulbStroke::Circle { center_y: -28, halo: false });
    assert_eq!(icon[9], BulbStroke::Circle { center_y: -28, halo: true });
    assert_eq!(light_bulb_icon(projected(0, 0), false).len(), 9);
    assert!(light_bulb_icon(Projected { sx: 0, sy: 0, sz: 0 }, true).is_empty());
    let (color, style, ring) = light_gizmo([0, 200, 10], 5, false, true);
    assert_eq!(color, (0x40, 200, 0x40));
    assert_eq!(style.rgb, (0xFF, 0xF0, 0x90));
    assert!(ring);
    assert_eq!(bright_overlay_color((0, 255, 100)), (153, 255, 193));
}

#[test]
fn particles_age_and_fade() {
    let settings = ParticleEmitterSettings {
        enabled: true,
        max_particles: 4,
        lifetime_frames: 60,
        spawn_rate_q8: 4 * 256,
        spawn_radius: 0,
        base_velocity_q4: [0, 16, 0],
        random_velocity_q4: [0, 0, 0],
        acceleration_q4: [0, 0, 0],
        start_size: 64,
        end_size: 32,
        start_color: [255, 255, 255],
        end_color: [0, 0, 0],
        blend_mode: BlendMode::Add,
    };
    let origin = WorldVertex { x: 1, y: 2, z: 3 };
    let samples = particle_samples(&settings, origin, 0, 32);
    assert_eq!(samples.len(), 4);
    assert_eq!(samples[0].age, 0);
    assert_eq!(samples[1].age, 15);
    assert!(particle_samples(&ParticleEmitterSettings { enabled: false, ..settings }, origin, 0, 32)
        .is_empty());
    assert_eq!(preview_particle_lerp_u8(0, 255, 255), 255);
    assert_eq!(preview_particle_lerp_u8(10, 255, 0), 10);
    assert_eq!(preview_particle_lerp_u8(10, 255, 300), 255, "past the end");
    assert_eq!(preview_particle_lerp_u8(0, 255, -20), 0, "before the start");
    assert_eq!(preview_particle_signed_spread(preview_particle_seed(1, 2, 3), 0), 0);
    let limits = ParticleLimits { draw_cap: 32, min_half: 1, max_half: 64, texel_u: 64, texel_v: 0 };
    let mut quads = vec![];
    push_particle_preview_sample(&mut quads, &settings, 0, projected(0, 0), slot(16, 16), limits);
    assert_eq!(quads.len(), 1);
    assert_eq!(quads[0].uvs[0], (64, 0));
    let behind = Projected { sx: 0, sy: 0, sz: 0 };
    push_particle_preview_sample(&mut quads, &settings, 0, behind, slot(16, 16), limits);
    assert_eq!(quads.len(), 1);
}

#[test]
fn the_camera_keeps_near_points_exact() {
    let basis = CameraBasis { sin_yaw: 0, cos_yaw: Q12_ONE, sin_pitch: 0, cos_pitch: Q12_ONE };
    let rows = preview_view_rotation(basis);
    assert_eq!(view_shift(true, 512), 0);
    assert!(view_shift(true, MAX_VIEW_RADIUS * 4) > 0);
    assert_eq!(world_to_view([10, 20, 30], [1, 2, 3], 0), [9, 18, 27]);
    let local = camera_local([0, 0, 512], [0, 0, 0], 0);
    assert_eq!(local, [0, 0, 512]);
    let translation = view_translation(rows, local);
    assert_eq!(translation[0], 0);
    assert_eq!(dot_view_world(rows[0], [4096, 0, 0]).abs(), 4096);
}

#[test]
fn the_sky_is_drawn_where_it_can_be_seen() {
    let ahead = ViewDirection { x: 0, y: 0, z: 4096 };
    assert_eq!(preview_project_cyclorama_direction(ahead, 1), Some((160, 120)));
    let back = ViewDirection { x: 0, y: 0, z: -4096 };
    assert_eq!(preview_project_cyclorama_direction(back, 1), None);
    assert!(preview_cyclorama_quad_outside_screen([(-9, 0), (-5, 0), (-5, 9), (-9, 9)]));
    assert!(!preview_cyclorama_quad_outside_screen([(0, 0), (50, 0), (50, 9), (0, 9)]));
    let quad = BackdropQuad { xy: [(0, 0); 4], colors: [[0; 3]; 4] };
    let mut quads = vec![];
    assert!(push_backdrop_quad(&mut quads, 1, quad));
    assert!(!push_backdrop_quad(&mut quads, 1, quad));
    let packet = clear_packet([1, 2, 3]);
    assert_eq!(packet[0] & 0x00FF_FFFF, 0x0003_0201);
}

#[test]
fn far_vista_panels_repeat_round_the_ring() {
    let vista = FarVistaTextures {
        texture: Some(ResourceId(9)),
        panels: vec![Some(ResourceId(1)), Some(ResourceId(2)), None, None],
    };
    assert_eq!(active_far_vista_panel_count(&vista.panels, 8), 2);
    assert_eq!(far_vista_texture_for_segment(&vista, 0, 8), Some(ResourceId(1)));
    let plain = FarVistaTextures { texture: Some(ResourceId(9)), panels: vec![None, None] };
    assert_eq!(far_vista_texture_for_segment(&plain, 3, 8), Some(ResourceId(9)));
    assert_eq!(far_vista_segments(0, 16), far_vista_segments(1, 16));
    let (low, high) = far_vista_heights(100, 0, 50);
    assert_eq!((low - high).abs(), 50);
}
