use frontend::preview::backdrop::{
    far_vista_corners, far_vista_quad, push_cyclorama, push_far_vista_ring,
    push_far_vista_textured_quad, push_sky_quad, tilted_direction, turned_direction,
    FarVistaTextures, PitchProducts, SkyQuad, ViewDirection, VistaStyle, VistaView, YawProducts,
};
use frontend::preview::camera::{setup_gte_for_camera, CameraBasis};
use frontend::preview::grid::{
    Corner, GridDirection, GridHorizontalFace, GridSector, GridVerticalFace, HorizontalTriangle,
    ResourceId, WallCorner, WorldGrid,
};
use frontend::preview::material::{
    BlendMode, FaceShade, MaterialFaceSidedness, MaterialSlot, TextureWindow,
};
use frontend::preview::overlays::{
    corners_near_screen, grid_axes, grid_line_is_major, push_grid_lines, screen_line_is_drawn,
    selected_node_is_image_prop, surface_grid, FaceGrid, GridRange,
};
use frontend::preview::poi::{
    poi_preview_style, walk_point_of_interest_beacons, PoiComponent, PoiEntity, PoiFacts,
};
use frontend::preview::portals::{
    canonical_portal_edge_for_array_cell, push_portal_edge_wall_outline, push_portal_seam_run,
    PortalEdge, PortalSeamRun,
};
use frontend::preview::primitives::{push_shadow_tex_tri, PreviewScratch};
use frontend::preview::room_geometry::{
    room_face_bases, room_sectors, walk_room, FaceKind, FacePlacement, FaceView,
    HorizontalHalfView, RoomSector, SectorViews, WallView,
};
use frontend::preview::scene::{NodeId, Scene, SceneNode, SceneNodeKind};
use frontend::preview::screen::Projected;
use frontend::preview::shading::{
    face_shade, light_face, textured_base_uvs, PreviewFog, PsxBlendMode, ShadeMaterial,
    ShadeProject, ShadeResource, PREVIEW_FLOOR_UVS,
};
use frontend::textures::editor::EditorTextures;

fn at(sx: i16, sy: i16) -> Projected {
    Projected { sx, sy, sz: 100 }
}

fn floor(height: i32, dropped_corner: Option<Corner>) -> GridHorizontalFace {
    let half = |corners: [Corner; 3]| HorizontalTriangle {
        corners,
        heights: [height; 3],
        material: Some(ResourceId(1)),
    };
    GridHorizontalFace {
        heights: [height; 4],
        triangle_a: half([Corner::NW, Corner::NE, Corner::SE]),
        triangle_b: half([Corner::NW, Corner::SE, Corner::SW]),
        dropped_corner,
    }
}

fn wall(bottom: i32, top: i32) -> GridVerticalFace {
    GridVerticalFace {
        heights: [bottom, bottom, top, top],
        material: None,
        dropped_corner: None,
        triangle_a: [WallCorner::BL, WallCorner::BR, WallCorner::TR],
        triangle_b: [WallCorner::BL, WallCorner::TR, WallCorner::TL],
    }
}

fn grid(sectors: Vec<Option<GridSector>>) -> WorldGrid {
    WorldGrid {
        origin_x: -1,
        origin_z: 2,
        width: sectors.len() as u16,
        depth: 1,
        sector_size: 1024,
        ambient_color: (0, 0, 0),
        fog_enabled: true,
        fog_color: (10, 20, 30),
        fog_near: 100,
        fog_far: 200,
        sectors,
    }
}

fn slot() -> MaterialSlot {
    MaterialSlot {
        tpage_word: 5,
        clut_word: 7,
        texture_window: TextureWindow::Unbounded,
        texture_width: 64,
        texture_height: 32,
    }
}

fn textures() -> EditorTextures {
    EditorTextures::new(&vec![0; 4096])
}

fn project() -> ShadeProject {
    ShadeProject {
        resources: vec![ShadeResource {
            id: ResourceId(1),
            name: "Stone".to_string(),
            material: Some(ShadeMaterial {
                tint: (1, 2, 3),
                blend_mode: PsxBlendMode::Opaque,
                sidedness: MaterialFaceSidedness::Both,
            }),
        }],
        default_sidedness: MaterialFaceSidedness::Front,
    }
}

fn no_fog() -> PreviewFog {
    PreviewFog { enabled: false, rgb: (0, 0, 0), near: 0, far: 1 }
}

fn half(sidedness: MaterialFaceSidedness, turned: bool) -> HorizontalHalfView {
    let projected = if turned {
        [at(0, 0), at(10, 10), at(0, 10)]
    } else {
        [at(0, 0), at(0, 10), at(10, 10)]
    };
    HorizontalHalfView {
        shade: FaceShade::Flat { rgb: (9, 9, 9), sidedness },
        quad: PREVIEW_FLOOR_UVS,
        in_front: true,
        projected,
    }
}

fn floor_view(turned: bool) -> FaceView {
    let seen = half(MaterialFaceSidedness::Front, turned);
    FaceView::Horizontal { depth: 0, a: seen, b: seen }
}

fn sectors_of(grid: &WorldGrid) -> Vec<RoomSector> {
    room_sectors(NodeId(3), grid, 8)
}

#[test]
fn empty_cells_may_lie_outside_the_coordinate_range() {
    let cell = GridSector { floor: Some(floor(0, None)), ..GridSector::empty() };
    let far = WorldGrid {
        origin_x: i32::MAX / 1024 - 1,
        ..grid(vec![None, None, None])
    };
    assert!(room_sectors(NodeId(3), &far, 0).is_empty());
    let near = WorldGrid { origin_x: 1_048_575, ..grid(vec![Some(cell), None]) };
    assert_eq!(room_sectors(NodeId(3), &near, 0).len(), 1);
}

#[test]
fn an_offset_is_the_same_as_raised_heights() {
    let at = |height: i32| {
        grid(vec![Some(GridSector {
            floor: Some(floor(height, None)),
            ceiling: Some(floor(height + 1024, None)),
            west: vec![wall(height, height + 512)],
            ..GridSector::empty()
        })])
    };
    let moved = room_sectors(NodeId(3), &at(-100), 300);
    let raised = room_sectors(NodeId(3), &at(200), 0);
    assert_eq!(format!("{moved:?}"), format!("{raised:?}"));
    assert_ne!(format!("{moved:?}"), format!("{:?}", room_sectors(NodeId(3), &at(-100), 0)));
}

#[test]
fn cells_list_floor_ceiling_and_walls_in_order() {
    let sector = GridSector {
        floor: Some(floor(0, None)),
        ceiling: Some(floor(1024, None)),
        east: vec![wall(0, 512), wall(512, 1024)],
        ..GridSector::empty()
    };
    let grid = grid(vec![None, Some(sector)]);
    let sectors = sectors_of(&grid);
    assert_eq!(sectors.len(), 1, "an empty cell lists nothing");
    let kinds: Vec<FaceKind> = sectors[0].faces.iter().map(|f| f.face.kind).collect();
    assert_eq!(
        kinds,
        vec![
            FaceKind::Floor,
            FaceKind::Ceiling,
            FaceKind::Wall { dir: GridDirection::East, stack: 0 },
            FaceKind::Wall { dir: GridDirection::East, stack: 1 },
        ]
    );
    let floor_face = sectors[0].faces[0];
    assert_eq!((floor_face.face.sx, floor_face.face.sz), (1, 0));
    match floor_face.placement {
        FacePlacement::Horizontal(placement) => {
            assert_eq!(placement.points_a[0], (0, 8, 3072), "north west, raised");
            assert_eq!(placement.points_a[2], (1024, 8, 2048), "south east");
        }
        FacePlacement::Wall(_) => panic!("a floor lies level"),
    }
}

#[test]
fn walking_a_room_queues_faces_and_outlines_culled_ones() {
    let cell = || Some(GridSector { floor: Some(floor(0, None)), ..GridSector::empty() });
    let grid = grid(vec![cell(), cell()]);
    let sectors = sectors_of(&grid);
    let views = vec![
        SectorViews { views: vec![floor_view(false)] },
        SectorViews { views: vec![floor_view(true)] },
    ];

    let mut scratch = PreviewScratch::new(16, 2);
    let outlines = walk_room(&mut scratch, &sectors, &views, no_fog(), true, (0, 0, 0));
    assert_eq!(scratch.packets.len(), 2, "both halves of the first floor");
    assert_eq!(scratch.packets[0].xy, [(0, 0), (10, 10), (0, 10)]);
    assert_eq!(outlines.len(), 1);
    assert_eq!(outlines[0].sx, 1);

    let mut scratch = PreviewScratch::new(16, 2);
    let outlines = walk_room(&mut scratch, &sectors, &views, no_fog(), false, (0, 0, 0));
    assert_eq!(outlines.len(), 0);
}

#[test]
fn walking_a_room_stops_behind_the_cell_that_fills_a_pool() {
    let cell = || Some(GridSector { floor: Some(floor(0, None)), ..GridSector::empty() });
    let grid = grid(vec![cell(), cell(), cell()]);
    let sectors = sectors_of(&grid);
    let views = vec![
        SectorViews { views: vec![floor_view(false)] },
        SectorViews { views: vec![floor_view(true)] },
        SectorViews { views: vec![floor_view(true)] },
    ];
    let mut scratch = PreviewScratch::new(2, 2);
    let outlines = walk_room(&mut scratch, &sectors, &views, no_fog(), true, (0, 0, 0));
    assert_eq!(scratch.packets.len(), 2);
    assert_eq!(outlines.len(), 0, "the cells behind the full pool are not visited");
}

#[test]
fn a_dropped_corner_takes_away_its_half() {
    let cell = GridSector { floor: Some(floor(0, Some(Corner::SW))), ..GridSector::empty() };
    let grid = grid(vec![Some(cell)]);
    let sectors = sectors_of(&grid);
    let views = vec![SectorViews { views: vec![floor_view(false)] }];
    let mut scratch = PreviewScratch::new(16, 2);
    walk_room(&mut scratch, &sectors, &views, no_fog(), false, (0, 0, 0));
    assert_eq!(scratch.packets.len(), 1);
}

#[test]
fn fog_tints_the_faces_of_a_room() {
    let cell = GridSector { east: vec![wall(0, 512)], ..GridSector::empty() };
    let grid = grid(vec![Some(cell)]);
    let sectors = sectors_of(&grid);
    let seen = WallView {
        shade: FaceShade::Flat { rgb: (200, 200, 200), sidedness: MaterialFaceSidedness::Both },
        quad: PREVIEW_FLOOR_UVS,
        in_front: true,
        projected: [at(0, 0), at(10, 0), at(10, 10), at(0, 10)],
    };
    let views = vec![SectorViews { views: vec![FaceView::Wall { depth: 500, wall: seen }] }];
    let mut scratch = PreviewScratch::new(16, 2);
    let fog = PreviewFog::from_grid(&grid, true);
    assert_eq!(fog, PreviewFog { enabled: true, rgb: (10, 20, 30), near: 100, far: 200 });
    walk_room(&mut scratch, &sectors, &views, fog, false, (0, 0, 0));
    assert_eq!(scratch.packets.len(), 2);
    assert_eq!(scratch.packets[0].colors, [(10, 20, 30); 3]);
    assert!(!PreviewFog::from_grid(&grid, false).enabled);
}

#[test]
fn face_bases_come_from_materials_or_fallbacks() {
    let sector = GridSector {
        floor: Some(floor(0, None)),
        east: vec![wall(0, 512)],
        ..GridSector::empty()
    };
    let grid = grid(vec![Some(sector)]);
    let faces = &sectors_of(&grid)[0].faces;
    let mut textures = textures();

    let (a, b) = room_face_bases(&project(), faces[0], &textures);
    assert_eq!(a, b);
    assert!(matches!(
        a.shade,
        FaceShade::Flat { sidedness: MaterialFaceSidedness::Both, .. }
    ));
    assert_eq!(a.uvs, [(0, 0); 4]);

    assert!(textures.finish_room_item(ResourceId(1), Some(slot())));
    let (a, _) = room_face_bases(&project(), faces[0], &textures);
    assert_eq!(
        a.shade,
        FaceShade::Textured {
            slot: slot(),
            tint: (1, 2, 3),
            blend_mode: BlendMode::Opaque,
            sidedness: MaterialFaceSidedness::Both,
        }
    );
    assert_eq!(a.uvs, PREVIEW_FLOOR_UVS);
    assert_eq!(a.shade, face_shade(&project(), Some(ResourceId(1)), (0, 0, 0), &textures));

    let (wall_base, other) = room_face_bases(&project(), faces[1], &textures);
    assert_eq!(wall_base, other);
    assert!(matches!(
        wall_base.shade,
        FaceShade::Flat { sidedness: MaterialFaceSidedness::Front, .. }
    ));
}

#[test]
fn light_replaces_the_colour_of_a_face() {
    let flat = FaceShade::Flat { rgb: (1, 1, 1), sidedness: MaterialFaceSidedness::Back };
    assert_eq!(
        light_face(flat, (4, 5, 6)),
        FaceShade::Flat { rgb: (4, 5, 6), sidedness: MaterialFaceSidedness::Back }
    );
    assert_eq!(textured_base_uvs(flat, PREVIEW_FLOOR_UVS), [(0, 0); 4]);
}

fn sky(directions: [ViewDirection; 4]) -> SkyQuad {
    SkyQuad { directions, colors: [[1; 3]; 4] }
}

#[test]
fn sky_quads_need_all_corners_in_front() {
    let ahead = |x, y| ViewDirection { x, y, z: 1000 };
    let inside = [ahead(-10, -10), ahead(10, -10), ahead(10, 10), ahead(-10, 10)];
    let mut quads = vec![];
    assert!(push_sky_quad(&mut quads, 4, sky(inside), 16));
    assert_eq!(quads.len(), 1);
    assert_eq!(quads[0].xy[0].0, 157);

    let mut behind = inside;
    behind[2].z = 16;
    assert!(!push_sky_quad(&mut quads, 4, sky(behind), 16));

    let outside = [ahead(900, 0), ahead(910, 0), ahead(910, 10), ahead(900, 10)];
    assert!(!push_sky_quad(&mut quads, 4, sky(outside), 16));
    assert!(!push_sky_quad(&mut quads, 1, sky(inside), 16));
    assert_eq!(quads.len(), 1);
}

#[test]
fn the_sky_is_queued_from_its_last_quad_on() {
    let ahead = |x, y| ViewDirection { x, y, z: 1000 };
    let at_x = |x| sky([ahead(x, 0), ahead(x + 10, 0), ahead(x + 10, 10), ahead(x, 10)]);
    let quads_of_sky = vec![at_x(0), at_x(900), at_x(100)];
    let mut quads = vec![];
    push_cyclorama(&mut quads, 4, false, &quads_of_sky, 16);
    assert!(quads.is_empty());
    push_cyclorama(&mut quads, 4, true, &quads_of_sky, 16);
    let lefts: Vec<i16> = quads.iter().map(|quad| quad.xy[0].0).collect();
    assert_eq!(lefts, vec![192, 160]);
    let mut one = vec![];
    push_cyclorama(&mut one, 1, true, &quads_of_sky, 16);
    assert_eq!(one.len(), 1);
}

#[test]
fn directions_turn_with_the_camera() {
    let yaw = YawProducts { x_cos: 5, x_sin: 3, z_cos: -20, z_sin: 1 };
    let (x, z) = turned_direction(yaw);
    assert_eq!((x, z), (4, 17));
    let pitch = PitchProducts { y_cos: 7, y_sin: 2, z_cos: z, z_sin: 4 };
    assert_eq!(tilted_direction(x, pitch), ViewDirection { x: 4, y: 3, z: 19 });
}

#[test]
fn a_far_vista_ring_mixes_textured_and_flat_parts() {
    let vista = FarVistaTextures {
        texture: None,
        panels: vec![Some(ResourceId(1)), None, Some(ResourceId(2))],
    };
    let mut textures = textures();
    textures.finish_room_item(ResourceId(1), Some(slot()));
    let p = [at(0, 0), at(20, 0), at(20, 10), at(0, 10)];
    let seen = VistaView { in_front: true, projected: p };
    let mut flat = p;
    flat[1].sz = 0;
    let views = vec![seen, seen, seen];
    let style = VistaStyle { enabled: true, tint: [5, 6, 7], slot_idx: 1023 };

    let mut scratch = PreviewScratch::new(8, 2);
    let mut quads = vec![];
    push_far_vista_ring(&mut scratch, &mut quads, 4, &vista, style, &views, &textures);
    assert_eq!(scratch.packets.len(), 2, "the panel whose texture is in memory");
    assert_eq!(scratch.packets[0].colors, [(5, 6, 7); 3]);
    assert_eq!(quads.len(), 2);
    assert_eq!(quads[0].colors, [[5, 6, 7]; 4]);

    let hidden = vec![
        VistaView { in_front: false, projected: p },
        VistaView { in_front: true, projected: flat },
        seen,
    ];
    let mut scratch = PreviewScratch::new(8, 2);
    let mut quads = vec![];
    push_far_vista_ring(&mut scratch, &mut quads, 4, &vista, style, &hidden, &textures);
    assert_eq!((scratch.packets.len(), quads.len()), (0, 1));

    let off = VistaStyle { enabled: false, ..style };
    push_far_vista_ring(&mut scratch, &mut quads, 4, &vista, off, &views, &textures);
    assert_eq!((scratch.packets.len(), quads.len()), (0, 1));
}

#[test]
fn the_corners_of_a_ring_stand_round_the_camera() {
    let corners = far_vista_corners([10, 0, 20], (100, 0), (0, 100), -5, 50);
    assert_eq!(corners, [[110, 50, 20], [10, 50, 120], [10, -5, 120], [110, -5, 20]]);
    let far = far_vista_corners([i32::MAX, 0, 0], (1, 0), (0, 0), 0, 0);
    assert_eq!(far[0][0], i32::MAX);
}

#[test]
fn far_vista_parts_are_two_triangles_or_a_tinted_quad() {
    let p = [at(0, 0), at(20, 0), at(20, 10), at(0, 10)];
    let mut scratch = PreviewScratch::new(8, 2);
    push_far_vista_textured_quad(&mut scratch, p, slot(), (5, 6, 7), 900);
    assert_eq!(scratch.packets.len(), 2);
    assert_eq!(scratch.packets[0].uvs, [(0, 0), (63, 0), (63, 31)]);
    assert_eq!(scratch.packets[1].uvs, [(0, 0), (63, 31), (0, 31)]);
    assert_eq!(scratch.packets[0].slot, 900);

    let quad = far_vista_quad(p, [5, 6, 7]);
    assert_eq!(quad.xy, [(0, 0), (20, 0), (0, 10), (20, 10)]);
    assert_eq!(quad.colors, [[5, 6, 7]; 4]);
}

#[test]
fn shadows_are_drawn_before_the_floor() {
    let mut scratch = PreviewScratch::new(8, 2);
    let p = [at(0, 0), at(10, 0), at(10, 10)];
    assert!(push_shadow_tex_tri(&mut scratch, p, [(0, 0), (63, 0), (63, 63)], slot()));
    assert_eq!(scratch.packets.len(), 1);
    assert_eq!(scratch.packets[0].colors, [(0x80, 0x80, 0x80); 3]);
    assert!(scratch.packets[0].material.is_some());
}

#[test]
fn portal_edges_are_kept_on_the_north_and_east_side() {
    let edge = |x, z, direction| Some(PortalEdge { x, z, direction });
    let canonical = canonical_portal_edge_for_array_cell;
    assert_eq!(canonical(2, 3, GridDirection::North), edge(2, 3, GridDirection::North));
    assert_eq!(canonical(2, 3, GridDirection::South), edge(2, 2, GridDirection::North));
    assert_eq!(canonical(2, 3, GridDirection::West), edge(1, 3, GridDirection::East));
    assert_eq!(canonical(0, 3, GridDirection::West), None);
    assert_eq!(canonical(2, 0, GridDirection::South), None);
    assert_eq!(canonical(2, 3, GridDirection::NorthEastSouthWest), None);
}

#[test]
fn a_seam_run_is_one_frame() {
    let corners = |x: i32| Some([(x, 0, 0), (x + 10, 0, 0), (x + 10, 50, 0), (x, 50, 0)]);
    let outline = push_portal_edge_wall_outline(corners(0));
    assert_eq!(outline.len(), 4);
    assert_eq!(outline[3], ((0, 50, 0), (0, 0, 0)));
    assert!(push_portal_edge_wall_outline(None).is_empty());

    let start = PortalEdge { x: 0, z: 0, direction: GridDirection::North };
    let run = PortalSeamRun { start, len: 3 };
    let lines = push_portal_seam_run(run, &vec![corners(0), None, corners(20)]);
    assert_eq!(lines.len(), 6, "two rails for each of two edges, and two posts");
    assert_eq!(lines[0], ((0, 0, 0), (10, 0, 0)));
    assert_eq!(lines[4], ((0, 0, 0), (0, 50, 0)));
    assert_eq!(lines[5], ((30, 0, 0), (30, 50, 0)));

    let diagonal = PortalEdge { x: 0, z: 0, direction: GridDirection::NorthEastSouthWest };
    let none = push_portal_seam_run(PortalSeamRun { start: diagonal, len: 1 }, &vec![corners(0)]);
    assert!(none.is_empty());

    let edge = PortalEdge { x: u16::MAX, z: 0, direction: GridDirection::North };
    let run = PortalSeamRun { start: edge, len: 2 };
    let lines = push_portal_seam_run(run, &vec![corners(0), corners(10)]);
    assert_eq!(lines.len(), 2, "the rails of the one edge in range, and no post");
}

#[test]
fn grid_lines_of_a_face_are_numbered() {
    assert_eq!(grid_axes(0), (1, 2));
    assert_eq!(grid_axes(1), (0, 2));
    assert_eq!(grid_axes(2), (0, 1));
    let mut lines = vec![];
    let mut ordinal = 5;
    push_grid_lines(&mut lines, 2, GridRange { first: -4, last: 4, stride: 4 }, 8, &mut ordinal);
    let drawn: Vec<i64> = lines.iter().map(|line| line.index).collect();
    assert_eq!(drawn, vec![-4, 0, 4]);
    assert!(lines.iter().all(|line| line.axis == 2));
    assert_eq!(ordinal, 8);
    push_grid_lines(&mut lines, 0, GridRange { first: 1, last: 0, stride: 1 }, 8, &mut ordinal);
    assert_eq!((lines.len(), ordinal), (3, 8));
}

#[test]
fn points_on_the_screen_are_no_lines() {
    assert!(screen_line_is_drawn(at(0, 0), at(0, 1)));
    assert!(!screen_line_is_drawn(at(4, 4), at(4, 4)));
}

#[test]
fn props_are_told_by_their_node() {
    let node = |id, kind| SceneNode { id: NodeId(id), parent: None, hidden: false, kind };
    let scene = Scene {
        nodes: vec![
            node(1, SceneNodeKind::Other),
            node(2, SceneNodeKind::BoxProp),
            node(3, SceneNodeKind::ImageProp),
            node(4, SceneNodeKind::CylinderProp),
        ],
    };
    assert!(!selected_node_is_image_prop(&scene, NodeId(1)));
    assert!(selected_node_is_image_prop(&scene, NodeId(2)));
    assert!(selected_node_is_image_prop(&scene, NodeId(3)));
    assert!(selected_node_is_image_prop(&scene, NodeId(4)));
    assert!(!selected_node_is_image_prop(&scene, NodeId(5)));
}

#[test]
fn the_grid_of_all_faces_keeps_to_its_limit() {
    let range = GridRange { first: 0, last: 599, stride: 1 };
    let face = |sky| FaceGrid { ranges: Some([(0, range), (2, range)]), sky };
    let unseen = FaceGrid { ranges: None, sky: false };

    let few = surface_grid(&vec![face(true), unseen, face(false)]);
    assert_eq!(few.len(), 3);
    assert!(few[0].is_empty() && few[1].is_empty());
    assert_eq!(few[2].len(), 1024, "half of 2400 counted lines, cut down to their share");

    let many = surface_grid(&vec![face(false); 4]);
    assert_eq!(many.iter().map(Vec::len).sum::<usize>(), 2048);
    assert!(many[0].iter().any(|line| line.axis == 2));

    let one = surface_grid(&vec![face(false)]);
    assert_eq!(one[0].len(), 1200);
}

#[test]
fn faces_beyond_a_side_of_the_screen_have_no_grid() {
    assert!(corners_near_screen(&vec![(-20, -20), (400, 300)]));
    assert!(corners_near_screen(&vec![(328, 248)]));
    assert!(!corners_near_screen(&vec![(329, 10), (400, 20)]));
    assert!(!corners_near_screen(&vec![(10, -9)]));
    assert!(!corners_near_screen(&vec![]));
    assert!(grid_line_is_major(-128) && grid_line_is_major(0));
    assert!(!grid_line_is_major(-96) && !grid_line_is_major(63));
}

#[test]
fn the_projection_is_set_up_round_the_anchor() {
    let ahead = CameraBasis { sin_yaw: 0, cos_yaw: 4096, sin_pitch: 0, cos_pitch: 4096 };
    let setup = setup_gte_for_camera(ahead, [10, 20, 30], [0, 0, 0], false, 1 << 20);
    assert_eq!(setup.shift, 0);
    assert_eq!(setup.rows, [[4096, 0, 0], [0, -4096, 0], [0, 0, -4096]]);
    assert_eq!(setup.translation, [-10, 20, 30]);
    let far = setup_gte_for_camera(ahead, [0, 0, 98_304], [0, 0, 0], true, 98_304);
    assert_eq!(far.shift, 2);
    assert_eq!(far.translation, [0, 0, 24_576]);
}

#[test]
fn beacons_stand_on_visible_points_of_interest() {
    let facts = |selected| PoiFacts {
        enabled: true,
        pages: vec!["text".to_string()],
        item: false,
        selected,
        hovered: false,
    };
    let component = |hidden, selected| Some(PoiComponent { hidden, facts: facts(selected) });
    let entity = |marked, children| PoiEntity { marked, children };
    let entities = vec![
        entity(true, vec![None, component(false, true), component(false, false)]),
        entity(true, vec![component(true, false), component(false, false)]),
        entity(false, vec![component(false, false)]),
        entity(true, vec![None]),
        entity(true, vec![component(false, false)]),
    ];
    let beacons = walk_point_of_interest_beacons(&entities);
    let places: Vec<usize> = beacons.iter().map(|beacon| beacon.index).collect();
    assert_eq!(places, vec![0, 4]);
    assert_eq!(beacons[0].style, poi_preview_style(true, false, true, false));
    assert_eq!(beacons[1].style, poi_preview_style(true, false, false, false));
}
