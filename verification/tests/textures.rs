use frontend::preview::grid::ResourceId;
use frontend::preview::material::TextureWindow;
use frontend::textures::editor::{
    upload_4bpp, AtlasPlacement, EditorTextures, IndexedTexture, ModelRefresh, SHADOW_CLUT_X,
    SHADOW_CLUT_Y, SHADOW_TPAGE_X, SHADOW_TPAGE_Y,
};
use frontend::textures::patterns::{
    particle_pixels, pattern_for_name, pattern_kind, shadow_pattern, Pattern,
};
use frontend::textures::plan::{
    bytes_signature, preview_texture_upload_plan, texture_cache_signature, FarVista, FileStamp,
    MaterialTexture, MaterialTextureMode, PlanItem, PlanProject, PlanResource, PlanResourceKind,
    PreparedTexture, SecondaryLayer, SecondarySource, StoredImage, TransitionRecipe,
};
use frontend::textures::refresh::{ItemSources, ModelAtlas, TextureOffer};
use frontend::textures::vram::Vram;
use frontend::textures::words::{
    align_up_to, model_atlas_clut_entry, opaque_room_clut_entry, pack_clut_word, pack_tpage_word,
    preview_clut_entry, psx_555, room_texture_window_size,
};

const VRAM_WIDTH: usize = 1024;

fn shadow_pixels() -> Vec<u8> {
    vec![1; 4096]
}

fn textures() -> EditorTextures {
    EditorTextures::new(&shadow_pixels())
}

#[test]
fn align_up_to_handles_aligned_and_misaligned_values() {
    assert_eq!(align_up_to(0, 64), 0);
    assert_eq!(align_up_to(1, 64), 64);
    assert_eq!(align_up_to(63, 64), 64);
    assert_eq!(align_up_to(64, 64), 64);
    assert_eq!(align_up_to(65, 64), 128);
    assert_eq!(align_up_to(127, 64), 128);
    assert_eq!(align_up_to(128, 64), 128);
    // Boundary 0 is a no-op (defensive -- the allocator
    // only ever passes 64).
    assert_eq!(align_up_to(33, 0), 33);
}

#[test]
fn procedural_room_texture_upload_is_compact_and_windowed() {
    let mut pixels = vec![0u8; 64 * 64];
    for row in 0..64usize {
        for hw in 0..16usize {
            let base = ((row ^ hw) & 0x0F) as u8;
            let src = row * 64 + hw * 4;
            pixels[src] = base;
            pixels[src + 1] = base.wrapping_add(1) & 0x0F;
            pixels[src + 2] = base.wrapping_add(2) & 0x0F;
            pixels[src + 3] = base.wrapping_add(3) & 0x0F;
        }
    }

    let mut textures = textures();
    let tpage_x = 320usize;
    upload_4bpp(&mut textures.vram, tpage_x, 0, &pixels);

    let word_at = |row: usize, hw: usize| -> u16 {
        textures.vram_words()[row * VRAM_WIDTH + tpage_x + hw]
    };
    assert_ne!(word_at(63, 15), 0);
    assert_eq!(word_at(64, 0), 0);
    assert_eq!(word_at(0, 16), 0);

    let placement = AtlasPlacement { page_index: 0, origin_u: 0, origin_v: 0 };
    let slot = textures
        .upload_procedural("stone", Some(placement))
        .expect("procedural texture fits");
    assert_eq!(
        slot.texture_window,
        TextureWindow::Tile { origin_u: 0, origin_v: 0, width: 64, height: 64 }
    );
}

#[test]
fn imported_room_clut_keeps_palette_zero_opaque() {
    assert_eq!(opaque_room_clut_entry(0), 0x8000);
    assert_eq!(opaque_room_clut_entry(0x1234), 0x9234);
}

#[test]
fn imported_model_clut_preserves_flagged_index_zero_transparency() {
    assert_eq!(model_atlas_clut_entry(0, 0, true), 0);
    assert_eq!(model_atlas_clut_entry(0, 0, false), 0x8000);
    assert_eq!(model_atlas_clut_entry(1, 0, true), 0x8000);
    assert_eq!(model_atlas_clut_entry(2, 0x0001, true), 0x8001);
    assert_eq!(model_atlas_clut_entry(3, 0x001F, true), 0x801F);
    assert_eq!(model_atlas_clut_entry(4, 0x0421, true), 0x8421);
}

#[test]
fn preview_clut_marks_visible_entries_for_textured_blending() {
    assert_eq!(preview_clut_entry(0, 0, true, false), 0);
    assert_eq!(preview_clut_entry(0, 0, true, true), 0x8000);
    assert_eq!(preview_clut_entry(1, 0, true, false), 0x8000);
    assert_eq!(preview_clut_entry(2, 0x1234, true, false), 0x9234);
}

fn indexed(width: u16, height: u16, depth: u8) -> IndexedTexture {
    let (texels_per_halfword, clut_entries) = match depth {
        4 => (4u16, 16u16),
        8 => (2u16, 256u16),
        _ => panic!("unsupported test depth"),
    };
    let halfwords_per_row = width.div_ceil(texels_per_halfword);
    let mut pixel_bytes = Vec::new();
    for _ in 0..usize::from(halfwords_per_row) * usize::from(height) {
        pixel_bytes.extend_from_slice(&0x3412u16.to_le_bytes());
    }
    let mut clut_bytes = Vec::new();
    for index in 0..clut_entries {
        clut_bytes.extend_from_slice(&(0x8000 | index).to_le_bytes());
    }
    IndexedTexture {
        width,
        height,
        halfwords_per_row,
        clut_entries,
        index_zero_transparent: false,
        pixel_bytes,
        clut_bytes,
    }
}

#[test]
fn model_atlas_upload_accepts_full_8bpp_page_width() {
    let mut textures = textures();

    let slot = textures
        .upload_model_atlas_psxt(&indexed(256, 16, 8))
        .expect("256-texel 8bpp model atlas fits in one PSX texture page");

    assert_eq!(slot.tpage_word & 0x0F, 0);
    assert_eq!((slot.tpage_word >> 7) & 0x03, 1);
    assert_eq!(slot.texture_width, u8::MAX);
    assert_eq!(slot.texture_height, 16);
    assert_eq!(textures.next_model_tpage_x, 128);
    let last_uploaded_word = (256usize + 15) * VRAM_WIDTH + 127;
    assert_eq!(textures.vram_words()[last_uploaded_word], 0x3412);
}

#[test]
fn model_atlas_upload_accepts_4bpp_and_emits_4bpp_tpage() {
    let mut textures = textures();

    let slot = textures
        .upload_model_atlas_psxt(&indexed(128, 128, 4))
        .expect("128x128 4bpp model atlas fits in one PSX texture page");

    assert_eq!((slot.tpage_word >> 7) & 0x03, 0);
    assert_eq!(slot.texture_width, 128);
    assert_eq!(slot.texture_height, 128);
    assert_eq!(textures.next_model_tpage_x, 64);
    assert_eq!(textures.next_model_clut_y, 482);
    let last_uploaded_word = (256usize + 127) * VRAM_WIDTH + 31;
    assert_eq!(textures.vram_words()[last_uploaded_word], 0x3412);
    assert_eq!(textures.vram_words()[481 * VRAM_WIDTH + 15], 0x800F);
}

#[test]
fn editor_shadow_texture_survives_room_material_refresh() {
    let mut textures = textures();
    let shadow_tex_idx =
        (SHADOW_TPAGE_Y as usize + 31) * VRAM_WIDTH + SHADOW_TPAGE_X as usize + 7;
    let shadow_clut_idx = SHADOW_CLUT_Y as usize * VRAM_WIDTH + SHADOW_CLUT_X as usize;

    let texture_word = textures.vram_words()[shadow_tex_idx];
    let clut_word = textures.vram_words()[shadow_clut_idx + 1];
    assert_ne!(texture_word, 0);
    assert_ne!(clut_word, 0);

    textures.refresh(&vec![], &vec![]);
    textures.clear_room_materials();

    assert_eq!(textures.vram_words()[shadow_tex_idx], texture_word);
    assert_eq!(textures.vram_words()[shadow_clut_idx + 1], clut_word);
}

fn no_transition() -> TransitionRecipe {
    TransitionRecipe { description: String::new(), source_a: None, source_b: None }
}

fn plain(image: Option<&str>) -> MaterialTexture {
    MaterialTexture {
        mode: MaterialTextureMode::SimpleImage,
        tint: (0x80, 0x80, 0x80),
        image: image.map(|path| StoredImage { path: path.to_string(), stamp: FileStamp::Missing }),
        generated: String::new(),
        transition: no_transition(),
        secondary: None,
    }
}

fn resource(id: u64, name: String, texture: MaterialTexture) -> PlanResource {
    PlanResource { id: ResourceId(id), name, kind: PlanResourceKind::Material(texture) }
}

fn empty_project() -> PlanProject {
    PlanProject {
        resources: vec![],
        scene_materials: vec![],
        image_prop_materials: vec![],
        far_vistas: vec![],
        probe_psxt: None,
    }
}

fn tile(index: usize) -> AtlasPlacement {
    AtlasPlacement {
        page_index: (index / 16) as u16,
        origin_u: ((index % 4) * 64) as u8,
        origin_v: ((index / 4 % 4) * 64) as u8,
    }
}

fn pattern_only(index: usize) -> ItemSources {
    ItemSources { prepared: None, stored: None, pattern_tile: Some(tile(index)), secondary: None }
}

fn patterns_for(plan: &Vec<PlanItem>) -> Vec<ItemSources> {
    (0..plan.len()).map(pattern_only).collect()
}

#[test]
fn refresh_prioritizes_scene_materials_over_resource_order() {
    let mut project = empty_project();
    for index in 0..80 {
        project.resources.push(resource(index, format!("Unused {index}"), plain(None)));
    }
    let used = ResourceId(80);
    project.resources.push(resource(80, "Active Late Material".to_string(), plain(None)));
    project.scene_materials = vec![used, used];

    let plan = preview_texture_upload_plan(&project);
    assert_eq!(plan.first().map(|item| item.id), Some(used));

    let mut textures = textures();
    assert!(textures.refresh(&plan, &patterns_for(&plan)));

    assert!(textures.slot(used).is_some());
    assert!(textures.slot(ResourceId(70)).is_none());
}

fn vista(panel: ResourceId) -> FarVista {
    FarVista { enabled: true, panels: vec![Some(panel), None], texture: None }
}

#[test]
fn upload_plan_includes_far_vista_panel_textures() {
    let mut project = empty_project();
    let panel = ResourceId(1);
    project.resources.push(resource(1, "Vista Panel".to_string(), plain(Some("vista.psxt"))));
    project.far_vistas.push(vista(panel));

    let plan = preview_texture_upload_plan(&project);
    let item = plan
        .iter()
        .find(|item| item.id == panel)
        .expect("far-vista panel texture is uploaded for preview");
    assert_eq!(item.signature, "vista.psxt");
    assert!(!item.force_zero_opaque);
    assert!(!item.allow_procedural_fallback);
}

#[test]
fn upload_plan_prioritizes_far_vista_panels_before_unused_materials() {
    let mut project = empty_project();
    let used = ResourceId(100);
    project.resources.push(resource(100, "Active Material".to_string(), plain(None)));
    for index in 0..80 {
        project.resources.push(resource(index, format!("Unused {index}"), plain(None)));
    }
    let panel = ResourceId(101);
    project.resources.push(resource(101, "Vista Panel".to_string(), plain(Some("vista.psxt"))));
    project.scene_materials = vec![used];
    project.far_vistas.push(vista(panel));

    let plan = preview_texture_upload_plan(&project);
    let panel_index = plan
        .iter()
        .position(|item| item.id == panel)
        .expect("far-vista panel texture is uploaded for preview");
    let first_unused_index = plan
        .iter()
        .position(|item| item.id == ResourceId(0))
        .expect("unused material remains in the upload plan");

    assert_eq!(plan.first().map(|item| item.id), Some(used));
    assert!(panel_index < first_unused_index);
}

fn transition_project(sand: &str) -> PlanProject {
    let generated = |recipe: &str| MaterialTexture {
        mode: MaterialTextureMode::Generated,
        generated: recipe.to_string(),
        ..plain(None)
    };
    let mut project = empty_project();
    project.resources.push(resource(1, "Stone".to_string(), generated("72, 80, 96")));
    project.resources.push(resource(2, "Sand".to_string(), generated(sand)));
    project.resources.push(resource(
        3,
        "Sand over stone".to_string(),
        MaterialTexture {
            mode: MaterialTextureMode::Transition,
            transition: TransitionRecipe {
                description: "64 128".to_string(),
                source_a: Some(ResourceId(1)),
                source_b: Some(ResourceId(2)),
            },
            ..plain(None)
        },
    ));
    project
}

#[test]
fn transition_material_bakes_into_native_editor_preview_texture_slot() {
    let plan = preview_texture_upload_plan(&transition_project("184, 144, 88"));
    let item = plan
        .iter()
        .find(|item| item.id == ResourceId(3))
        .expect("transition is included in preview upload plan");
    assert!(item.signature.starts_with("@transition:"));
    assert_eq!(item.prepared, PreparedTexture::Transition);

    let changed = preview_texture_upload_plan(&transition_project("216, 176, 112"));
    let other = changed
        .iter()
        .find(|item| item.id == ResourceId(3))
        .expect("transition remains in upload plan");
    assert_ne!(item.cache_signature, other.cache_signature);

    let mut textures = textures();
    let mut sources = patterns_for(&plan);
    for source in &mut sources {
        source.prepared =
            Some(TextureOffer { texture: indexed(64, 64, 4), placement: source.pattern_tile });
    }
    textures.refresh(&plan, &sources);
    let slot = textures.slot(ResourceId(3)).expect("transition preview slot");
    assert_eq!(slot.texture_width, 64);
    assert_eq!(slot.texture_height, 64);

    let mut sources = patterns_for(&changed);
    for source in &mut sources {
        source.prepared =
            Some(TextureOffer { texture: indexed(64, 64, 4), placement: source.pattern_tile });
    }
    textures.refresh(&changed, &sources);
    assert!(textures.slot(ResourceId(3)).is_some());
}

#[test]
fn generated_model_secondary_layer_uploads_to_its_own_slot() {
    let layer = SecondaryLayer {
        mode: MaterialTextureMode::Generated,
        image: None,
        generated_psxt: vec![1, 2, 3],
        transition: no_transition(),
    };
    let mut project = empty_project();
    project.resources.push(resource(
        1,
        "Crystal".to_string(),
        MaterialTexture { secondary: Some(layer), ..plain(None) },
    ));
    let plan = preview_texture_upload_plan(&project);
    assert_eq!(plan[0].secondary, SecondarySource::Generated);

    let mut textures = textures();
    let id = plan[0].id;
    let second = AtlasPlacement { page_index: 1, origin_u: 0, origin_v: 0 };
    let sources = vec![ItemSources {
        secondary: Some(TextureOffer { texture: indexed(128, 128, 4), placement: Some(second) }),
        ..pattern_only(0)
    }];
    textures.refresh(&plan, &sources);

    let base = textures.slot(id).expect("base preview fallback");
    let layer = textures.secondary_slot(id).expect("generated secondary texture slot");
    assert_ne!(base.clut_word, layer.clut_word);
    assert_eq!(layer.texture_width, 128);
    assert_eq!(layer.texture_height, 128);
    assert_ne!(layer.texture_window, TextureWindow::Unbounded);

    let plain_project = PlanProject {
        resources: vec![resource(1, "Crystal".to_string(), plain(None))],
        ..empty_project()
    };
    let plain_plan = preview_texture_upload_plan(&plain_project);
    textures.refresh(&plain_plan, &patterns_for(&plain_plan));
    assert!(
        textures.secondary_slot(id).is_none(),
        "disabled layer recipes should not reserve preview VRAM"
    );
}

#[test]
fn a_refresh_is_skipped_while_nothing_changed() {
    let mut textures = textures();
    assert!(!textures.begin_refresh(vec![]));
    assert!(textures.has_room_material_slot());
}

#[test]
fn model_atlases_are_kept_by_signature() {
    let mut textures = textures();
    let id = ResourceId(5);
    assert!(matches!(textures.model_refresh(id, "a"), ModelRefresh::Load));
    let slot = textures.upload_model_atlas_psxt(&indexed(64, 64, 4));
    textures.finish_model(id, "a".to_string(), slot);
    assert_eq!(textures.model_atlas_slot(id), slot);
    assert!(matches!(textures.model_refresh(id, "a"), ModelRefresh::Keep));
    assert!(!matches!(textures.model_refresh(id, "b"), ModelRefresh::Keep));
    textures.drop_model(id);
    assert_eq!(textures.model_atlas_slot(id), None);
}

#[test]
fn broken_atlases_are_refused() {
    let mut textures = textures();
    let mut broken = indexed(64, 64, 4);
    broken.clut_bytes.pop();
    assert_eq!(textures.upload_model_atlas_psxt(&broken), None);
    assert_eq!(textures.upload_model_atlas_psxt(&indexed(512, 16, 8)), None);
    assert_eq!(textures.upload_procedural("stone", None), None);
}

#[test]
fn words_follow_the_console_layout() {
    assert_eq!(psx_555((255, 0, 0)) & 0x1F, 31);
    assert_eq!(pack_tpage_word(5, 1), 0x0015);
    assert_eq!(pack_clut_word(16, 480), (480 << 6) | 1);
    assert_eq!(room_texture_window_size(64), Some(64));
    assert_eq!(room_texture_window_size(48), None);
}

#[test]
fn patterns_are_chosen_by_name() {
    assert_eq!(pattern_kind("Old Brick Wall"), Pattern::Brick);
    assert_eq!(pattern_kind("Mystery"), Pattern::Checker);
    let stone = pattern_for_name("stone floor");
    assert_eq!(stone.pixels.len(), 64 * 64);
    assert_eq!(stone.palette.len(), 16);
    assert!(stone.pixels.iter().all(|index| *index < 16));
    assert_eq!(particle_pixels().len(), 16 * 16);
}

#[test]
fn signatures_change_with_the_file() {
    let missing = texture_cache_signature("a.psxt", FileStamp::Missing);
    let sized = texture_cache_signature("a.psxt", FileStamp::Length { len: 9 });
    let dated = texture_cache_signature(
        "a.psxt",
        FileStamp::Modified { len: 9, seconds: 7, nanos: 5 },
    );
    assert_ne!(missing, sized);
    assert_ne!(sized, dated);
    assert_ne!(bytes_signature(Some(&vec![1, 2])), bytes_signature(Some(&vec![2, 1])));
    assert_ne!(bytes_signature(None), bytes_signature(Some(&vec![1])));
}

#[test]
fn memory_starts_empty() {
    let mut vram = Vram::new();
    assert_eq!(vram.words().len(), 1024 * 512);
    vram.write_rect(3, 4, 2, 1, &vec![7, 8]);
    assert_eq!(vram.word(3, 4), 7);
    assert_eq!(vram.word(4, 4), 8);
    assert_eq!(vram.word(5, 4), 0);
}

#[test]
fn the_shadow_is_solid_inside_and_dithered_outside() {
    let between = 31 * 64 + 50;
    let mut coverage = vec![38; 4096];
    let shade = vec![3; 4096];
    let shadow = shadow_pattern(&coverage, &shade);
    assert_eq!(shadow.pixels[31 * 64 + 31], 5, "solid in the middle");
    assert_eq!(shadow.pixels[0], 0, "clear in the corner");
    assert_eq!(shadow.pixels[between], 0, "no more than its threshold is covered");
    coverage[between] = 39;
    assert_eq!(shadow_pattern(&coverage, &shade).pixels[between], 3);
    assert_eq!(shadow.palette[0], 0);
    assert_eq!(shadow.palette[4], 0x8000 | (2 << 10) | (2 << 5) | 2);
}

fn stored(index: usize) -> ItemSources {
    let offer = TextureOffer { texture: indexed(32, 32, 4), placement: Some(tile(index)) };
    ItemSources { stored: Some(offer), ..pattern_only(index) }
}

fn two_materials() -> PlanProject {
    PlanProject {
        resources: vec![
            resource(1, "Stone".to_string(), plain(None)),
            resource(2, "Wood".to_string(), plain(None)),
        ],
        ..empty_project()
    }
}

#[test]
fn a_refresh_takes_stored_textures_before_patterns() {
    let plan = preview_texture_upload_plan(&two_materials());
    let mut textures = textures();
    assert!(textures.refresh(&plan, &vec![stored(0), pattern_only(1)]));
    assert_eq!(textures.slot(plan[0].id).map(|slot| slot.texture_width), Some(32));
    assert_eq!(textures.slot(plan[1].id).map(|slot| slot.texture_width), Some(64));
    assert_eq!(textures.next_clut_x, 32);

    assert!(!textures.refresh(&plan, &patterns_for(&plan)), "the plan is in memory");
    assert_eq!(textures.slot(plan[0].id).map(|slot| slot.texture_width), Some(32));
}

#[test]
fn an_item_without_a_texture_is_passed_over() {
    let plan = preview_texture_upload_plan(&two_materials());
    let nothing = ItemSources { pattern_tile: None, ..pattern_only(0) };
    let mut textures = textures();
    assert!(textures.refresh(&plan, &vec![nothing, pattern_only(1)]));
    assert_eq!(textures.slot(plan[0].id), None);
    assert!(textures.slot(plan[1].id).is_some());
}

#[test]
fn an_unreadable_panel_costs_no_other_material_its_slot() {
    let mut project = two_materials();
    project.scene_materials = vec![ResourceId(1)];
    let missing = StoredImage { path: "panel.psxt".to_string(), stamp: FileStamp::Missing };
    project.resources.push(PlanResource {
        id: ResourceId(3),
        name: "Panel".to_string(),
        kind: PlanResourceKind::Texture(missing),
    });
    project.far_vistas.push(vista(ResourceId(3)));
    let plan = preview_texture_upload_plan(&project);
    let ids: Vec<u64> = plan.iter().map(|item| item.id.0).collect();
    assert_eq!(ids, vec![1, 3, 2]);

    let mut textures = textures();
    let sources = vec![stored(0), pattern_only(1), stored(2)];
    assert!(textures.refresh(&plan, &sources));
    assert!(textures.slot(ResourceId(1)).is_some());
    assert_eq!(textures.slot(ResourceId(3)), None, "a panel has no pattern to stand in");
    assert!(textures.slot(ResourceId(2)).is_some());
}

#[test]
fn a_refresh_ends_when_no_palette_is_left() {
    let mut project = empty_project();
    for index in 0..70 {
        project.resources.push(resource(index, format!("Stone {index}"), plain(None)));
    }
    let plan = preview_texture_upload_plan(&project);
    let mut textures = textures();
    textures.refresh(&plan, &patterns_for(&plan));
    assert!(textures.slot(plan[63].id).is_some());
    assert_eq!(textures.slot(plan[64].id), None);
    assert_eq!(textures.next_clut_x, 1024);
}

#[test]
fn tall_model_atlases_are_kept_out_of_room_memory() {
    let mut textures = textures();
    assert_eq!(textures.upload_model_atlas_psxt(&indexed(64, 225, 4)), None);
    assert!(textures.upload_model_atlas_psxt(&indexed(64, 224, 4)).is_some());
    assert_eq!(textures.vram_words()[479 * VRAM_WIDTH], 0x3412);
    assert_eq!(textures.vram_words()[480 * VRAM_WIDTH], 0);
}

#[test]
fn models_are_loaded_once_and_forgotten_without_an_atlas() {
    let model = |signature: &str, texture| ModelAtlas {
        id: ResourceId(4),
        signature: signature.to_string(),
        texture,
    };
    let mut textures = textures();
    textures.refresh_models(&vec![model("a.psxt", Some(indexed(64, 64, 4)))]);
    let slot = textures.model_atlas_slot(ResourceId(4));
    assert!(slot.is_some());
    assert_eq!(textures.next_model_tpage_x, 64);
    textures.refresh_models(&vec![model("a.psxt", None)]);
    assert_eq!(textures.model_atlas_slot(ResourceId(4)), slot);
    textures.refresh_models(&vec![model("b.psxt", None)]);
    assert_eq!(textures.model_atlas_slot(ResourceId(4)), None);
    assert!(!textures.model_cache.contains_key(&4));
    textures.refresh_models(&vec![model("", None)]);
    assert_eq!(textures.model_atlas_slot(ResourceId(4)), None);
    assert_eq!(textures.model_cache[&4].signature, "", "that it has none is known");
    assert!(matches!(textures.model_refresh(ResourceId(4), ""), ModelRefresh::Keep));
}
