//! Bringing the editor's texture memory up to date with a project.

use crate::preview::grid::ResourceId;
use crate::preview::material::MaterialSlot;
use crate::textures::editor::{
    atlas_clut, atlas_columns, atlas_slot, atlas_taken, in_model_region, in_room_region, overlaid,
    pixel_words, room_clut, room_slot, room_texture_taken, same_signatures, AtlasPlacement,
    EditorTextures, IndexedTexture, ModelAtlasCacheEntry, ModelRefresh, PreviewTextureSignature,
    MODEL_CLUT_FIRST_Y, MODEL_TPAGE_Y, ROOM_CLUT_HALFWORDS, ROOM_CLUT_Y,
};
use crate::textures::patterns::{named_pattern, pattern_palette, pattern_pixels};
use crate::textures::plan::PlanItem;
use crate::textures::vram::{in_rect, in_vram, texel_words, Vram};
use vstd::prelude::*;

verus! {

/// A parsed texture, and the tile that the page allocator found for it.
#[derive(Debug)]
pub struct TextureOffer {
    pub texture: IndexedTexture,
    pub placement: Option<AtlasPlacement>,
}

impl TextureOffer {
    /// The texture lies in its tile.
    pub open spec fn wf(self) -> bool {
        self.placement matches Some(p) ==> p.holds(
            self.texture.width as int,
            self.texture.height as int,
        )
    }
}

/// What there is to upload for a planned item.
#[derive(Debug)]
pub struct ItemSources {
    /// The texture that was prepared in memory.
    pub prepared: Option<TextureOffer>,
    /// The texture of the stored file.
    pub stored: Option<TextureOffer>,
    /// The tile for the pattern that stands in for a missing texture.
    pub pattern_tile: Option<AtlasPlacement>,
    /// The texture of the second layer.
    pub secondary: Option<TextureOffer>,
}

impl ItemSources {
    /// Every texture lies in its tile.
    pub open spec fn wf(self) -> bool {
        &&& self.prepared matches Some(offer) ==> offer.wf()
        &&& self.stored matches Some(offer) ==> offer.wf()
        &&& self.pattern_tile matches Some(p) ==> p.holds(64, 64)
        &&& self.secondary matches Some(offer) ==> offer.wf()
    }
}

/// What a refresh of the room textures changes.
#[verifier::ext_equal]
pub struct RoomState {
    pub words: Seq<u16>,
    pub cache: Map<u64, MaterialSlot>,
    pub secondary: Map<u64, MaterialSlot>,
    pub next_clut_x: u16,
}

/// What a refresh of the model atlases changes.
#[verifier::ext_equal]
pub struct ModelState {
    pub words: Seq<u16>,
    pub models: Map<u64, ModelAtlasCacheEntry>,
    pub next_x: u16,
    pub next_y: u16,
}

impl EditorTextures {
    /// The room textures.
    pub open spec fn room_state(self) -> RoomState {
        RoomState {
            words: self.vram@,
            cache: self.cache@,
            secondary: self.secondary_cache@,
            next_clut_x: self.next_clut_x,
        }
    }

    /// The model atlases.
    pub open spec fn model_state(self) -> ModelState {
        ModelState {
            words: self.vram@,
            models: self.model_cache@,
            next_x: self.next_model_tpage_x,
            next_y: self.next_model_clut_y,
        }
    }

    /// Nothing differs but the room textures.
    pub open spec fn same_beside_rooms(self, before: EditorTextures) -> bool {
        &&& self.model_cache@ == before.model_cache@
        &&& self.shadow_slot == before.shadow_slot
        &&& self.particle_slot == before.particle_slot
        &&& self.next_model_tpage_x == before.next_model_tpage_x
        &&& self.next_model_clut_y == before.next_model_clut_y
    }

    /// Nothing differs but the model atlases.
    pub open spec fn same_beside_models(self, before: EditorTextures) -> bool {
        &&& self.cache@ == before.cache@
        &&& self.secondary_cache@ == before.secondary_cache@
        &&& self.shadow_slot == before.shadow_slot
        &&& self.particle_slot == before.particle_slot
        &&& self.room_signature@ == before.room_signature@
        &&& self.next_clut_x == before.next_clut_x
    }
}

/// Memory with a block of pixel words and, over it, one row of palette entries.
pub open spec fn painted(
    words: Seq<u16>,
    left: int,
    top: int,
    width: int,
    height: int,
    pixels: Seq<u16>,
    clut_x: int,
    clut_y: int,
    clut: Seq<u16>,
) -> Seq<u16> {
    Seq::new(
        words.len(),
        |i: int|
            {
                let x = i % 1024;
                let y = i / 1024;
                if in_rect(x, y, clut_x, clut_y, clut.len() as int, 1) {
                    clut[x - clut_x]
                } else if in_rect(x, y, left, top, width, height) {
                    pixels[(y - top) * width + (x - left)]
                } else {
                    words[i]
                }
            },
    )
}

proof fn lemma_painted(
    after: Vram,
    before: Vram,
    left: int,
    top: int,
    width: int,
    height: int,
    pixels: Seq<u16>,
    clut_x: int,
    clut_y: int,
    clut: Seq<u16>,
)
    requires
        after.wf(),
        before.wf(),
        overlaid(after, before, left, top, width, height, pixels, clut_x, clut_y, clut),
    ensures
        after@ == painted(before@, left, top, width, height, pixels, clut_x, clut_y, clut),
{
    after.lemma_words();
    before.lemma_words();
    let all = painted(before@, left, top, width, height, pixels, clut_x, clut_y, clut);
    assert forall|i: int| 0 <= i < 524288 implies after@[i] == all[i] by {
        let x = i % 1024;
        let y = i / 1024;
        assert(in_vram(x, y));
        assert(after.at(x, y) == after@[i]);
        assert(before.at(x, y) == before@[i]);
    }
    assert(after@ =~= all);
}

/// A room texture is taken from an offer.
pub open spec fn offer_taken(offer: Option<TextureOffer>, next_clut_x: u16) -> bool {
    offer matches Some(o) && o.placement is Some && room_texture_taken(o.texture, next_clut_x)
}

/// What taking a room texture leaves behind.
pub open spec fn with_offer(state: RoomState, offer: TextureOffer, force_zero_opaque: bool) -> RoomState {
    let texture = offer.texture;
    let tile = offer.placement->0;
    RoomState {
        words: painted(
            state.words,
            tile.left(),
            tile.origin_v as int,
            texture.halfwords_per_row as int,
            texture.height as int,
            pixel_words(texture),
            state.next_clut_x as int,
            ROOM_CLUT_Y as int,
            room_clut(texture, force_zero_opaque),
        ),
        next_clut_x: (state.next_clut_x + ROOM_CLUT_HALFWORDS) as u16,
        ..state
    }
}

/// The slot that a taken room texture gets.
pub open spec fn offered_slot(state: RoomState, offer: TextureOffer) -> MaterialSlot {
    room_slot(
        offer.placement->0,
        state.next_clut_x,
        offer.texture.width as u8,
        offer.texture.height as u8,
    )
}

/// What drawing a pattern into its tile leaves behind.
pub open spec fn with_pattern(state: RoomState, name: Seq<char>, tile: AtlasPlacement) -> RoomState {
    RoomState {
        words: painted(
            state.words,
            tile.left(),
            tile.origin_v as int,
            16,
            64,
            texel_words(pattern_pixels(named_pattern(name)), 1024),
            state.next_clut_x as int,
            ROOM_CLUT_Y as int,
            pattern_palette(named_pattern(name)),
        ),
        next_clut_x: (state.next_clut_x + ROOM_CLUT_HALFWORDS) as u16,
        ..state
    }
}

/// A palette is left.
pub open spec fn palette_left(state: RoomState) -> bool {
    state.next_clut_x + ROOM_CLUT_HALFWORDS <= 1024
}

/// An item's first texture: the prepared one if it is taken, else the stored
/// one, else, where the item allows it, the pattern of its name.
pub open spec fn first_upload(state: RoomState, item: PlanItem, sources: ItemSources) -> (
    RoomState,
    Option<MaterialSlot>,
) {
    if offer_taken(sources.prepared, state.next_clut_x) {
        let offer = sources.prepared->0;
        (with_offer(state, offer, item.force_zero_opaque), Some(offered_slot(state, offer)))
    } else if offer_taken(sources.stored, state.next_clut_x) {
        let offer = sources.stored->0;
        (with_offer(state, offer, item.force_zero_opaque), Some(offered_slot(state, offer)))
    } else if item.allow_procedural_fallback && sources.pattern_tile is Some && palette_left(state) {
        let tile = sources.pattern_tile->0;
        (
            with_pattern(state, item.name@, tile),
            Some(room_slot(tile, state.next_clut_x, 64, 64)),
        )
    } else {
        (state, None)
    }
}

/// An item's slots are recorded, and its second texture is taken if there is
/// one. An item that gets no first texture changes nothing.
pub open spec fn with_item(state: RoomState, item: PlanItem, sources: ItemSources) -> RoomState {
    let (uploaded, slot) = first_upload(state, item, sources);
    match slot {
        None => uploaded,
        Some(slot) => {
            let cached = RoomState { cache: uploaded.cache.insert(item.id.0, slot), ..uploaded };
            if offer_taken(sources.secondary, cached.next_clut_x) {
                let offer = sources.secondary->0;
                let second = with_offer(cached, offer, false);
                RoomState {
                    secondary: second.secondary.insert(item.id.0, offered_slot(cached, offer)),
                    ..second
                }
            } else {
                cached
            }
        },
    }
}

/// What the items of a plan leave behind, from one on: as many as fit get their
/// textures. An item that gets none is passed over; the upload ends when no
/// palette is left.
pub open spec fn with_items(
    state: RoomState,
    plan: Seq<PlanItem>,
    sources: Seq<ItemSources>,
    from: int,
) -> RoomState
    decreases plan.len() - from,
{
    if from < 0 || from >= plan.len() || !palette_left(state) {
        state
    } else {
        with_items(with_item(state, plan[from], sources[from]), plan, sources, from + 1)
    }
}

/// Memory without any room texture.
pub open spec fn without_rooms(state: RoomState) -> RoomState {
    RoomState {
        words: Seq::new(
            state.words.len(),
            |i: int|
                if in_room_region(i % 1024, i / 1024) {
                    0
                } else {
                    state.words[i]
                },
        ),
        cache: Map::empty(),
        secondary: Map::empty(),
        next_clut_x: 0,
    }
}

/// What identifies an item's upload.
pub open spec fn item_signature(item: PlanItem) -> PreviewTextureSignature {
    PreviewTextureSignature {
        id: item.id,
        path: item.signature,
        cache_signature: item.cache_signature,
        name: item.name,
        force_zero_opaque: item.force_zero_opaque,
        allow_procedural_fallback: item.allow_procedural_fallback,
        secondary_signature: item.secondary_signature,
    }
}

/// What identifies the uploads of a plan.
pub open spec fn plan_signature(plan: Seq<PlanItem>) -> Seq<PreviewTextureSignature> {
    Seq::new(plan.len(), |i: int| item_signature(plan[i]))
}

fn list_signatures(plan: &Vec<PlanItem>) -> (signature: Vec<PreviewTextureSignature>)
    ensures
        signature@ == plan_signature(plan@),
{
    let mut signature: Vec<PreviewTextureSignature> = Vec::new();
    for i in 0..plan.len()
        invariant
            signature@ == plan_signature(plan@.take(i as int)),
    {
        let item = &plan[i];
        signature.push(
            PreviewTextureSignature {
                id: item.id,
                path: item.signature.clone(),
                cache_signature: item.cache_signature.clone(),
                name: item.name.clone(),
                force_zero_opaque: item.force_zero_opaque,
                allow_procedural_fallback: item.allow_procedural_fallback,
                secondary_signature: item.secondary_signature.clone(),
            },
        );
        assert(signature@ =~= plan_signature(plan@.take(i + 1)));
    }
    assert(plan@.take(plan@.len() as int) =~= plan@);
    signature
}

impl EditorTextures {
    fn take_offer(&mut self, offer: &Option<TextureOffer>, force_zero_opaque: bool) -> (slot: Option<
        MaterialSlot,
    >)
        requires
            old(self).wf(),
            offer matches Some(o) ==> o.wf(),
        ensures
            final(self).wf(),
            final(self).same_beside_rooms(*old(self)),
            final(self).room_signature@ == old(self).room_signature@,
            ({
                let state = old(self).room_state();
                if offer_taken(*offer, state.next_clut_x) {
                    &&& slot == Some(offered_slot(state, offer->0))
                    &&& final(self).room_state() == with_offer(state, offer->0, force_zero_opaque)
                } else {
                    slot is None && final(self).room_state() == state
                }
            }),
    {
        match offer {
            Some(o) => {
                let slot = self.upload_psxt_bytes_with_clut_mode(
                    &o.texture,
                    o.placement,
                    force_zero_opaque,
                );
                proof {
                    if offer_taken(*offer, old(self).next_clut_x) {
                        let tile = o.placement->0;
                        lemma_painted(
                            self.vram,
                            old(self).vram,
                            tile.left(),
                            tile.origin_v as int,
                            o.texture.halfwords_per_row as int,
                            o.texture.height as int,
                            pixel_words(o.texture),
                            old(self).next_clut_x as int,
                            ROOM_CLUT_Y as int,
                            room_clut(o.texture, force_zero_opaque),
                        );
                    }
                }
                slot
            },
            None => None,
        }
    }

    fn upload_first(&mut self, item: &PlanItem, sources: &ItemSources) -> (slot: Option<
        MaterialSlot,
    >)
        requires
            old(self).wf(),
            sources.wf(),
        ensures
            final(self).wf(),
            final(self).same_beside_rooms(*old(self)),
            final(self).room_signature@ == old(self).room_signature@,
            (final(self).room_state(), slot) == first_upload(
                old(self).room_state(),
                *item,
                *sources,
            ),
    {
        let prepared = self.take_offer(&sources.prepared, item.force_zero_opaque);
        if prepared.is_some() {
            return prepared;
        }
        let stored = self.take_offer(&sources.stored, item.force_zero_opaque);
        if stored.is_some() {
            return stored;
        }
        if !item.allow_procedural_fallback {
            return None;
        }
        let ghost before = *self;
        let slot = self.upload_procedural(item.name.as_str(), sources.pattern_tile);
        proof {
            if slot is Some {
                let tile = sources.pattern_tile->0;
                lemma_painted(
                    self.vram,
                    before.vram,
                    tile.left(),
                    tile.origin_v as int,
                    16,
                    64,
                    texel_words(pattern_pixels(named_pattern(item.name@)), 1024),
                    before.next_clut_x as int,
                    ROOM_CLUT_Y as int,
                    pattern_palette(named_pattern(item.name@)),
                );
            }
        }
        slot
    }

    /// Bring the room textures up to date with a plan, for which `sources` holds
    /// what there is to upload. Returns whether anything was uploaded: a plan
    /// that is in memory already is left alone.
    pub fn refresh(&mut self, plan: &Vec<PlanItem>, sources: &Vec<ItemSources>) -> (changed: bool)
        requires
            old(self).wf(),
            sources@.len() == plan@.len(),
            forall|i: int| 0 <= i < sources@.len() ==> (#[trigger] sources@[i]).wf(),
        ensures
            final(self).wf(),
            final(self).same_beside_rooms(*old(self)),
            changed == !same_signatures(old(self).room_signature@, plan_signature(plan@)),
            changed ==> final(self).room_signature@ == plan_signature(plan@),
            changed ==> final(self).room_state() == with_items(
                without_rooms(old(self).room_state()),
                plan@,
                sources@,
                0,
            ),
            !changed ==> final(self).unchanged(*old(self)),
    {
        let signature = list_signatures(plan);
        if !self.begin_refresh(signature) {
            return false;
        }
        let ghost cleared = without_rooms(old(self).room_state());
        proof {
            lemma_cleared(self.vram, old(self).vram);
            assert(self.room_state() =~= cleared);
        }
        let mut i: usize = 0;
        while i < plan.len()
            invariant_except_break
                with_items(self.room_state(), plan@, sources@, i as int) == with_items(
                    cleared,
                    plan@,
                    sources@,
                    0,
                ),
            invariant
                i <= plan@.len(),
                self.wf(),
                sources@.len() == plan@.len(),
                forall|k: int| 0 <= k < sources@.len() ==> (#[trigger] sources@[k]).wf(),
                self.same_beside_rooms(*old(self)),
                self.room_signature@ == plan_signature(plan@),
            ensures
                self.room_state() == with_items(cleared, plan@, sources@, 0),
            decreases plan@.len() - i,
        {
            if !self.has_room_material_slot() {
                break;
            }
            let item = &plan[i];
            let source = &sources[i];
            assert(sources@[i as int].wf());
            let ghost state = self.room_state();
            let slot = self.upload_first(item, source);
            if self.finish_room_item(item.id, slot) {
                let second = self.take_offer(&source.secondary, false);
                self.finish_secondary_item(item.id, second);
            }
            assert(self.room_state() =~= with_item(state, *item, *source));
            i = i + 1;
        }
        true
    }
}

proof fn lemma_cleared(after: Vram, before: Vram)
    requires
        after.wf(),
        before.wf(),
        forall|x: int, y: int|
            in_vram(x, y) ==> #[trigger] after.at(x, y) == if in_room_region(x, y) {
                0
            } else {
                before.at(x, y)
            },
    ensures
        after@ == Seq::new(
            before@.len(),
            |i: int|
                if in_room_region(i % 1024, i / 1024) {
                    0
                } else {
                    before@[i]
                },
        ),
{
    after.lemma_words();
    before.lemma_words();
    assert forall|i: int| 0 <= i < 524288 implies after@[i] == if in_room_region(
        i % 1024,
        i / 1024,
    ) {
        0
    } else {
        before@[i]
    } by {
        assert(in_vram(i % 1024, i / 1024));
        assert(after.at(i % 1024, i / 1024) == after@[i]);
        assert(before.at(i % 1024, i / 1024) == before@[i]);
    }
}

/// A plan that is in memory is not uploaded again.
pub proof fn law_unchanged_plan_is_kept(plan: Seq<PlanItem>)
    ensures
        same_signatures(plan_signature(plan), plan_signature(plan)),
{
}

proof fn lemma_offer_stays_in_rooms(
    state: RoomState,
    offer: Option<TextureOffer>,
    force_zero_opaque: bool,
    i: int,
)
    requires
        offer_taken(offer, state.next_clut_x),
        offer->0.wf(),
        0 <= i < state.words.len(),
        state.words.len() == 524288,
        !in_room_region(i % 1024, i / 1024),
    ensures
        with_offer(state, offer->0, force_zero_opaque).words[i] == state.words[i],
{
    assert(in_vram(i % 1024, i / 1024));
}

proof fn lemma_item_stays_in_rooms(state: RoomState, item: PlanItem, sources: ItemSources, i: int)
    requires
        sources.wf(),
        state.words.len() == 524288,
        0 <= i < 524288,
        !in_room_region(i % 1024, i / 1024),
    ensures
        with_item(state, item, sources).words.len() == 524288,
        with_item(state, item, sources).words[i] == state.words[i],
{
    assert(in_vram(i % 1024, i / 1024));
    let (uploaded, slot) = first_upload(state, item, sources);
    if offer_taken(sources.prepared, state.next_clut_x) {
        lemma_offer_stays_in_rooms(state, sources.prepared, item.force_zero_opaque, i);
    } else if offer_taken(sources.stored, state.next_clut_x) {
        lemma_offer_stays_in_rooms(state, sources.stored, item.force_zero_opaque, i);
    }
    assert(uploaded.words[i] == state.words[i]);
    if let Some(slot) = slot {
        let cached = RoomState { cache: uploaded.cache.insert(item.id.0, slot), ..uploaded };
        if offer_taken(sources.secondary, cached.next_clut_x) {
            lemma_offer_stays_in_rooms(cached, sources.secondary, false, i);
        }
    }
}

/// Uploading a plan touches no memory but that of the room textures.
pub proof fn law_refresh_stays_in_room_memory(
    state: RoomState,
    plan: Seq<PlanItem>,
    sources: Seq<ItemSources>,
    from: int,
    i: int,
)
    requires
        sources.len() == plan.len(),
        forall|k: int| 0 <= k < sources.len() ==> (#[trigger] sources[k]).wf(),
        state.words.len() == 524288,
        0 <= i < 524288,
        !in_room_region(i % 1024, i / 1024),
    ensures
        with_items(state, plan, sources, from).words[i] == state.words[i],
    decreases plan.len() - from,
{
    if 0 <= from < plan.len() && palette_left(state) {
        assert(sources[from].wf());
        lemma_item_stays_in_rooms(state, plan[from], sources[from], i);
        law_refresh_stays_in_room_memory(
            with_item(state, plan[from], sources[from]),
            plan,
            sources,
            from + 1,
            i,
        );
    }
}

/// Only planned materials get a slot, and a second one only those that have a
/// first.
pub proof fn law_slots_belong_to_planned_items(
    state: RoomState,
    plan: Seq<PlanItem>,
    sources: Seq<ItemSources>,
    from: int,
    id: u64,
)
    requires
        from >= 0,
        state.secondary.contains_key(id) ==> state.cache.contains_key(id),
    ensures
        ({
            let after = with_items(state, plan, sources, from);
            &&& after.secondary.contains_key(id) ==> after.cache.contains_key(id)
            &&& after.cache.contains_key(id) ==> state.cache.contains_key(id) || exists|k: int|
                from <= k < plan.len() && (#[trigger] plan[k]).id.0 == id
        }),
    decreases plan.len() - from,
{
    if from < plan.len() && palette_left(state) {
        assert(plan[from].id.0 == id || plan[from].id.0 != id);
        law_slots_belong_to_planned_items(
            with_item(state, plan[from], sources[from]),
            plan,
            sources,
            from + 1,
            id,
        );
    }
}

/// A model of the project: the path of its atlas, empty if it has none, and the
/// atlas as far as it could be read.
#[derive(Debug)]
pub struct ModelAtlas {
    pub id: ResourceId,
    pub signature: String,
    pub texture: Option<IndexedTexture>,
}

/// What uploading an atlas leaves behind, and the slot that it gets. An atlas
/// with an incomplete palette leaves its pixels where the next one will go.
pub open spec fn with_atlas(state: ModelState, texture: IndexedTexture) -> (
    ModelState,
    Option<MaterialSlot>,
) {
    let complete = texture.clut_bytes@.len() == 2 * texture.clut_entries;
    if !atlas_taken(texture, state.next_x, state.next_y) {
        (state, None)
    } else {
        let words = painted(
            state.words,
            state.next_x as int,
            MODEL_TPAGE_Y as int,
            texture.halfwords_per_row as int,
            texture.height as int,
            pixel_words(texture),
            0,
            state.next_y as int,
            if complete {
                atlas_clut(texture)
            } else {
                Seq::empty()
            },
        );
        if complete {
            (
                ModelState {
                    words,
                    next_x: (state.next_x + atlas_columns(texture.halfwords_per_row)) as u16,
                    next_y: (state.next_y + 1) as u16,
                    ..state
                },
                Some(atlas_slot(texture, state.next_x, state.next_y)),
            )
        } else {
            (ModelState { words, ..state }, None)
        }
    }
}

/// What a model leaves behind: an atlas that is in memory under its path is
/// kept, another one is uploaded, and what cannot be uploaded is forgotten. A
/// model without an atlas is recorded as such.
pub open spec fn with_model(state: ModelState, model: ModelAtlas) -> ModelState {
    if state.models.contains_key(model.id.0) && state.models[model.id.0].signature@
        == model.signature@ {
        state
    } else if model.signature@.len() == 0 {
        ModelState {
            models: state.models.insert(
                model.id.0,
                ModelAtlasCacheEntry { slot: None, signature: model.signature },
            ),
            ..state
        }
    } else if model.texture is None {
        ModelState { models: state.models.remove(model.id.0), ..state }
    } else {
        let (after, slot) = with_atlas(state, model.texture->0);
        ModelState {
            models: match slot {
                Some(_) => after.models.insert(
                    model.id.0,
                    ModelAtlasCacheEntry { slot, signature: model.signature },
                ),
                None => after.models.remove(model.id.0),
            },
            ..after
        }
    }
}

/// What the first models leave behind.
pub open spec fn with_models(state: ModelState, models: Seq<ModelAtlas>, count: int) -> ModelState
    decreases count,
{
    if count <= 0 {
        state
    } else {
        with_model(with_models(state, models, count - 1), models[count - 1])
    }
}

impl EditorTextures {
    fn take_atlas(&mut self, texture: &IndexedTexture) -> (slot: Option<MaterialSlot>)
        requires
            old(self).wf(),
        ensures
            final(self).wf(),
            final(self).same_beside_models(*old(self)),
            (final(self).model_state(), slot) == with_atlas(old(self).model_state(), *texture),
    {
        let slot = self.upload_model_atlas_psxt(texture);
        proof {
            let x = old(self).next_model_tpage_x;
            let y = old(self).next_model_clut_y;
            if atlas_taken(*texture, x, y) {
                let clut = if texture.clut_bytes@.len() == 2 * texture.clut_entries {
                    atlas_clut(*texture)
                } else {
                    Seq::empty()
                };
                assert(overlaid(
                    self.vram,
                    old(self).vram,
                    x as int,
                    MODEL_TPAGE_Y as int,
                    texture.halfwords_per_row as int,
                    texture.height as int,
                    pixel_words(*texture),
                    0,
                    y as int,
                    clut,
                ));
                lemma_painted(
                    self.vram,
                    old(self).vram,
                    x as int,
                    MODEL_TPAGE_Y as int,
                    texture.halfwords_per_row as int,
                    texture.height as int,
                    pixel_words(*texture),
                    0,
                    y as int,
                    clut,
                );
            }
        }
        slot
    }

    /// Bring the model atlases up to date with the models of a project.
    pub fn refresh_models(&mut self, models: &Vec<ModelAtlas>)
        requires
            old(self).wf(),
        ensures
            final(self).wf(),
            final(self).same_beside_models(*old(self)),
            final(self).model_state() == with_models(
                old(self).model_state(),
                models@,
                models@.len() as int,
            ),
    {
        for i in 0..models.len()
            invariant
                self.wf(),
                self.same_beside_models(*old(self)),
                self.model_state() == with_models(old(self).model_state(), models@, i as int),
        {
            let model = &models[i];
            let ghost before = self.model_state();
            match self.model_refresh(model.id, model.signature.as_str()) {
                ModelRefresh::Keep => {},
                ModelRefresh::Clear => {
                    self.clear_model(model.id, model.signature.clone());
                },
                ModelRefresh::Load => {
                    let slot = match &model.texture {
                        Some(texture) => self.take_atlas(texture),
                        None => None,
                    };
                    self.finish_model(model.id, model.signature.clone(), slot);
                },
            }
            assert(self.model_state() =~= with_model(before, *model));
        }
    }
}

/// A model that was refreshed is not looked at again while its path stays: its
/// atlas is in memory, or it is known to have none.
pub proof fn law_refreshed_model_is_kept(state: ModelState, model: ModelAtlas)
    requires
        model.signature@.len() == 0 || (model.texture matches Some(texture) && with_atlas(
            state,
            texture,
        ).1 is Some),
    ensures
        ({
            let after = with_model(state, model);
            with_model(after, model) == after
        }),
{
}

/// A model without an atlas has no slot, but is recorded.
pub proof fn law_model_without_atlas_is_recorded(state: ModelState, model: ModelAtlas)
    requires
        model.signature@.len() == 0,
        state.models.contains_key(model.id.0) && state.models[model.id.0].signature@.len() == 0
            ==> state.models[model.id.0].slot is None,
    ensures
        ({
            let after = with_model(state, model);
            &&& after.models.contains_key(model.id.0)
            &&& after.models[model.id.0].slot is None
            &&& after.models[model.id.0].signature@.len() == 0
        }),
{
    assert(state.models.contains_key(model.id.0) && state.models[model.id.0].signature@.len() == 0
        ==> state.models[model.id.0].signature@ =~= model.signature@);
}

proof fn lemma_atlas_stays_in_models(state: ModelState, texture: IndexedTexture, i: int)
    requires
        state.words.len() == 524288,
        0 <= i < 524288,
        state.next_y >= MODEL_CLUT_FIRST_Y,
        !in_model_region(i % 1024, i / 1024),
    ensures
        with_atlas(state, texture).0.words.len() == 524288,
        with_atlas(state, texture).0.words[i] == state.words[i],
        with_atlas(state, texture).0.next_y >= MODEL_CLUT_FIRST_Y,
{
    assert(in_vram(i % 1024, i / 1024));
}

/// Uploading the atlases of models touches no memory but that of the models: no
/// room texture, no room palette, none of the fixed textures.
pub proof fn law_models_stay_in_model_memory(
    state: ModelState,
    models: Seq<ModelAtlas>,
    count: int,
    i: int,
)
    requires
        state.words.len() == 524288,
        state.next_y >= MODEL_CLUT_FIRST_Y,
        0 <= i < 524288,
        !in_model_region(i % 1024, i / 1024),
    ensures
        with_models(state, models, count).words.len() == 524288,
        with_models(state, models, count).words[i] == state.words[i],
        with_models(state, models, count).next_y >= MODEL_CLUT_FIRST_Y,
    decreases count,
{
    if count > 0 {
        law_models_stay_in_model_memory(state, models, count - 1, i);
        let before = with_models(state, models, count - 1);
        if let Some(texture) = models[count - 1].texture {
            lemma_atlas_stays_in_models(before, texture, i);
        }
    }
}

/// There is a texture for an item: a prepared or stored one that fits the room
/// pages and has a tile, or a tile for the pattern of its name.
pub open spec fn has_texture(item: PlanItem, sources: ItemSources) -> bool {
    ||| offer_taken(sources.prepared, 0)
    ||| offer_taken(sources.stored, 0)
    ||| item.allow_procedural_fallback && sources.pattern_tile is Some
}

/// An item for which there is no texture costs the items behind it nothing.
pub proof fn law_missing_texture_is_passed_over(
    state: RoomState,
    plan: Seq<PlanItem>,
    sources: Seq<ItemSources>,
    from: int,
)
    requires
        0 <= from < plan.len(),
        !has_texture(plan[from], sources[from]),
    ensures
        with_items(state, plan, sources, from) == with_items(state, plan, sources, from + 1),
{
    if palette_left(state) {
        assert(with_item(state, plan[from], sources[from]) == state);
    }
}

proof fn lemma_palettes_are_used_up(
    state: RoomState,
    plan: Seq<PlanItem>,
    sources: Seq<ItemSources>,
    from: int,
)
    requires
        state.next_clut_x <= 1024,
        state.next_clut_x % 16 == 0,
    ensures
        state.next_clut_x <= with_items(state, plan, sources, from).next_clut_x <= 1024,
        forall|id: u64| state.cache.contains_key(id) ==> #[trigger] with_items(
            state,
            plan,
            sources,
            from,
        ).cache.contains_key(id),
    decreases plan.len() - from,
{
    if 0 <= from < plan.len() && palette_left(state) {
        lemma_palettes_are_used_up(
            with_item(state, plan[from], sources[from]),
            plan,
            sources,
            from + 1,
        );
    }
}

/// As many items as fit get textures: while a palette is left at the end, every
/// item for which there is a texture has a slot.
pub proof fn law_items_that_fit_get_slots(
    state: RoomState,
    plan: Seq<PlanItem>,
    sources: Seq<ItemSources>,
    from: int,
    k: int,
)
    requires
        state.next_clut_x <= 1024,
        state.next_clut_x % 16 == 0,
        0 <= from <= k < plan.len(),
        has_texture(plan[k], sources[k]),
        palette_left(with_items(state, plan, sources, from)),
    ensures
        with_items(state, plan, sources, from).cache.contains_key(plan[k].id.0),
    decreases plan.len() - from,
{
    lemma_palettes_are_used_up(state, plan, sources, from);
    let next = with_item(state, plan[from], sources[from]);
    if from == k {
        assert(next.cache.contains_key(plan[k].id.0));
        lemma_palettes_are_used_up(next, plan, sources, from + 1);
    } else {
        law_items_that_fit_get_slots(next, plan, sources, from + 1, k);
    }
}

} // verus!
