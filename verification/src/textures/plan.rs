//! Which textures are uploaded, in which order, and what identifies them.

use crate::lines::{all_digits, is_digit, law_numerals_are_read_back};
use crate::preview::grid::ResourceId;
use crate::text::{decimal, push_decimal};
use vstd::prelude::*;

verus! {

/// Where a material's texture comes from.
#[derive(Clone, Copy, Debug, PartialEq, Eq, Structural)]
pub enum MaterialTextureMode {
    /// An image file.
    SimpleImage,
    /// A procedural recipe.
    Generated,
    /// A blend of two other resources.
    Transition,
    /// A picture of the room.
    ReflectiveProbe,
}

/// What the file system says of a texture file.
#[derive(Clone, Copy, Debug, PartialEq, Eq, Structural)]
pub enum FileStamp {
    Missing,
    /// The file's length, without a known time of change.
    Length { len: u64 },
    /// The file's length and time of change since the Unix epoch.
    Modified { len: u64, seconds: u64, nanos: u32 },
}

/// A stored path with the state of the file that it names.
#[derive(Debug)]
pub struct StoredImage {
    pub path: String,
    pub stamp: FileStamp,
}

/// A blend of two resources; `description` lists its settings.
#[derive(Debug)]
pub struct TransitionRecipe {
    pub description: String,
    pub source_a: Option<ResourceId>,
    pub source_b: Option<ResourceId>,
}

/// The second texture pass of a model material.
#[derive(Debug)]
pub struct SecondaryLayer {
    pub mode: MaterialTextureMode,
    pub image: Option<StoredImage>,
    pub generated_psxt: Vec<u8>,
    pub transition: TransitionRecipe,
}

/// The texture settings of a material; `generated` lists those of the recipe.
#[derive(Debug)]
pub struct MaterialTexture {
    pub mode: MaterialTextureMode,
    pub tint: (u8, u8, u8),
    pub image: Option<StoredImage>,
    pub generated: String,
    pub transition: TransitionRecipe,
    /// The enabled second layer.
    pub secondary: Option<SecondaryLayer>,
}

/// What a resource is, as far as textures go.
#[derive(Debug)]
pub enum PlanResourceKind {
    Material(MaterialTexture),
    Texture(StoredImage),
    /// Anything else, described.
    Other(String),
}

/// A resource that may be drawn with.
#[derive(Debug)]
pub struct PlanResource {
    pub id: ResourceId,
    pub name: String,
    pub kind: PlanResourceKind,
}

/// A distant backdrop: panels, or one texture for all of them.
#[derive(Debug)]
pub struct FarVista {
    pub enabled: bool,
    pub panels: Vec<Option<ResourceId>>,
    pub texture: Option<ResourceId>,
}

/// What the upload plan is made from.
#[derive(Debug)]
pub struct PlanProject {
    pub resources: Vec<PlanResource>,
    /// Materials that the scene uses, in order.
    pub scene_materials: Vec<ResourceId>,
    /// Materials of the scene's image props, in order.
    pub image_prop_materials: Vec<ResourceId>,
    pub far_vistas: Vec<FarVista>,
    /// The picture of the room, if one could be taken.
    pub probe_psxt: Option<Vec<u8>>,
}

/// Texture data that does not come from a file.
#[derive(Clone, Copy, Debug, PartialEq, Eq, Structural)]
pub enum PreparedTexture {
    /// None: the signature names a file.
    Absent,
    /// The material's own recipe.
    Generated,
    /// The picture of the room.
    Probe,
    /// A blend, to be baked when it is uploaded.
    Transition,
}

/// Where the second layer's texture comes from.
#[derive(Clone, Copy, Debug, PartialEq, Eq, Structural)]
pub enum SecondarySource {
    Absent,
    Texture,
    Generated,
    Probe,
    Transition,
}

/// One texture to upload.
#[derive(Debug)]
pub struct PlanItem {
    pub id: ResourceId,
    pub name: String,
    pub signature: String,
    pub cache_signature: String,
    pub prepared: PreparedTexture,
    pub force_zero_opaque: bool,
    pub allow_procedural_fallback: bool,
    pub secondary: SecondarySource,
    pub secondary_signature: String,
}

/// The contents of a plan item.
pub struct PlanEntry {
    pub id: ResourceId,
    pub name: Seq<char>,
    pub signature: Seq<char>,
    pub cache_signature: Seq<char>,
    pub prepared: PreparedTexture,
    pub force_zero_opaque: bool,
    pub allow_procedural_fallback: bool,
    pub secondary: SecondarySource,
    pub secondary_signature: Seq<char>,
}

impl PlanItem {
    pub open spec fn view(self) -> PlanEntry {
        PlanEntry {
            id: self.id,
            name: self.name@,
            signature: self.signature@,
            cache_signature: self.cache_signature@,
            prepared: self.prepared,
            force_zero_opaque: self.force_zero_opaque,
            allow_procedural_fallback: self.allow_procedural_fallback,
            secondary: self.secondary,
            secondary_signature: self.secondary_signature@,
        }
    }
}

/// The contents of a plan.
pub open spec fn entries(plan: Seq<PlanItem>) -> Seq<PlanEntry> {
    plan.map_values(|item: PlanItem| item@)
}

/// Text that changes whenever a stored file does.
pub open spec fn file_signature(stored: Seq<char>, stamp: FileStamp) -> Seq<char> {
    if stored.len() == 0 {
        "empty"@
    } else {
        match stamp {
            FileStamp::Missing => stored + "|missing"@,
            FileStamp::Length { len } => stored + "|"@ + decimal(len as nat) + "|unknown-mtime"@,
            FileStamp::Modified { len, seconds, nanos } => stored + "|"@ + decimal(len as nat) + "|"@
                + decimal(seconds as nat) + "|"@ + decimal(nanos as nat),
        }
    }
}

pub fn texture_cache_signature(stored: &str, stamp: FileStamp) -> (result: String)
    ensures
        result@ == file_signature(stored@, stamp),
{
    if crate::text::chars_of(stored).len() == 0 {
        return String::from_str("empty");
    }
    let mut out = String::from_str(stored);
    match stamp {
        FileStamp::Missing => {
            out.append("|missing");
        },
        FileStamp::Length { len } => {
            out.append("|");
            push_decimal(&mut out, len);
            out.append("|unknown-mtime");
        },
        FileStamp::Modified { len, seconds, nanos } => {
            out.append("|");
            push_decimal(&mut out, len);
            out.append("|");
            push_decimal(&mut out, seconds);
            out.append("|");
            push_decimal(&mut out, nanos as u64);
        },
    }
    out
}

/// A checksum step: rotate left by five bits, then combine with a byte.
pub open spec fn checksum_step(hash: u32, byte: u8) -> u32 {
    ((hash << 5) | (hash >> 27)) ^ (byte as u32)
}

/// The checksum of the first `n` bytes.
pub open spec fn checksum(bytes: Seq<u8>, n: nat) -> u32
    decreases n,
{
    if n == 0 {
        0
    } else {
        checksum_step(checksum(bytes, (n - 1) as nat), bytes[n - 1])
    }
}

/// Checksum of texture data; none counts as empty.
pub fn bytes_signature(bytes: Option<&Vec<u8>>) -> (result: u32)
    ensures
        result == match bytes {
            Some(b) => checksum(b@, b@.len()),
            None => 0,
        },
{
    let mut hash: u32 = 0;
    if let Some(bytes) = bytes {
        for i in 0..bytes.len()
            invariant
                hash == checksum(bytes@, i as nat),
        {
            hash = ((hash << 5) | (hash >> 27)) ^ (bytes[i] as u32);
        }
    }
    hash
}

/// Position of the first resource with an identity, from position `from` on.
pub open spec fn resource_index(resources: Seq<PlanResource>, id: ResourceId, from: int) -> Option<int>
    decreases resources.len() - from,
{
    if from >= resources.len() {
        None
    } else if resources[from].id == id {
        Some(from)
    } else {
        resource_index(resources, id, from + 1)
    }
}

proof fn lemma_resource_index(resources: Seq<PlanResource>, id: ResourceId, from: int)
    requires
        0 <= from,
    ensures
        match resource_index(resources, id, from) {
            Some(i) => from <= i < resources.len() && resources[i].id == id && forall|j: int|
                from <= j < i ==> (#[trigger] resources[j]).id != id,
            None => forall|j: int|
                from <= j < resources.len() ==> (#[trigger] resources[j]).id != id,
        },
    decreases resources.len() - from,
{
    if from < resources.len() && resources[from].id != id {
        lemma_resource_index(resources, id, from + 1);
    }
}

/// Position of the resource with an identity.
fn find_resource(resources: &Vec<PlanResource>, id: ResourceId) -> (result: Option<usize>)
    ensures
        match result {
            Some(i) => resource_index(resources@, id, 0) == Some(i as int) && i < resources@.len()
                && resources@[i as int].id == id,
            None => resource_index(resources@, id, 0) is None,
        },
{
    proof {
        lemma_resource_index(resources@, id, 0);
    }
    for i in 0..resources.len()
        invariant
            forall|j: int| 0 <= j < i ==> (#[trigger] resources@[j]).id != id,
            match resource_index(resources@, id, 0) {
                Some(k) => 0 <= k < resources@.len() && resources@[k].id == id && forall|j: int|
                    0 <= j < k ==> (#[trigger] resources@[j]).id != id,
                None => forall|j: int|
                    0 <= j < resources@.len() ==> (#[trigger] resources@[j]).id != id,
            },
    {
        if resources[i].id == id {
            return Some(i);
        }
    }
    None
}

/// The name of a texture mode.
pub open spec fn mode_name(mode: MaterialTextureMode) -> Seq<char> {
    match mode {
        MaterialTextureMode::SimpleImage => "SimpleImage"@,
        MaterialTextureMode::Generated => "Generated"@,
        MaterialTextureMode::Transition => "Transition"@,
        MaterialTextureMode::ReflectiveProbe => "ReflectiveProbe"@,
    }
}

/// Mode and tint of a material.
pub open spec fn mode_and_tint(mode: MaterialTextureMode, tint: (u8, u8, u8)) -> Seq<char> {
    mode_name(mode) + ":tint=["@ + decimal(tint.0 as nat) + ", "@ + decimal(tint.1 as nat) + ", "@
        + decimal(tint.2 as nat) + "]"@
}

/// Number of resources whose identity is not among `stack`.
pub open spec fn open_resources(resources: Seq<PlanResource>, stack: Seq<ResourceId>) -> nat
    decreases resources.len(),
{
    if resources.len() == 0 {
        0
    } else {
        open_resources(resources.drop_last(), stack) + if stack.contains(resources.last().id) {
            0nat
        } else {
            1
        }
    }
}

proof fn lemma_open_push(resources: Seq<PlanResource>, stack: Seq<ResourceId>, id: ResourceId)
    ensures
        open_resources(resources, stack.push(id)) <= open_resources(resources, stack),
        !stack.contains(id) && (exists|i: int|
            0 <= i < resources.len() && (#[trigger] resources[i]).id == id) ==> open_resources(
            resources,
            stack.push(id),
        ) < open_resources(resources, stack),
    decreases resources.len(),
{
    assert forall|x: ResourceId| stack.push(id).contains(x) <==> stack.contains(x) || x == id by {
        if stack.contains(x) {
            let k = choose|k: int| 0 <= k < stack.len() && stack[k] == x;
            assert(stack.push(id)[k] == x);
        }
        assert(stack.push(id)[stack.len() as int] == id);
    }
    if resources.len() > 0 {
        lemma_open_push(resources.drop_last(), stack, id);
        if !stack.contains(id) && (exists|i: int|
            0 <= i < resources.len() && (#[trigger] resources[i]).id == id) {
            let i = choose|i: int| 0 <= i < resources.len() && (#[trigger] resources[i]).id == id;
            if i < resources.len() - 1 {
                assert(resources.drop_last()[i].id == id);
            }
        }
    }
}

/// Text that describes one source of a blend, and the sources of that source. A
/// source that is being described already is named and not followed.
pub open spec fn source_text(
    resources: Seq<PlanResource>,
    source: Option<ResourceId>,
    stack: Seq<ResourceId>,
) -> Seq<char>
    decreases open_resources(resources, stack),
    via source_text_decreases
{
    match source {
        None => "|none"@,
        Some(id) => if stack.contains(id) {
            "|cycle#"@ + decimal(id.0 as nat)
        } else {
            match resource_index(resources, id, 0) {
                None => "|missing#"@ + decimal(id.0 as nat),
                Some(i) => "|#"@ + decimal(id.0 as nat) + ":"@ + match resources[i].kind {
                    PlanResourceKind::Texture(image) => file_signature(image.path@, image.stamp),
                    PlanResourceKind::Other(description) => "invalid:"@ + description@,
                    PlanResourceKind::Material(material) => mode_and_tint(
                        material.mode,
                        material.tint,
                    ) + match material.mode {
                        MaterialTextureMode::Generated => material.generated@,
                        MaterialTextureMode::Transition => material.transition.description@
                            + source_text(
                            resources,
                            material.transition.source_a,
                            stack.push(id),
                        ) + source_text(resources, material.transition.source_b, stack.push(id)),
                        _ => match material.image {
                            Some(image) => file_signature(image.path@, image.stamp),
                            None => "no-image"@,
                        },
                    },
                },
            }
        },
    }
}

#[via_fn]
proof fn source_text_decreases(
    resources: Seq<PlanResource>,
    source: Option<ResourceId>,
    stack: Seq<ResourceId>,
) {
    if let Some(id) = source {
        lemma_open_push(resources, stack, id);
        lemma_resource_index(resources, id, 0);
    }
}

fn stack_contains(stack: &Vec<ResourceId>, id: ResourceId) -> (result: bool)
    ensures
        result == stack@.contains(id),
{
    for i in 0..stack.len()
        invariant
            forall|j: int| 0 <= j < i ==> stack@[j] != id,
    {
        if stack[i] == id {
            return true;
        }
    }
    false
}

fn append_mode_and_tint(mode: MaterialTextureMode, tint: (u8, u8, u8), out: &mut String)
    ensures
        final(out)@ == old(out)@ + mode_and_tint(mode, tint),
{
    match mode {
        MaterialTextureMode::SimpleImage => out.append("SimpleImage"),
        MaterialTextureMode::Generated => out.append("Generated"),
        MaterialTextureMode::Transition => out.append("Transition"),
        MaterialTextureMode::ReflectiveProbe => out.append("ReflectiveProbe"),
    }
    out.append(":tint=[");
    push_decimal(out, tint.0 as u64);
    out.append(", ");
    push_decimal(out, tint.1 as u64);
    out.append(", ");
    push_decimal(out, tint.2 as u64);
    out.append("]");
    assert(out@ =~= old(out)@ + mode_and_tint(mode, tint));
}

#[verifier::spinoff_prover]
#[verifier::rlimit(60)]
fn append_source(
    resources: &Vec<PlanResource>,
    source: Option<ResourceId>,
    stack: &mut Vec<ResourceId>,
    signature: &mut String,
)
    ensures
        final(signature)@ == old(signature)@ + source_text(resources@, source, old(stack)@),
        final(stack)@ == old(stack)@,
    decreases open_resources(resources@, old(stack)@),
{
    let Some(id) = source else {
        signature.append("|none");
        return;
    };
    if stack_contains(stack, id) {
        signature.append("|cycle#");
        push_decimal(signature, id.0);
        assert(signature@ =~= old(signature)@ + ("|cycle#"@ + decimal(id.0 as nat)));
        return;
    }
    let Some(i) = find_resource(resources, id) else {
        signature.append("|missing#");
        push_decimal(signature, id.0);
        assert(signature@ =~= old(signature)@ + ("|missing#"@ + decimal(id.0 as nat)));
        return;
    };
    signature.append("|#");
    push_decimal(signature, id.0);
    signature.append(":");
    let ghost head = "|#"@ + decimal(id.0 as nat) + ":"@;
    assert(signature@ =~= old(signature)@ + head);
    match &resources[i].kind {
        PlanResourceKind::Texture(image) => {
            let text = texture_cache_signature(image.path.as_str(), image.stamp);
            signature.append(text.as_str());
            assert(signature@ =~= old(signature)@ + (head + text@));
        },
        PlanResourceKind::Other(description) => {
            signature.append("invalid:");
            signature.append(description.as_str());
            assert(signature@ =~= old(signature)@ + (head + ("invalid:"@ + description@)));
        },
        PlanResourceKind::Material(material) => {
            append_mode_and_tint(material.mode, material.tint, signature);
            let ghost tinted = mode_and_tint(material.mode, material.tint);
            match material.mode {
                MaterialTextureMode::Generated => {
                    signature.append(material.generated.as_str());
                    assert(signature@ =~= old(signature)@ + (head + (tinted + material.generated@)));
                },
                MaterialTextureMode::Transition => {
                    signature.append(material.transition.description.as_str());
                    proof {
                        lemma_open_push(resources@, stack@, id);
                    }
                    stack.push(id);
                    append_source(resources, material.transition.source_a, stack, signature);
                    append_source(resources, material.transition.source_b, stack, signature);
                    stack.pop();
                    proof {
                        let deeper = old(stack)@.push(id);
                        assert(stack@ =~= old(stack)@);
                        let rest = material.transition.description@ + source_text(
                            resources@,
                            material.transition.source_a,
                            deeper,
                        ) + source_text(resources@, material.transition.source_b, deeper);
                        assert(signature@ =~= old(signature)@ + (head + (tinted + rest)));
                    }
                },
                _ => {
                    match &material.image {
                        Some(image) => {
                            let text = texture_cache_signature(image.path.as_str(), image.stamp);
                            signature.append(text.as_str());
                            assert(signature@ =~= old(signature)@ + (head + (tinted + text@)));
                        },
                        None => {
                            signature.append("no-image");
                            assert(signature@ =~= old(signature)@ + (head + (tinted
                                + "no-image"@)));
                        },
                    }
                },
            }
        },
    }
}

/// Text that identifies a blend and everything that it is made from.
pub open spec fn transition_text(
    resources: Seq<PlanResource>,
    recipe: TransitionRecipe,
    owner: ResourceId,
) -> Seq<char> {
    "transition:"@ + recipe.description@ + source_text(resources, recipe.source_a, seq![owner])
        + source_text(resources, recipe.source_b, seq![owner])
}

pub fn transition_preview_signature(
    resources: &Vec<PlanResource>,
    recipe: &TransitionRecipe,
    owner: ResourceId,
) -> (result: String)
    ensures
        result@ == transition_text(resources@, *recipe, owner),
{
    let mut signature = String::from_str("transition:");
    signature.append(recipe.description.as_str());
    let mut stack: Vec<ResourceId> = Vec::new();
    stack.push(owner);
    assert(stack@ =~= seq![owner]);
    append_source(resources, recipe.source_a, &mut stack, &mut signature);
    append_source(resources, recipe.source_b, &mut stack, &mut signature);
    signature
}

/// The path of an image; none counts as empty.
pub open spec fn image_path(image: Option<StoredImage>) -> Seq<char> {
    match image {
        Some(image) => image.path@,
        None => Seq::empty(),
    }
}

/// Text that changes whenever an image's file does.
pub open spec fn image_signature(image: Option<StoredImage>) -> Seq<char> {
    match image {
        Some(image) => file_signature(image.path@, image.stamp),
        None => "empty"@,
    }
}

/// Checksum of the room picture.
pub open spec fn probe_checksum(probe: Option<Vec<u8>>) -> u32 {
    match probe {
        Some(bytes) => checksum(bytes@, bytes@.len()),
        None => 0,
    }
}

/// Text that identifies a material's texture: what is loaded, and what tells
/// when it has changed.
pub open spec fn material_signatures(project: PlanProject, material: MaterialTexture, id: ResourceId) -> (
    Seq<char>,
    Seq<char>,
) {
    match material.mode {
        MaterialTextureMode::Generated => (
            "@generated:"@ + material.generated@,
            "@generated:"@ + material.generated@,
        ),
        MaterialTextureMode::Transition => (
            "@transition:"@ + decimal(id.0 as nat),
            transition_text(project.resources@, material.transition, id),
        ),
        MaterialTextureMode::SimpleImage => (
            image_path(material.image),
            image_signature(material.image),
        ),
        MaterialTextureMode::ReflectiveProbe => (
            "@room-probe:"@ + decimal(probe_checksum(project.probe_psxt) as nat),
            "@room-probe:"@ + decimal(probe_checksum(project.probe_psxt) as nat),
        ),
    }
}

/// The texture data of a material that does not come from a file.
pub open spec fn material_prepared(project: PlanProject, mode: MaterialTextureMode) -> PreparedTexture {
    match mode {
        MaterialTextureMode::Generated => PreparedTexture::Generated,
        MaterialTextureMode::Transition => PreparedTexture::Transition,
        MaterialTextureMode::SimpleImage => PreparedTexture::Absent,
        MaterialTextureMode::ReflectiveProbe => if project.probe_psxt is Some {
            PreparedTexture::Probe
        } else {
            PreparedTexture::Absent
        },
    }
}

/// Where a second layer's texture comes from.
pub open spec fn secondary_source(project: PlanProject, layer: Option<SecondaryLayer>) -> SecondarySource {
    match layer {
        None => SecondarySource::Absent,
        Some(layer) => match layer.mode {
            MaterialTextureMode::SimpleImage => if layer.image is Some {
                SecondarySource::Texture
            } else {
                SecondarySource::Absent
            },
            MaterialTextureMode::Generated => SecondarySource::Generated,
            MaterialTextureMode::Transition => SecondarySource::Transition,
            MaterialTextureMode::ReflectiveProbe => if project.probe_psxt is Some {
                SecondarySource::Probe
            } else {
                SecondarySource::Absent
            },
        },
    }
}

/// Text that identifies a second layer's texture.
pub open spec fn secondary_text(
    project: PlanProject,
    layer: Option<SecondaryLayer>,
    id: ResourceId,
) -> Seq<char> {
    match (secondary_source(project, layer), layer) {
        (SecondarySource::Texture, Some(layer)) => "texture:"@ + image_signature(layer.image),
        (SecondarySource::Generated, Some(layer)) => "generated:"@ + decimal(
            checksum(layer.generated_psxt@, layer.generated_psxt@.len()) as nat,
        ),
        (SecondarySource::Probe, Some(layer)) => "generated:"@ + decimal(
            probe_checksum(project.probe_psxt) as nat,
        ),
        (SecondarySource::Transition, Some(layer)) => transition_text(
            project.resources@,
            layer.transition,
            id,
        ),
        _ => "none"@,
    }
}

/// The entry of a material, if `id` names one.
pub open spec fn material_entry(project: PlanProject, id: ResourceId, force_zero_opaque: bool) -> Option<
    PlanEntry,
> {
    match resource_index(project.resources@, id, 0) {
        None => None,
        Some(i) => match project.resources@[i].kind {
            PlanResourceKind::Material(material) => Some(
                PlanEntry {
                    id,
                    name: project.resources@[i].name@,
                    signature: material_signatures(project, material, id).0,
                    cache_signature: material_signatures(project, material, id).1,
                    prepared: material_prepared(project, material.mode),
                    force_zero_opaque,
                    allow_procedural_fallback: true,
                    secondary: secondary_source(project, material.secondary),
                    secondary_signature: secondary_text(project, material.secondary, id),
                },
            ),
            _ => None,
        },
    }
}

/// Position of the first plan entry of a resource.
pub open spec fn entry_index(plan: Seq<PlanEntry>, id: ResourceId, from: int) -> Option<int>
    decreases plan.len() - from,
{
    if from >= plan.len() {
        None
    } else if plan[from].id == id {
        Some(from)
    } else {
        entry_index(plan, id, from + 1)
    }
}

proof fn lemma_entry_index(plan: Seq<PlanEntry>, id: ResourceId, from: int)
    requires
        0 <= from,
    ensures
        match entry_index(plan, id, from) {
            Some(i) => from <= i < plan.len() && plan[i].id == id && forall|j: int|
                from <= j < i ==> (#[trigger] plan[j]).id != id,
            None => forall|j: int| from <= j < plan.len() ==> (#[trigger] plan[j]).id != id,
        },
    decreases plan.len() - from,
{
    if from < plan.len() && plan[from].id != id {
        lemma_entry_index(plan, id, from + 1);
    }
}

/// The plan with a material added. A material that is planned already keeps its
/// place; its zero palette entry is forced opaque only if every use asks for it.
pub open spec fn with_material(
    project: PlanProject,
    plan: Seq<PlanEntry>,
    id: ResourceId,
    force_zero_opaque: bool,
) -> Seq<PlanEntry> {
    match entry_index(plan, id, 0) {
        Some(i) => plan.update(
            i,
            PlanEntry { force_zero_opaque: plan[i].force_zero_opaque && force_zero_opaque, ..plan[i] },
        ),
        None => match material_entry(project, id, force_zero_opaque) {
            Some(entry) => plan.push(entry),
            None => plan,
        },
    }
}

fn find_item(plan: &Vec<PlanItem>, id: ResourceId) -> (result: Option<usize>)
    ensures
        match result {
            Some(i) => entry_index(entries(plan@), id, 0) == Some(i as int) && i < plan@.len()
                && plan@[i as int].id == id,
            None => entry_index(entries(plan@), id, 0) is None,
        },
{
    let ghost all = entries(plan@);
    proof {
        lemma_entry_index(all, id, 0);
    }
    for i in 0..plan.len()
        invariant
            all == entries(plan@),
            forall|j: int| 0 <= j < i ==> (#[trigger] all[j]).id != id,
            match entry_index(all, id, 0) {
                Some(k) => 0 <= k < all.len() && all[k].id == id && forall|j: int|
                    0 <= j < k ==> (#[trigger] all[j]).id != id,
                None => forall|j: int| 0 <= j < all.len() ==> (#[trigger] all[j]).id != id,
            },
    {
        assert(all[i as int] == plan@[i as int]@);
        if plan[i].id == id {
            return Some(i);
        }
    }
    None
}

fn image_path_text(image: &Option<StoredImage>) -> (result: String)
    ensures
        result@ == image_path(*image),
{
    match image {
        Some(image) => image.path.clone(),
        None => String::new(),
    }
}

fn image_signature_text(image: &Option<StoredImage>) -> (result: String)
    ensures
        result@ == image_signature(*image),
{
    match image {
        Some(image) => texture_cache_signature(image.path.as_str(), image.stamp),
        None => String::from_str("empty"),
    }
}

fn numbered(prefix: &str, number: u64) -> (result: String)
    ensures
        result@ == prefix@ + decimal(number as nat),
{
    let mut out = String::from_str(prefix);
    push_decimal(&mut out, number);
    out
}

fn generated_text(material: &MaterialTexture) -> (result: String)
    ensures
        result@ == "@generated:"@ + material.generated@,
{
    let mut out = String::from_str("@generated:");
    out.append(material.generated.as_str());
    out
}

fn probe_text(project: &PlanProject, prefix: &str) -> (result: String)
    ensures
        result@ == prefix@ + decimal(probe_checksum(project.probe_psxt) as nat),
{
    numbered(prefix, bytes_signature(project.probe_psxt.as_ref()) as u64)
}

fn material_signature_texts(project: &PlanProject, material: &MaterialTexture, id: ResourceId) -> (result:
    (String, String))
    ensures
        result.0@ == material_signatures(*project, *material, id).0,
        result.1@ == material_signatures(*project, *material, id).1,
{
    match material.mode {
        MaterialTextureMode::Generated => (generated_text(material), generated_text(material)),
        MaterialTextureMode::Transition => (
            numbered("@transition:", id.0),
            transition_preview_signature(&project.resources, &material.transition, id),
        ),
        MaterialTextureMode::SimpleImage => (
            image_path_text(&material.image),
            image_signature_text(&material.image),
        ),
        MaterialTextureMode::ReflectiveProbe => (
            probe_text(project, "@room-probe:"),
            probe_text(project, "@room-probe:"),
        ),
    }
}

fn secondary_layer_source(project: &PlanProject, layer: &Option<SecondaryLayer>) -> (result: SecondarySource)
    ensures
        result == secondary_source(*project, *layer),
{
    match layer {
        None => SecondarySource::Absent,
        Some(layer) => match layer.mode {
            MaterialTextureMode::SimpleImage => if layer.image.is_some() {
                SecondarySource::Texture
            } else {
                SecondarySource::Absent
            },
            MaterialTextureMode::Generated => SecondarySource::Generated,
            MaterialTextureMode::Transition => SecondarySource::Transition,
            MaterialTextureMode::ReflectiveProbe => if project.probe_psxt.is_some() {
                SecondarySource::Probe
            } else {
                SecondarySource::Absent
            },
        },
    }
}

fn secondary_layer_text(project: &PlanProject, layer: &Option<SecondaryLayer>, id: ResourceId) -> (result:
    String)
    ensures
        result@ == secondary_text(*project, *layer, id),
{
    let source = secondary_layer_source(project, layer);
    let Some(layer) = layer else {
        return String::from_str("none");
    };
    match source {
        SecondarySource::Absent => String::from_str("none"),
        SecondarySource::Texture => {
            let mut out = String::from_str("texture:");
            let image = image_signature_text(&layer.image);
            out.append(image.as_str());
            out
        },
        SecondarySource::Generated => numbered(
            "generated:",
            bytes_signature(Some(&layer.generated_psxt)) as u64,
        ),
        SecondarySource::Probe => probe_text(project, "generated:"),
        SecondarySource::Transition => transition_preview_signature(
            &project.resources,
            &layer.transition,
            id,
        ),
    }
}

/// Plan the upload of a material's texture.
pub fn push_material_resource_upload(
    project: &PlanProject,
    id: ResourceId,
    force_zero_opaque: bool,
    plan: &mut Vec<PlanItem>,
)
    ensures
        entries(final(plan)@) == with_material(*project, entries(old(plan)@), id, force_zero_opaque),
{
    let ghost before = plan@;
    if let Some(i) = find_item(plan, id) {
        let forced = plan[i].force_zero_opaque && force_zero_opaque;
        plan[i].force_zero_opaque = forced;
        assert(entries(plan@) =~= with_material(*project, entries(before), id, force_zero_opaque));
        return;
    }
    let Some(i) = find_resource(&project.resources, id) else {
        return;
    };
    let resource = &project.resources[i];
    let PlanResourceKind::Material(material) = &resource.kind else {
        return;
    };
    let (signature, cache_signature) = material_signature_texts(project, material, id);
    let prepared = match material.mode {
        MaterialTextureMode::Generated => PreparedTexture::Generated,
        MaterialTextureMode::Transition => PreparedTexture::Transition,
        MaterialTextureMode::SimpleImage => PreparedTexture::Absent,
        MaterialTextureMode::ReflectiveProbe => if project.probe_psxt.is_some() {
            PreparedTexture::Probe
        } else {
            PreparedTexture::Absent
        },
    };
    plan.push(
        PlanItem {
            id,
            name: resource.name.clone(),
            signature,
            cache_signature,
            prepared,
            force_zero_opaque,
            allow_procedural_fallback: true,
            secondary: secondary_layer_source(project, &material.secondary),
            secondary_signature: secondary_layer_text(project, &material.secondary, id),
        },
    );
    assert(entries(plan@) =~= with_material(*project, entries(before), id, force_zero_opaque));
}

/// The entry of a texture that is drawn as it is, if `id` names one.
pub open spec fn texture_entry(project: PlanProject, id: ResourceId) -> Option<PlanEntry> {
    match resource_index(project.resources@, id, 0) {
        None => None,
        Some(i) => {
            let name = project.resources@[i].name@;
            let plain = PlanEntry {
                id,
                name,
                signature: Seq::empty(),
                cache_signature: Seq::empty(),
                prepared: PreparedTexture::Absent,
                force_zero_opaque: false,
                allow_procedural_fallback: false,
                secondary: SecondarySource::Absent,
                secondary_signature: "none"@,
            };
            match project.resources@[i].kind {
                PlanResourceKind::Material(material) => if material.mode
                    == MaterialTextureMode::Generated || material.mode
                    == MaterialTextureMode::Transition {
                    Some(
                        PlanEntry {
                            signature: material_signatures(project, material, id).0,
                            cache_signature: material_signatures(project, material, id).1,
                            prepared: material_prepared(project, material.mode),
                            ..plain
                        },
                    )
                } else {
                    match material.image {
                        Some(image) => Some(
                            PlanEntry {
                                signature: image.path@,
                                cache_signature: file_signature(image.path@, image.stamp),
                                ..plain
                            },
                        ),
                        None => None,
                    }
                },
                PlanResourceKind::Texture(image) => Some(
                    PlanEntry {
                        signature: image.path@,
                        cache_signature: file_signature(image.path@, image.stamp),
                        ..plain
                    },
                ),
                PlanResourceKind::Other(_) => None,
            }
        },
    }
}

/// The plan with a plain texture added, unless it is planned already.
pub open spec fn with_texture(project: PlanProject, plan: Seq<PlanEntry>, id: ResourceId) -> Seq<
    PlanEntry,
> {
    match (entry_index(plan, id, 0), texture_entry(project, id)) {
        (None, Some(entry)) => plan.push(entry),
        _ => plan,
    }
}

/// Plan the upload of a texture that is drawn as it is.
pub fn push_texture_resource_upload(project: &PlanProject, id: ResourceId, plan: &mut Vec<PlanItem>)
    ensures
        entries(final(plan)@) == with_texture(*project, entries(old(plan)@), id),
{
    let ghost before = plan@;
    if find_item(plan, id).is_some() {
        return;
    }
    let Some(i) = find_resource(&project.resources, id) else {
        return;
    };
    let resource = &project.resources[i];
    let (signature, cache_signature, prepared) = match &resource.kind {
        PlanResourceKind::Material(material) => match material.mode {
            MaterialTextureMode::Generated => {
                let texts = material_signature_texts(project, material, id);
                (texts.0, texts.1, PreparedTexture::Generated)
            },
            MaterialTextureMode::Transition => {
                let texts = material_signature_texts(project, material, id);
                (texts.0, texts.1, PreparedTexture::Transition)
            },
            _ => match &material.image {
                Some(image) => (
                    image.path.clone(),
                    texture_cache_signature(image.path.as_str(), image.stamp),
                    PreparedTexture::Absent,
                ),
                None => {
                    return;
                },
            },
        },
        PlanResourceKind::Texture(image) => (
            image.path.clone(),
            texture_cache_signature(image.path.as_str(), image.stamp),
            PreparedTexture::Absent,
        ),
        PlanResourceKind::Other(_) => {
            return;
        },
    };
    plan.push(
        PlanItem {
            id,
            name: resource.name.clone(),
            signature,
            cache_signature,
            prepared,
            force_zero_opaque: false,
            allow_procedural_fallback: false,
            secondary: SecondarySource::Absent,
            secondary_signature: String::from_str("none"),
        },
    );
    assert(entries(plan@) =~= with_texture(*project, entries(before), id));
}

/// The plan with the first `n` of some materials added.
pub open spec fn with_materials(
    project: PlanProject,
    plan: Seq<PlanEntry>,
    ids: Seq<ResourceId>,
    force_zero_opaque: bool,
    n: nat,
) -> Seq<PlanEntry>
    decreases n,
{
    if n == 0 {
        plan
    } else {
        with_material(
            project,
            with_materials(project, plan, ids, force_zero_opaque, (n - 1) as nat),
            ids[n - 1],
            force_zero_opaque,
        )
    }
}

fn push_materials(
    project: &PlanProject,
    ids: &Vec<ResourceId>,
    force_zero_opaque: bool,
    plan: &mut Vec<PlanItem>,
)
    ensures
        entries(final(plan)@) == with_materials(
            *project,
            entries(old(plan)@),
            ids@,
            force_zero_opaque,
            ids@.len(),
        ),
{
    for i in 0..ids.len()
        invariant
            entries(plan@) == with_materials(
                *project,
                entries(old(plan)@),
                ids@,
                force_zero_opaque,
                i as nat,
            ),
    {
        push_material_resource_upload(project, ids[i], force_zero_opaque, plan);
    }
}

/// The plan with the first `n` of a backdrop's panels added.
pub open spec fn with_panels(
    project: PlanProject,
    plan: Seq<PlanEntry>,
    panels: Seq<Option<ResourceId>>,
    n: nat,
) -> Seq<PlanEntry>
    decreases n,
{
    if n == 0 {
        plan
    } else {
        let before = with_panels(project, plan, panels, (n - 1) as nat);
        match panels[n - 1] {
            Some(id) => with_texture(project, before, id),
            None => before,
        }
    }
}

/// Some panel of a backdrop has a texture.
pub open spec fn any_panel(panels: Seq<Option<ResourceId>>) -> bool {
    exists|i: int| 0 <= i < panels.len() && (#[trigger] panels[i]) is Some
}

/// The plan with a backdrop added: its panels, or its one texture if no panel has any.
pub open spec fn with_far_vista(project: PlanProject, plan: Seq<PlanEntry>, vista: FarVista) -> Seq<
    PlanEntry,
> {
    if !vista.enabled {
        plan
    } else if any_panel(vista.panels@) {
        with_panels(project, plan, vista.panels@, vista.panels@.len())
    } else {
        match vista.texture {
            Some(id) => with_texture(project, plan, id),
            None => plan,
        }
    }
}

/// The plan with the first `n` backdrops added.
pub open spec fn with_far_vistas(project: PlanProject, plan: Seq<PlanEntry>, n: nat) -> Seq<PlanEntry>
    decreases n,
{
    if n == 0 {
        plan
    } else {
        with_far_vista(
            project,
            with_far_vistas(project, plan, (n - 1) as nat),
            project.far_vistas@[n - 1],
        )
    }
}

fn has_panel(panels: &Vec<Option<ResourceId>>) -> (result: bool)
    ensures
        result == any_panel(panels@),
{
    for i in 0..panels.len()
        invariant
            forall|j: int| 0 <= j < i ==> (#[trigger] panels@[j]) is None,
    {
        if panels[i].is_some() {
            return true;
        }
    }
    false
}

/// Plan the textures of the enabled backdrops.
pub fn push_far_vista_texture_uploads(project: &PlanProject, plan: &mut Vec<PlanItem>)
    ensures
        entries(final(plan)@) == with_far_vistas(
            *project,
            entries(old(plan)@),
            project.far_vistas@.len(),
        ),
{
    for i in 0..project.far_vistas.len()
        invariant
            entries(plan@) == with_far_vistas(*project, entries(old(plan)@), i as nat),
    {
        let vista = &project.far_vistas[i];
        if vista.enabled {
            if has_panel(&vista.panels) {
                let ghost before = entries(plan@);
                for k in 0..vista.panels.len()
                    invariant
                        entries(plan@) == with_panels(*project, before, vista.panels@, k as nat),
                {
                    if let Some(id) = vista.panels[k] {
                        push_texture_resource_upload(project, id, plan);
                    }
                }
            } else if let Some(id) = vista.texture {
                push_texture_resource_upload(project, id, plan);
            }
        }
    }
}

/// The identities of the materials among the first `n` resources.
pub open spec fn library_materials(resources: Seq<PlanResource>, n: nat) -> Seq<ResourceId>
    decreases n,
{
    if n == 0 {
        Seq::empty()
    } else {
        let before = library_materials(resources, (n - 1) as nat);
        if resources[n - 1].kind is Material {
            before.push(resources[n - 1].id)
        } else {
            before
        }
    }
}

/// The whole plan: materials that the scene uses, materials of image props,
/// backdrops, and then every other material.
pub open spec fn full_plan(project: PlanProject) -> Seq<PlanEntry> {
    let scene = with_materials(
        project,
        Seq::empty(),
        project.scene_materials@,
        true,
        project.scene_materials@.len(),
    );
    let props = with_materials(
        project,
        scene,
        project.image_prop_materials@,
        false,
        project.image_prop_materials@.len(),
    );
    let vistas = with_far_vistas(project, props, project.far_vistas@.len());
    let library = library_materials(project.resources@, project.resources@.len());
    with_materials(project, vistas, library, true, library.len())
}

/// Plan every texture upload, the textures that the scene needs first.
pub fn preview_texture_upload_plan(project: &PlanProject) -> (result: Vec<PlanItem>)
    ensures
        entries(result@) == full_plan(*project),
{
    let mut plan: Vec<PlanItem> = Vec::new();
    assert(entries(plan@) =~= Seq::<PlanEntry>::empty());
    push_materials(project, &project.scene_materials, true, &mut plan);
    push_materials(project, &project.image_prop_materials, false, &mut plan);
    push_far_vista_texture_uploads(project, &mut plan);
    let mut library: Vec<ResourceId> = Vec::new();
    for i in 0..project.resources.len()
        invariant
            library@ == library_materials(project.resources@, i as nat),
    {
        if matches!(project.resources[i].kind, PlanResourceKind::Material(_)) {
            library.push(project.resources[i].id);
        }
    }
    push_materials(project, &library, true, &mut plan);
    plan
}

/// No resource has two entries.
pub open spec fn planned_once(plan: Seq<PlanEntry>) -> bool {
    forall|i: int, j: int|
        0 <= i < j < plan.len() ==> (#[trigger] plan[i]).id != (#[trigger] plan[j]).id
}

/// `later` starts with the resources of `earlier`, in the same order.
pub open spec fn keeps_places(earlier: Seq<PlanEntry>, later: Seq<PlanEntry>) -> bool {
    earlier.len() <= later.len() && forall|i: int|
        0 <= i < earlier.len() ==> (#[trigger] later[i]).id == earlier[i].id
}

proof fn lemma_with_material(
    project: PlanProject,
    plan: Seq<PlanEntry>,
    id: ResourceId,
    force_zero_opaque: bool,
)
    requires
        planned_once(plan),
    ensures
        planned_once(with_material(project, plan, id, force_zero_opaque)),
        keeps_places(plan, with_material(project, plan, id, force_zero_opaque)),
{
    lemma_entry_index(plan, id, 0);
}

proof fn lemma_with_texture(project: PlanProject, plan: Seq<PlanEntry>, id: ResourceId)
    requires
        planned_once(plan),
    ensures
        planned_once(with_texture(project, plan, id)),
        keeps_places(plan, with_texture(project, plan, id)),
{
    lemma_entry_index(plan, id, 0);
}

proof fn lemma_with_materials(
    project: PlanProject,
    plan: Seq<PlanEntry>,
    ids: Seq<ResourceId>,
    force_zero_opaque: bool,
    n: nat,
)
    requires
        planned_once(plan),
    ensures
        planned_once(with_materials(project, plan, ids, force_zero_opaque, n)),
        keeps_places(plan, with_materials(project, plan, ids, force_zero_opaque, n)),
    decreases n,
{
    if n > 0 {
        lemma_with_materials(project, plan, ids, force_zero_opaque, (n - 1) as nat);
        lemma_with_material(
            project,
            with_materials(project, plan, ids, force_zero_opaque, (n - 1) as nat),
            ids[n - 1],
            force_zero_opaque,
        );
    }
}

proof fn lemma_with_panels(
    project: PlanProject,
    plan: Seq<PlanEntry>,
    panels: Seq<Option<ResourceId>>,
    n: nat,
)
    requires
        planned_once(plan),
    ensures
        planned_once(with_panels(project, plan, panels, n)),
        keeps_places(plan, with_panels(project, plan, panels, n)),
    decreases n,
{
    if n > 0 {
        lemma_with_panels(project, plan, panels, (n - 1) as nat);
        if let Some(id) = panels[n - 1] {
            lemma_with_texture(project, with_panels(project, plan, panels, (n - 1) as nat), id);
        }
    }
}

proof fn lemma_with_far_vistas(project: PlanProject, plan: Seq<PlanEntry>, n: nat)
    requires
        planned_once(plan),
    ensures
        planned_once(with_far_vistas(project, plan, n)),
        keeps_places(plan, with_far_vistas(project, plan, n)),
    decreases n,
{
    if n > 0 {
        lemma_with_far_vistas(project, plan, (n - 1) as nat);
        let before = with_far_vistas(project, plan, (n - 1) as nat);
        let vista = project.far_vistas@[n - 1];
        lemma_with_panels(project, before, vista.panels@, vista.panels@.len());
        if let Some(id) = vista.texture {
            lemma_with_texture(project, before, id);
        }
    }
}

/// The materials that the scene uses take the first places of the plan, then
/// those of image props, then backdrops; and no resource is planned twice.
pub proof fn law_plan_serves_the_scene_first(project: PlanProject)
    ensures
        planned_once(full_plan(project)),
        ({
            let scene = with_materials(
                project,
                Seq::empty(),
                project.scene_materials@,
                true,
                project.scene_materials@.len(),
            );
            let props = with_materials(
                project,
                scene,
                project.image_prop_materials@,
                false,
                project.image_prop_materials@.len(),
            );
            let vistas = with_far_vistas(project, props, project.far_vistas@.len());
            &&& keeps_places(scene, full_plan(project))
            &&& keeps_places(props, full_plan(project))
            &&& keeps_places(vistas, full_plan(project))
        }),
{
    let scene = with_materials(
        project,
        Seq::empty(),
        project.scene_materials@,
        true,
        project.scene_materials@.len(),
    );
    let props = with_materials(
        project,
        scene,
        project.image_prop_materials@,
        false,
        project.image_prop_materials@.len(),
    );
    let vistas = with_far_vistas(project, props, project.far_vistas@.len());
    let library = library_materials(project.resources@, project.resources@.len());
    lemma_with_materials(
        project,
        Seq::empty(),
        project.scene_materials@,
        true,
        project.scene_materials@.len(),
    );
    lemma_with_materials(
        project,
        scene,
        project.image_prop_materials@,
        false,
        project.image_prop_materials@.len(),
    );
    lemma_with_far_vistas(project, props, project.far_vistas@.len());
    lemma_with_materials(project, vistas, library, true, library.len());
}

/// A resource has an entry.
pub open spec fn is_planned(plan: Seq<PlanEntry>, id: ResourceId) -> bool {
    exists|k: int| 0 <= k < plan.len() && (#[trigger] plan[k]).id == id
}

proof fn lemma_stays_planned(earlier: Seq<PlanEntry>, later: Seq<PlanEntry>, id: ResourceId)
    requires
        keeps_places(earlier, later),
        is_planned(earlier, id),
    ensures
        is_planned(later, id),
{
    let k = choose|k: int| 0 <= k < earlier.len() && (#[trigger] earlier[k]).id == id;
    assert(later[k].id == id);
}

proof fn lemma_added_material(
    project: PlanProject,
    plan: Seq<PlanEntry>,
    id: ResourceId,
    force_zero_opaque: bool,
)
    requires
        material_entry(project, id, force_zero_opaque) is Some,
    ensures
        is_planned(with_material(project, plan, id, force_zero_opaque), id),
{
    let after = with_material(project, plan, id, force_zero_opaque);
    lemma_entry_index(plan, id, 0);
    match entry_index(plan, id, 0) {
        Some(i) => {
            assert(after[i].id == id);
        },
        None => {
            assert(after[plan.len() as int].id == id);
        },
    }
}

proof fn lemma_added_materials(
    project: PlanProject,
    plan: Seq<PlanEntry>,
    ids: Seq<ResourceId>,
    force_zero_opaque: bool,
    n: nat,
    k: int,
)
    requires
        planned_once(plan),
        0 <= k < n <= ids.len(),
        material_entry(project, ids[k], force_zero_opaque) is Some,
    ensures
        is_planned(with_materials(project, plan, ids, force_zero_opaque, n), ids[k]),
    decreases n,
{
    let before = with_materials(project, plan, ids, force_zero_opaque, (n - 1) as nat);
    lemma_with_materials(project, plan, ids, force_zero_opaque, (n - 1) as nat);
    if k == n - 1 {
        lemma_added_material(project, before, ids[k], force_zero_opaque);
    } else {
        lemma_added_materials(project, plan, ids, force_zero_opaque, (n - 1) as nat, k);
        lemma_with_material(project, before, ids[n - 1], force_zero_opaque);
        lemma_stays_planned(
            before,
            with_materials(project, plan, ids, force_zero_opaque, n),
            ids[k],
        );
    }
}

proof fn lemma_library(resources: Seq<PlanResource>, n: nat, i: int) -> (place: int)
    requires
        0 <= i < n <= resources.len(),
        resources[i].kind is Material,
    ensures
        0 <= place < library_materials(resources, n).len(),
        library_materials(resources, n)[place] == resources[i].id,
    decreases n,
{
    if i == n - 1 {
        library_materials(resources, (n - 1) as nat).len() as int
    } else {
        lemma_library(resources, (n - 1) as nat, i)
    }
}

/// Every material of the library is planned, whether or not anything uses it.
pub proof fn law_every_material_is_planned(project: PlanProject, i: int)
    requires
        0 <= i < project.resources@.len(),
        project.resources@[i].kind is Material,
        forall|j: int|
            0 <= j < i ==> (#[trigger] project.resources@[j]).id != project.resources@[i].id,
    ensures
        is_planned(full_plan(project), project.resources@[i].id),
{
    let id = project.resources@[i].id;
    let n = project.resources@.len();
    lemma_resource_index(project.resources@, id, 0);
    law_plan_serves_the_scene_first(project);
    let scene = with_materials(
        project,
        Seq::empty(),
        project.scene_materials@,
        true,
        project.scene_materials@.len(),
    );
    let props = with_materials(
        project,
        scene,
        project.image_prop_materials@,
        false,
        project.image_prop_materials@.len(),
    );
    lemma_with_materials(
        project,
        Seq::empty(),
        project.scene_materials@,
        true,
        project.scene_materials@.len(),
    );
    lemma_with_materials(
        project,
        scene,
        project.image_prop_materials@,
        false,
        project.image_prop_materials@.len(),
    );
    lemma_with_far_vistas(project, props, project.far_vistas@.len());
    let vistas = with_far_vistas(project, props, project.far_vistas@.len());
    let library = library_materials(project.resources@, n);
    let place = lemma_library(project.resources@, n, i);
    lemma_added_materials(project, vistas, library, true, library.len(), place);
}

/// The entry of a resource shows its first palette entry where it has to.
pub open spec fn opaque_entry(plan: Seq<PlanEntry>, id: ResourceId, opaque: bool) -> bool {
    forall|k: int| 0 <= k < plan.len() && (#[trigger] plan[k]).id == id ==> plan[k].force_zero_opaque
        == opaque
}

proof fn lemma_flag_of_material(
    project: PlanProject,
    plan: Seq<PlanEntry>,
    id: ResourceId,
    force_zero_opaque: bool,
    other: ResourceId,
)
    requires
        planned_once(plan),
    ensures
        ({
            let after = with_material(project, plan, id, force_zero_opaque);
            &&& id != other ==> (opaque_entry(plan, other, true) ==> opaque_entry(
                after,
                other,
                true,
            ))
            &&& id == other && force_zero_opaque ==> (opaque_entry(plan, other, true)
                ==> opaque_entry(after, other, true))
            &&& id == other && !force_zero_opaque ==> opaque_entry(after, other, false)
            &&& is_planned(plan, other) && opaque_entry(plan, other, false) ==> opaque_entry(
                after,
                other,
                false,
            )
        }),
{
    lemma_entry_index(plan, id, 0);
    let after = with_material(project, plan, id, force_zero_opaque);
    assert forall|k: int| 0 <= k < plan.len() && k < after.len() implies (#[trigger] after[k]).id
        == plan[k].id by {}
    match entry_index(plan, id, 0) {
        Some(i) => {
            assert forall|k: int| 0 <= k < after.len() && (#[trigger] after[k]).id == id implies k
                == i by {
                assert(plan[k].id == plan[i].id);
            }
            assert forall|k: int| 0 <= k < after.len() && k != i implies #[trigger] after[k]
                == plan[k] by {}
            assert(plan[i].id == id);
        },
        None => {},
    }
}

proof fn lemma_flags_of_materials(
    project: PlanProject,
    plan: Seq<PlanEntry>,
    ids: Seq<ResourceId>,
    force_zero_opaque: bool,
    n: nat,
    other: ResourceId,
)
    requires
        planned_once(plan),
        n <= ids.len(),
    ensures
        ({
            let after = with_materials(project, plan, ids, force_zero_opaque, n);
            &&& force_zero_opaque || !ids.contains(other) ==> (opaque_entry(plan, other, true)
                ==> opaque_entry(after, other, true))
            &&& is_planned(plan, other) && opaque_entry(plan, other, false) ==> opaque_entry(
                after,
                other,
                false,
            )
        }),
    decreases n,
{
    if n > 0 {
        lemma_flags_of_materials(project, plan, ids, force_zero_opaque, (n - 1) as nat, other);
        lemma_with_materials(project, plan, ids, force_zero_opaque, (n - 1) as nat);
        let before = with_materials(project, plan, ids, force_zero_opaque, (n - 1) as nat);
        lemma_flag_of_material(project, before, ids[n - 1], force_zero_opaque, other);
        if is_planned(plan, other) {
            lemma_stays_planned(plan, before, other);
        }
        assert(ids.contains(ids[n - 1]));
    }
}

proof fn lemma_flags_of_props(
    project: PlanProject,
    plan: Seq<PlanEntry>,
    ids: Seq<ResourceId>,
    n: nat,
    k: int,
)
    requires
        planned_once(plan),
        0 <= k < n <= ids.len(),
        material_entry(project, ids[k], false) is Some,
    ensures
        opaque_entry(with_materials(project, plan, ids, false, n), ids[k], false),
    decreases n,
{
    let before = with_materials(project, plan, ids, false, (n - 1) as nat);
    lemma_with_materials(project, plan, ids, false, (n - 1) as nat);
    lemma_flag_of_material(project, before, ids[n - 1], false, ids[k]);
    if k < n - 1 {
        lemma_flags_of_props(project, plan, ids, (n - 1) as nat, k);
        lemma_added_materials(project, plan, ids, false, (n - 1) as nat, k);
    }
}

proof fn lemma_flag_of_texture(
    project: PlanProject,
    plan: Seq<PlanEntry>,
    id: ResourceId,
    other: ResourceId,
    opaque: bool,
)
    requires
        planned_once(plan),
        is_planned(plan, other),
        opaque_entry(plan, other, opaque),
    ensures
        opaque_entry(with_texture(project, plan, id), other, opaque),
{
    lemma_entry_index(plan, id, 0);
    let after = with_texture(project, plan, id);
    assert forall|k: int| 0 <= k < after.len() && (#[trigger] after[k]).id == other implies
        after[k].force_zero_opaque == opaque by {
        if k < plan.len() {
            assert(after[k] == plan[k]);
        } else {
            let j = choose|j: int| 0 <= j < plan.len() && (#[trigger] plan[j]).id == other;
            assert(plan[j].id != id);
        }
    }
}

proof fn lemma_flags_of_panels(
    project: PlanProject,
    plan: Seq<PlanEntry>,
    panels: Seq<Option<ResourceId>>,
    n: nat,
    other: ResourceId,
    opaque: bool,
)
    requires
        planned_once(plan),
        is_planned(plan, other),
        opaque_entry(plan, other, opaque),
    ensures
        opaque_entry(with_panels(project, plan, panels, n), other, opaque),
        is_planned(with_panels(project, plan, panels, n), other),
    decreases n,
{
    if n > 0 {
        lemma_flags_of_panels(project, plan, panels, (n - 1) as nat, other, opaque);
        lemma_with_panels(project, plan, panels, (n - 1) as nat);
        lemma_with_panels(project, plan, panels, n);
        lemma_stays_planned(plan, with_panels(project, plan, panels, n), other);
        if let Some(id) = panels[n - 1] {
            lemma_flag_of_texture(
                project,
                with_panels(project, plan, panels, (n - 1) as nat),
                id,
                other,
                opaque,
            );
        }
    }
}

proof fn lemma_flags_of_vistas(
    project: PlanProject,
    plan: Seq<PlanEntry>,
    n: nat,
    other: ResourceId,
    opaque: bool,
)
    requires
        planned_once(plan),
        is_planned(plan, other),
        opaque_entry(plan, other, opaque),
    ensures
        opaque_entry(with_far_vistas(project, plan, n), other, opaque),
        is_planned(with_far_vistas(project, plan, n), other),
    decreases n,
{
    if n > 0 {
        lemma_flags_of_vistas(project, plan, (n - 1) as nat, other, opaque);
        lemma_with_far_vistas(project, plan, (n - 1) as nat);
        lemma_with_far_vistas(project, plan, n);
        lemma_stays_planned(plan, with_far_vistas(project, plan, n), other);
        let before = with_far_vistas(project, plan, (n - 1) as nat);
        let vista = project.far_vistas@[n - 1];
        lemma_flags_of_panels(project, before, vista.panels@, vista.panels@.len(), other, opaque);
        if let Some(id) = vista.texture {
            lemma_flag_of_texture(project, before, id, other, opaque);
        }
    }
}

/// A material that an image prop uses keeps its transparent colour, even if a
/// room uses it too.
pub proof fn law_image_props_stay_transparent(project: PlanProject, k: int)
    requires
        0 <= k < project.image_prop_materials@.len(),
        material_entry(project, project.image_prop_materials@[k], false) is Some,
    ensures
        opaque_entry(full_plan(project), project.image_prop_materials@[k], false),
        is_planned(full_plan(project), project.image_prop_materials@[k]),
{
    let ids = project.image_prop_materials@;
    let none = Seq::<PlanEntry>::empty();
    let used = project.scene_materials@;
    lemma_with_materials(project, none, used, true, used.len());
    let scene = with_materials(project, none, used, true, used.len());
    lemma_with_materials(project, scene, ids, false, ids.len());
    let props = with_materials(project, scene, ids, false, ids.len());
    lemma_flags_of_props(project, scene, ids, ids.len(), k);
    lemma_added_materials(project, scene, ids, false, ids.len(), k);
    lemma_flags_of_vistas(project, props, project.far_vistas@.len(), ids[k], false);
    lemma_with_far_vistas(project, props, project.far_vistas@.len());
    let vistas = with_far_vistas(project, props, project.far_vistas@.len());
    let library = library_materials(project.resources@, project.resources@.len());
    lemma_flags_of_materials(project, vistas, library, true, library.len(), ids[k]);
    lemma_with_materials(project, vistas, library, true, library.len());
    lemma_stays_planned(vistas, full_plan(project), ids[k]);
}

/// A material that the rooms use and no image prop does shows its first palette
/// entry.
pub proof fn law_room_materials_are_opaque(project: PlanProject, k: int)
    requires
        0 <= k < project.scene_materials@.len(),
        material_entry(project, project.scene_materials@[k], true) is Some,
        !project.image_prop_materials@.contains(project.scene_materials@[k]),
    ensures
        opaque_entry(full_plan(project), project.scene_materials@[k], true),
        is_planned(full_plan(project), project.scene_materials@[k]),
{
    let ids = project.image_prop_materials@;
    let none = Seq::<PlanEntry>::empty();
    let used = project.scene_materials@;
    let id = used[k];
    lemma_with_materials(project, none, used, true, used.len());
    let scene = with_materials(project, none, used, true, used.len());
    lemma_flags_of_materials(project, none, used, true, used.len(), id);
    lemma_added_materials(project, none, used, true, used.len(), k);
    lemma_with_materials(project, scene, ids, false, ids.len());
    let props = with_materials(project, scene, ids, false, ids.len());
    lemma_flags_of_materials(project, scene, ids, false, ids.len(), id);
    lemma_stays_planned(scene, props, id);
    lemma_flags_of_vistas(project, props, project.far_vistas@.len(), id, true);
    lemma_with_far_vistas(project, props, project.far_vistas@.len());
    let vistas = with_far_vistas(project, props, project.far_vistas@.len());
    let library = library_materials(project.resources@, project.resources@.len());
    lemma_flags_of_materials(project, vistas, library, true, library.len(), id);
    lemma_with_materials(project, vistas, library, true, library.len());
    lemma_stays_planned(vistas, full_plan(project), id);
}

proof fn lemma_parts_at_bar(a: Seq<char>, b: Seq<char>, c: Seq<char>, d: Seq<char>)
    requires
        all_digits(a),
        all_digits(c),
        a + seq!['|'] + b == c + seq!['|'] + d,
    ensures
        a == c,
        b == d,
{
    let x = a + seq!['|'] + b;
    let y = c + seq!['|'] + d;
    if a.len() < c.len() {
        assert(y[a.len() as int] == c[a.len() as int]);
        assert(x[a.len() as int] == '|');
        assert(is_digit(c[a.len() as int]));
    }
    if c.len() < a.len() {
        assert(x[c.len() as int] == a[c.len() as int]);
        assert(y[c.len() as int] == '|');
        assert(is_digit(a[c.len() as int]));
    }
    assert forall|i: int| 0 <= i < a.len() implies a[i] == c[i] by {
        assert(x[i] == y[i]);
    }
    assert(x.len() == y.len());
    assert forall|i: int| 0 <= i < b.len() implies b[i] == d[i] by {
        let at = a.len() + 1 + i;
        assert(x[at] == b[i]);
        assert(y[at] == d[i]);
    }
    assert(a =~= c);
    assert(b =~= d);
}

/// A file that changed in length or time has another signature.
pub proof fn law_changed_files_have_new_signatures(
    stored: Seq<char>,
    len: u64,
    seconds: u64,
    nanos: u32,
    new_len: u64,
    new_seconds: u64,
    new_nanos: u32,
)
    requires
        stored.len() > 0,
        file_signature(stored, FileStamp::Modified { len, seconds, nanos }) == file_signature(
            stored,
            FileStamp::Modified { len: new_len, seconds: new_seconds, nanos: new_nanos },
        ),
    ensures
        len == new_len,
        seconds == new_seconds,
        nanos == new_nanos,
{
    reveal_strlit("|");
    assert("|"@ =~= seq!['|']);
    let bar = seq!['|'];
    let l = decimal(len as nat);
    let s = decimal(seconds as nat);
    let n = decimal(nanos as nat);
    let l2 = decimal(new_len as nat);
    let s2 = decimal(new_seconds as nat);
    let n2 = decimal(new_nanos as nat);
    let head = stored + bar;
    let one = file_signature(stored, FileStamp::Modified { len, seconds, nanos });
    let two = file_signature(
        stored,
        FileStamp::Modified { len: new_len, seconds: new_seconds, nanos: new_nanos },
    );
    let rest = s + bar + n;
    let rest2 = s2 + bar + n2;
    assert(one =~= head + (l + bar + rest));
    assert(two =~= head + (l2 + bar + rest2));
    assert(one.skip(head.len() as int) =~= l + bar + rest);
    assert(two.skip(head.len() as int) =~= l2 + bar + rest2);
    law_numerals_are_read_back(len as nat);
    law_numerals_are_read_back(seconds as nat);
    law_numerals_are_read_back(nanos as nat);
    law_numerals_are_read_back(new_len as nat);
    law_numerals_are_read_back(new_seconds as nat);
    law_numerals_are_read_back(new_nanos as nat);
    lemma_parts_at_bar(l, rest, l2, rest2);
    lemma_parts_at_bar(s, n, s2, n2);
}

/// A material falls back to a pattern where its texture cannot be had, and keeps
/// its name and identity; a texture that is drawn as it is does not, and has
/// nothing laid over it.
pub proof fn law_materials_fall_back_to_patterns(
    project: PlanProject,
    id: ResourceId,
    force_zero_opaque: bool,
)
    ensures
        material_entry(project, id, force_zero_opaque) matches Some(entry) ==> {
            &&& entry.allow_procedural_fallback
            &&& entry.id == id
            &&& entry.force_zero_opaque == force_zero_opaque
            &&& exists|i: int| 0 <= i < project.resources@.len() && (#[trigger]
                project.resources@[i]).id == id && project.resources@[i].name@ == entry.name
                && project.resources@[i].kind is Material
        },
        texture_entry(project, id) matches Some(entry) ==> {
            &&& !entry.allow_procedural_fallback
            &&& entry.id == id
            &&& !entry.force_zero_opaque
            &&& entry.secondary is Absent
            &&& entry.prepared !is Probe
        },
{
    lemma_resource_index(project.resources@, id, 0);
}

} // verus!
