//! Where the picture comes from, and when it has to be redrawn.

use vstd::prelude::*;

verus! {

/// The part of video memory on screen.
#[derive(Clone, Copy, Debug, PartialEq, Eq, Structural)]
pub struct DisplayArea {
    pub x: u16,
    pub y: u16,
    pub width: u16,
    pub height: u16,
    /// True colour.
    pub bpp24: bool,
}

/// The area of a machine, or a plain low-resolution screen without one.
pub fn display_area_or_default(machine: Option<DisplayArea>) -> (area: DisplayArea)
    ensures
        area == match machine {
            Some(area) => area,
            None => DisplayArea { x: 0, y: 0, width: 320, height: 240, bpp24: false },
        },
{
    match machine {
        Some(area) => area,
        None => DisplayArea { x: 0, y: 0, width: 320, height: 240, bpp24: false },
    }
}

/// Corners of a rectangle in pixels; the far ones are outside.
#[derive(Clone, Copy, Debug, PartialEq, Eq, Structural)]
pub struct PixelRect {
    pub min_x: u32,
    pub min_y: u32,
    pub max_x: u32,
    pub max_y: u32,
}

/// A size, at least one.
pub open spec fn at_least_one(size: u16) -> int {
    if size == 0 {
        1
    } else {
        size as int
    }
}

/// The area within the decoded picture.
pub fn cpu_display_rect(area: DisplayArea) -> (rect: PixelRect)
    ensures
        rect.min_x == 0,
        rect.min_y == 0,
        rect.max_x == at_least_one(area.width),
        rect.max_y == at_least_one(area.height),
{
    let width: u32 = area.width.max(1) as u32;
    let height: u32 = area.height.max(1) as u32;
    PixelRect { min_x: 0, min_y: 0, max_x: width, max_y: height }
}

/// The area within video memory.
pub fn hw_display_rect(area: DisplayArea) -> (rect: PixelRect)
    ensures
        rect.min_x == area.x,
        rect.min_y == area.y,
        rect.max_x == area.x + at_least_one(area.width),
        rect.max_y == area.y + at_least_one(area.height),
{
    let width: u32 = area.width.max(1) as u32;
    let height: u32 = area.height.max(1) as u32;
    PixelRect {
        min_x: area.x as u32,
        min_y: area.y as u32,
        max_x: area.x as u32 + width,
        max_y: area.y as u32 + height,
    }
}

/// Which picture is shown.
#[derive(Clone, Copy, Debug, PartialEq, Eq, Structural)]
pub enum DisplaySource {
    /// The decoded picture.
    Cpu,
    /// The hardware renderer's.
    Hw,
}

/// Which picture is shown, and which part of it. Only true colour needs the
/// decoded one.
pub fn frontend_display(machine: Option<DisplayArea>) -> (shown: (DisplaySource, PixelRect))
    ensures
        ({
            let bpp24 = machine matches Some(area) && area.bpp24;
            let width = match machine {
                Some(area) => at_least_one(area.width),
                None => 320,
            };
            let height = match machine {
                Some(area) => at_least_one(area.height),
                None => 240,
            };
            let (left, top) = match machine {
                Some(area) => if area.bpp24 {
                    (0, 0)
                } else {
                    (area.x as int, area.y as int)
                },
                None => (0, 0),
            };
            &&& shown.0 == if bpp24 {
                DisplaySource::Cpu
            } else {
                DisplaySource::Hw
            }
            &&& shown.1.min_x == left
            &&& shown.1.min_y == top
            &&& shown.1.max_x == left + width
            &&& shown.1.max_y == top + height
        }),
{
    let area = display_area_or_default(machine);
    if area.bpp24 {
        (DisplaySource::Cpu, cpu_display_rect(area))
    } else {
        (DisplaySource::Hw, hw_display_rect(area))
    }
}

/// One logged command of the graphics processor.
#[derive(Clone, Copy, Debug, PartialEq, Eq, Structural)]
pub struct GpuLogEntry {
    pub opcode: u8,
    /// Number of words of the command.
    pub words: usize,
}

/// The command draws.
pub open spec fn is_draw(entry: GpuLogEntry) -> bool {
    0x20 <= entry.opcode <= 0x7F
}

/// The command moves an image.
pub open spec fn is_image(entry: GpuLogEntry) -> bool {
    0x80 <= entry.opcode <= 0xBF
}

/// How many commands draw.
pub open spec fn draw_count(log: Seq<GpuLogEntry>) -> nat
    decreases log.len(),
{
    if log.len() == 0 {
        0
    } else {
        draw_count(log.drop_last()) + if is_draw(log.last()) {
            1nat
        } else {
            0nat
        }
    }
}

/// How many commands move an image.
pub open spec fn image_count(log: Seq<GpuLogEntry>) -> nat
    decreases log.len(),
{
    if log.len() == 0 {
        0
    } else {
        image_count(log.drop_last()) + if is_image(log.last()) {
            1nat
        } else {
            0nat
        }
    }
}

/// How many words the commands have.
pub open spec fn word_count(log: Seq<GpuLogEntry>) -> nat
    decreases log.len(),
{
    if log.len() == 0 {
        0
    } else {
        word_count(log.drop_last()) + log.last().words as nat
    }
}

/// Number of commands, of words, of commands that draw and of commands that
/// move an image. The number of words saturates.
pub fn gpu_log_counters(log: &Vec<GpuLogEntry>) -> (counters: (usize, usize, usize, usize))
    ensures
        counters.0 == log@.len(),
        counters.1 == if word_count(log@) <= usize::MAX {
            word_count(log@) as int
        } else {
            usize::MAX as int
        },
        counters.2 == draw_count(log@),
        counters.3 == image_count(log@),
{
    let mut words: usize = 0;
    let mut draws: usize = 0;
    let mut images: usize = 0;
    let mut i: usize = 0;
    assert(log@.take(0) =~= Seq::<GpuLogEntry>::empty());
    while i < log.len()
        invariant
            i <= log@.len(),
            words == if word_count(log@.take(i as int)) <= usize::MAX {
                word_count(log@.take(i as int)) as int
            } else {
                usize::MAX as int
            },
            draws == draw_count(log@.take(i as int)),
            images == image_count(log@.take(i as int)),
            draws <= i,
            images <= i,
        decreases log@.len() - i,
    {
        assert(log@.take(i + 1).drop_last() =~= log@.take(i as int));
        let entry = log[i];
        words = words.saturating_add(entry.words);
        if entry.opcode >= 0x20 && entry.opcode <= 0x7F {
            draws = draws + 1;
        } else if entry.opcode >= 0x80 && entry.opcode <= 0xBF {
            images = images + 1;
        }
        i = i + 1;
    }
    assert(log@.take(i as int) =~= log@);
    (log.len(), words, draws, images)
}

/// Whether a command from a place on draws.
pub fn gpu_log_has_draw(log: &Vec<GpuLogEntry>, from: usize) -> (result: bool)
    ensures
        result == exists|i: int| from <= i < log@.len() && is_draw(#[trigger] log@[i]),
{
    let mut i: usize = from;
    while i < log.len()
        invariant
            from <= i,
            forall|j: int| from <= j < i ==> !is_draw(#[trigger] log@[j]),
        decreases log@.len() - i,
    {
        if log[i].opcode >= 0x20 && log[i].opcode <= 0x7F {
            assert(is_draw(log@[i as int]));
            return true;
        }
        i = i + 1;
    }
    false
}

/// Whether the renderer's target has to be filled anew: the machine was
/// replaced, or the screen left true colour.
pub fn hw_target_needs_resync(
    seen_generation: &mut u64,
    last_display_bpp24: &mut bool,
    current_generation: u64,
    current_display_bpp24: bool,
) -> (resync: bool)
    ensures
        resync == (*old(seen_generation) != current_generation || (*old(last_display_bpp24)
            && !current_display_bpp24)),
        *final(seen_generation) == current_generation,
        *final(last_display_bpp24) == current_display_bpp24,
{
    let generation_changed = *seen_generation != current_generation;
    *seen_generation = current_generation;
    let leaving_24bpp = *last_display_bpp24 && !current_display_bpp24;
    *last_display_bpp24 = current_display_bpp24;
    generation_changed || leaving_24bpp
}

/// What identifies the contents of video memory: machine cycles, machine
/// number, wireframe.
#[derive(Clone, Copy, Debug, PartialEq, Eq, Structural)]
pub struct VramStamp {
    pub cycles: u64,
    pub generation: u64,
    pub wireframe: bool,
}

/// Takes the stamp of this frame. Tells whether video memory may have changed.
pub fn take_vram_stamp(synced: &mut Option<VramStamp>, stamp: Option<VramStamp>) -> (dirty: bool)
    ensures
        dirty == (*old(synced) != stamp),
        *final(synced) == stamp,
{
    let dirty = match (*synced, stamp) {
        (None, None) => false,
        (Some(a), Some(b)) => a != b,
        _ => true,
    };
    *synced = stamp;
    dirty
}

/// What the hardware renderer does this frame.
#[derive(Clone, Copy, Debug, PartialEq, Eq, Structural)]
pub enum HwRender {
    /// The last picture still holds.
    Keep,
    /// Draw the frame, first filling the target anew if asked.
    Frame { refill: bool },
    /// Draw an empty screen.
    Blank,
}

/// What has to be done for the picture of this frame.
#[derive(Clone, Copy, Debug, PartialEq, Eq, Structural)]
pub struct PictureWork {
    /// Replay the commands on the second renderer.
    pub mirror: bool,
    /// Upload the decoded picture.
    pub upload_display: bool,
    pub hw: HwRender,
    /// Expand video memory for the side panel.
    pub expand_vram: bool,
    /// Draw the editor's preview.
    pub editor_preview: bool,
}

/// What there is to draw with this frame.
#[derive(Clone, Copy, Debug, PartialEq, Eq, Structural)]
pub struct PictureState {
    pub has_machine: bool,
    pub has_mirror: bool,
    pub vram_dirty: bool,
    pub scale_changed: bool,
    pub resync: bool,
    pub side_panel: bool,
    pub in_editor: bool,
    pub playtest_running: bool,
    pub preview_visible: bool,
}

/// What has to be done for the picture of this frame.
pub fn picture_work(state: PictureState) -> (work: PictureWork)
    ensures
        work.mirror == (state.vram_dirty && state.has_mirror && state.has_machine),
        work.upload_display == state.vram_dirty,
        work.hw == if !(state.vram_dirty || state.scale_changed || state.resync) {
            HwRender::Keep
        } else if state.has_machine {
            HwRender::Frame { refill: state.scale_changed || state.resync }
        } else {
            HwRender::Blank
        },
        work.expand_vram == (state.side_panel && state.has_machine),
        work.editor_preview == (state.in_editor && !state.playtest_running
            && state.preview_visible),
{
    let hw = if state.vram_dirty || state.scale_changed || state.resync {
        if state.has_machine {
            HwRender::Frame { refill: state.scale_changed || state.resync }
        } else {
            HwRender::Blank
        }
    } else {
        HwRender::Keep
    };
    PictureWork {
        mirror: state.vram_dirty && state.has_mirror && state.has_machine,
        upload_display: state.vram_dirty,
        hw,
        expand_vram: state.side_panel && state.has_machine,
        editor_preview: state.in_editor && !state.playtest_running && state.preview_visible,
    }
}

/// What is captured of the machine's drawing before it runs.
#[derive(Clone, Copy, Debug, PartialEq, Eq, Structural)]
pub enum CaptureArm {
    Nothing,
    PixelTracer,
    CommandLog,
}

/// What has to be armed: the tracer for a second renderer, else the command
/// log; neither is armed twice, since that would empty it.
pub fn capture_to_arm(has_mirror: bool, tracing: bool, logging: bool) -> (arm: CaptureArm)
    ensures
        arm == if has_mirror && !tracing {
            CaptureArm::PixelTracer
        } else if !has_mirror && !logging {
            CaptureArm::CommandLog
        } else {
            CaptureArm::Nothing
        },
{
    if has_mirror {
        if tracing {
            CaptureArm::Nothing
        } else {
            CaptureArm::PixelTracer
        }
    } else if logging {
        CaptureArm::Nothing
    } else {
        CaptureArm::CommandLog
    }
}

/// The leading three bits of a command tell what it is: polygons, lines and
/// rectangles draw, transfers inside video memory and into it are images.
pub proof fn law_commands_are_grouped_by_leading_bits(entry: GpuLogEntry)
    ensures
        is_draw(entry) <==> entry.opcode / 32 == 1 || entry.opcode / 32 == 2 || entry.opcode / 32
            == 3,
        is_image(entry) <==> entry.opcode / 32 == 4 || entry.opcode / 32 == 5,
        !(is_draw(entry) && is_image(entry)),
{
}

/// The counters of a log add up over its parts, and one command counts once.
pub proof fn law_counters_add_up(a: Seq<GpuLogEntry>, b: Seq<GpuLogEntry>, entry: GpuLogEntry)
    ensures
        draw_count(a + b) == draw_count(a) + draw_count(b),
        image_count(a + b) == image_count(a) + image_count(b),
        word_count(a + b) == word_count(a) + word_count(b),
        draw_count(seq![entry]) == if is_draw(entry) {
            1nat
        } else {
            0
        },
        image_count(seq![entry]) == if is_image(entry) {
            1nat
        } else {
            0
        },
        word_count(seq![entry]) == entry.words,
        draw_count(a) + image_count(a) <= a.len(),
    decreases a.len() + b.len(),
{
    let one = seq![entry];
    assert(one.drop_last() =~= Seq::<GpuLogEntry>::empty());
    reveal_with_fuel(draw_count, 2);
    reveal_with_fuel(image_count, 2);
    reveal_with_fuel(word_count, 2);
    if a.len() > 0 {
        law_counters_add_up(a.drop_last(), Seq::empty(), entry);
    }
    if b.len() == 0 {
        assert(a + b =~= a);
    } else {
        law_counters_add_up(a, b.drop_last(), entry);
        assert((a + b).drop_last() =~= a + b.drop_last());
    }
}

/// A picture is never empty, and one of some size keeps it.
pub proof fn law_pictures_are_never_empty(size: u16)
    ensures
        at_least_one(size) >= 1,
        size >= 1 ==> at_least_one(size) == size,
        at_least_one(size) <= size + 1,
{
}

} // verus!
