//! Particle emitters in the viewport: where their particles are at a moment,
//! and the quads that show them.

use crate::math::{
    clamp_i16, clamp_i32, clamp_int, lemma_sar4_sar5_i32, saturate_i16, saturate_i32,
    saturating_add_i32, saturating_mul_i32, saturating_sub_i32, trunc_div,
};
use crate::preview::material::{BlendMode, MaterialSlot, TextureMaterial};
use crate::preview::primitives::{
    depth_slot, preview_texture_material, room_depth_slot, surface_material,
};
use crate::preview::screen::{Projected, WorldVertex, PROJ_H};
use vstd::prelude::*;

verus! {

/// Frames of an emitter's second, times one in its rate.
pub const RATE_UNIT: u32 = 15360;

/// Limits of the viewport's particles.
#[derive(Clone, Copy, Debug, PartialEq, Eq, Structural)]
pub struct ParticleLimits {
    /// Particles that are drawn at most.
    pub draw_cap: u32,
    /// Half the size of a quad, in pixels.
    pub min_half: i16,
    pub max_half: i16,
    /// Place of the particle picture in its texture page.
    pub texel_u: u8,
    pub texel_v: u8,
}

/// An emitter.
#[derive(Clone, Copy, Debug, PartialEq, Eq)]
pub struct ParticleEmitterSettings {
    pub enabled: bool,
    pub max_particles: u16,
    pub lifetime_frames: u16,
    /// Particles per second, times 256.
    pub spawn_rate_q8: u16,
    pub spawn_radius: u16,
    /// Speed per frame, times 16.
    pub base_velocity_q4: [i16; 3],
    pub random_velocity_q4: [u16; 3],
    pub acceleration_q4: [i16; 3],
    pub start_size: u16,
    pub end_size: u16,
    pub start_color: [u8; 3],
    pub end_color: [u8; 3],
    pub blend_mode: BlendMode,
}

/// One particle at a moment.
#[derive(Clone, Copy, Debug, PartialEq, Eq, Structural)]
pub struct ParticleSample {
    pub position: WorldVertex,
    pub age: i32,
}

/// A number kept to 32 bits.
pub open spec fn wrap32(value: int) -> u32 {
    (value % 0x1_0000_0000) as u32
}

/// Bits turned round to the left.
pub open spec fn turned(value: u32, by: u32) -> u32 {
    (value << by) | (value >> ((32 - by) as u32))
}

fn turn(value: u32, by: u32) -> (result: u32)
    requires
        0 < by < 32,
    ensures
        result == turned(value, by),
{
    (value << by) | (value >> (32 - by))
}

/// The lower bits stirred with the upper ones.
pub open spec fn stirred(value: u32, by: u32) -> u32 {
    value ^ (value >> by)
}

/// The number that stands for a particle, from its emitter's place and its own
/// number.
pub open spec fn seed_of(x: u32, z: u32, index: u32) -> u32 {
    let start = wrap32(
        wrap32(turned(x, 7) + turned(z, 17)) + wrap32(index * 0x85EB_CA6B),
    );
    let first = wrap32(stirred(start, 16) * 0x7FEB_352D);
    let second = wrap32(stirred(first, 15) * 0x846C_A68B);
    stirred(second, 16)
}

/// The number that stands for a particle.
pub fn preview_particle_seed(x: u32, z: u32, index: u32) -> (seed: u32)
    ensures
        seed == seed_of(x, z, index),
{
    let mut value: u32 = turn(x, 7).wrapping_add(turn(z, 17)).wrapping_add(
        index.wrapping_mul(0x85EB_CA6B),
    );
    value = value ^ (value >> 16);
    value = value.wrapping_mul(0x7FEB_352D);
    value = value ^ (value >> 15);
    value = value.wrapping_mul(0x846C_A68B);
    value ^ (value >> 16)
}

/// A number between `-spread` and `spread`, picked by a seed.
pub open spec fn spread_of(seed: u32, spread: i32) -> int {
    if spread <= 0 {
        0
    } else {
        seed as int % saturate_i32(2 * spread + 1) - spread
    }
}

/// A number between `-spread` and `spread`, picked by a seed.
pub fn preview_particle_signed_spread(seed: u32, spread: i32) -> (result: i32)
    ensures
        result == spread_of(seed, spread),
{
    if spread <= 0 {
        return 0;
    }
    let span: u32 = saturating_add_i32(saturating_mul_i32(spread, 2), 1) as u32;
    (seed % span) as i32 - spread
}

/// A picked number keeps to its spread, and every number of it can be picked.
/// Spreads that overflow when doubled are another matter.
pub proof fn law_spread_is_symmetric(seed: u32, spread: i32, wanted: int)
    requires
        0 < spread < 0x4000_0000,
        -spread <= wanted <= spread,
    ensures
        -spread <= spread_of(seed, spread) <= spread,
        spread_of((wanted + spread) as u32, spread) == wanted,
{
    vstd::arithmetic::div_mod::lemma_small_mod((wanted + spread) as nat, (2 * spread + 1) as nat);
}

/// Where a particle is on one axis after a number of frames.
pub open spec fn axis_of_particle(
    origin: int,
    base_velocity_q4: i16,
    random_velocity_q4: u16,
    acceleration_q4: i16,
    age: int,
    seed: u32,
) -> int {
    let velocity = saturate_i32(base_velocity_q4 + spread_of(seed, random_velocity_q4 as i32));
    let moved = saturate_i32(velocity * age) / 16;
    let sped_up = saturate_i32(saturate_i32(acceleration_q4 * age) * age) / 32;
    saturate_i32(saturate_i32(origin + moved) + sped_up)
}

/// Where a particle is on one axis after a number of frames.
pub fn preview_particle_axis_position(
    origin: i32,
    base_velocity_q4: i16,
    random_velocity_q4: u16,
    acceleration_q4: i16,
    age: i32,
    seed: u32,
) -> (position: i32)
    ensures
        position == axis_of_particle(
            origin as int,
            base_velocity_q4,
            random_velocity_q4,
            acceleration_q4,
            age as int,
            seed,
        ),
{
    let random_velocity: i32 = preview_particle_signed_spread(seed, random_velocity_q4 as i32);
    let velocity: i32 = saturating_add_i32(base_velocity_q4 as i32, random_velocity);
    let moved: i32 = saturating_mul_i32(velocity, age);
    let sped_up: i32 = saturating_mul_i32(saturating_mul_i32(acceleration_q4 as i32, age), age);
    proof {
        lemma_sar4_sar5_i32(moved);
        lemma_sar4_sar5_i32(sped_up);
    }
    saturating_add_i32(saturating_add_i32(origin, moved >> 4), sped_up >> 5)
}

/// A number between two others, `t` 255ths of the way, rounded toward zero and
/// limited to the range from 0 to `limit`.
pub open spec fn between(a: int, b: int, t: int, limit: int) -> int {
    clamp_int(trunc_div(a * (255 - t) + b * t, 255), 0, limit)
}

/// What two numbers contribute, and both together, are `i32` values.
pub open spec fn shares_fit(a: int, b: int, t: int) -> bool {
    &&& i32::MIN <= 255 - t <= i32::MAX
    &&& i32::MIN <= a * (255 - t) <= i32::MAX
    &&& i32::MIN <= b * t <= i32::MAX
    &&& i32::MIN <= a * (255 - t) + b * t <= i32::MAX
}

/// Within a life, what two sizes or channels contribute can be counted.
proof fn lemma_shares_fit(a: int, b: int, t: int)
    requires
        0 <= a <= 65535,
        0 <= b <= 65535,
        0 <= t <= 255,
    ensures
        shares_fit(a, b, t),
{
    assert(0 <= a * (255 - t) && 0 <= b * t && a * (255 - t) + b * t <= 65535 * 255)
        by (nonlinear_arith)
        requires
            0 <= a <= 65535,
            0 <= b <= 65535,
            0 <= t <= 255,
    ;
}

/// A size between two others.
pub fn preview_particle_lerp_u16(a: u16, b: u16, t_q8: i32) -> (result: u16)
    requires
        shares_fit(a as int, b as int, t_q8 as int),
    ensures
        result == between(a as int, b as int, t_q8 as int, 65535),
{
    let sum: i32 = a as i32 * (255 - t_q8) + b as i32 * t_q8;
    clamp_i32(sum / 255, 0, 65535) as u16
}

/// A channel between two others.
pub fn preview_particle_lerp_u8(a: u8, b: u8, t_q8: i32) -> (result: u8)
    requires
        shares_fit(a as int, b as int, t_q8 as int),
    ensures
        result == between(a as int, b as int, t_q8 as int, 255),
{
    let sum: i32 = a as i32 * (255 - t_q8) + b as i32 * t_q8;
    clamp_i32(sum / 255, 0, 255) as u8
}

/// A colour between two others.
pub fn preview_particle_lerp_rgb(a: [u8; 3], b: [u8; 3], t_q8: i32) -> (result: (u8, u8, u8))
    requires
        shares_fit(a@[0] as int, b@[0] as int, t_q8 as int),
        shares_fit(a@[1] as int, b@[1] as int, t_q8 as int),
        shares_fit(a@[2] as int, b@[2] as int, t_q8 as int),
    ensures
        result.0 == between(a@[0] as int, b@[0] as int, t_q8 as int, 255),
        result.1 == between(a@[1] as int, b@[1] as int, t_q8 as int, 255),
        result.2 == between(a@[2] as int, b@[2] as int, t_q8 as int, 255),
{
    (
        preview_particle_lerp_u8(a[0], b[0], t_q8),
        preview_particle_lerp_u8(a[1], b[1], t_q8),
        preview_particle_lerp_u8(a[2], b[2], t_q8),
    )
}

/// A particle starts as the first of two values and ends as the second.
pub proof fn law_between_starts_and_ends(a: int, b: int, limit: int)
    requires
        0 <= a <= limit,
        0 <= b <= limit,
    ensures
        between(a, b, 0, limit) == a,
        between(a, b, 255, limit) == b,
{
}

/// The emitter shows anything.
pub open spec fn emits(settings: ParticleEmitterSettings) -> bool {
    settings.enabled && settings.max_particles > 0 && settings.lifetime_frames > 0
        && settings.spawn_rate_q8 > 0
}

/// Particles that are alive at a time, rounded up.
pub open spec fn steady_count(settings: ParticleEmitterSettings) -> int {
    let product = settings.spawn_rate_q8 * settings.lifetime_frames;
    let raised = if product + 15359 > u32::MAX {
        u32::MAX as int
    } else {
        product + 15359
    };
    raised / 15360
}

/// Particles that are drawn.
pub open spec fn drawn_count(settings: ParticleEmitterSettings, draw_cap: u32) -> int {
    let alive = if steady_count(settings) < 1 {
        1
    } else {
        steady_count(settings)
    };
    let capped = if settings.max_particles as int <= draw_cap {
        settings.max_particles as int
    } else {
        draw_cap as int
    };
    if capped <= alive {
        capped
    } else {
        alive
    }
}

/// The age of a particle: the particles are spread evenly over a lifetime.
pub open spec fn particle_age(tick: u32, index: int, lifetime: int, count: int) -> int {
    (tick + (index * lifetime) / count) % lifetime
}

/// A particle at a moment.
pub open spec fn particle_at(
    settings: ParticleEmitterSettings,
    origin: WorldVertex,
    seed: u32,
    age: int,
) -> (int, int, int) {
    let radius = settings.spawn_radius as i32;
    (
        axis_of_particle(
            saturate_i32(origin.x + spread_of(seed, radius)),
            settings.base_velocity_q4@[0],
            settings.random_velocity_q4@[0],
            settings.acceleration_q4@[0],
            age,
            turned(seed, 3),
        ),
        axis_of_particle(
            saturate_i32(origin.y + spread_of(turned(seed, 9), (settings.spawn_radius / 2) as i32)),
            settings.base_velocity_q4@[1],
            settings.random_velocity_q4@[1],
            settings.acceleration_q4@[1],
            age,
            turned(seed, 11),
        ),
        axis_of_particle(
            saturate_i32(origin.z + spread_of(turned(seed, 17), radius)),
            settings.base_velocity_q4@[2],
            settings.random_velocity_q4@[2],
            settings.acceleration_q4@[2],
            age,
            turned(seed, 21),
        ),
    )
}

fn place_particle(
    settings: &ParticleEmitterSettings,
    origin: WorldVertex,
    seed: u32,
    age: i32,
) -> (position: WorldVertex)
    ensures
        (position.x as int, position.y as int, position.z as int) == particle_at(
            *settings,
            origin,
            seed,
            age as int,
        ),
{
    let radius: i32 = settings.spawn_radius as i32;
    let half_radius: i32 = (settings.spawn_radius / 2) as i32;
    let x: i32 = saturating_add_i32(origin.x, preview_particle_signed_spread(seed, radius));
    let y: i32 = saturating_add_i32(
        origin.y,
        preview_particle_signed_spread(turn(seed, 9), half_radius),
    );
    let z: i32 = saturating_add_i32(
        origin.z,
        preview_particle_signed_spread(turn(seed, 17), radius),
    );
    WorldVertex {
        x: preview_particle_axis_position(
            x,
            settings.base_velocity_q4[0],
            settings.random_velocity_q4[0],
            settings.acceleration_q4[0],
            age,
            turn(seed, 3),
        ),
        y: preview_particle_axis_position(
            y,
            settings.base_velocity_q4[1],
            settings.random_velocity_q4[1],
            settings.acceleration_q4[1],
            age,
            turn(seed, 11),
        ),
        z: preview_particle_axis_position(
            z,
            settings.base_velocity_q4[2],
            settings.random_velocity_q4[2],
            settings.acceleration_q4[2],
            age,
            turn(seed, 21),
        ),
    }
}

/// The particles of an emitter at a moment.
pub fn particle_samples(
    settings: &ParticleEmitterSettings,
    origin: WorldVertex,
    tick: u32,
    draw_cap: u32,
) -> (samples: Vec<ParticleSample>)
    requires
        tick + settings.lifetime_frames <= u32::MAX,
    ensures
        !emits(*settings) ==> samples@.len() == 0,
        emits(*settings) ==> {
            let count = drawn_count(*settings, draw_cap);
            let lifetime = settings.lifetime_frames as int;
            &&& samples@.len() == count
            &&& forall|i: int|
                0 <= i < count ==> {
                    let sample = #[trigger] samples@[i];
                    let age = particle_age(tick, i, lifetime, count);
                    &&& sample.age == age
                    &&& (
                        sample.position.x as int,
                        sample.position.y as int,
                        sample.position.z as int,
                    ) == particle_at(
                        *settings,
                        origin,
                        seed_of(wrap32(origin.x as int), wrap32(origin.z as int), i as u32),
                        age,
                    )
                }
        },
{
    let mut samples: Vec<ParticleSample> = Vec::new();
    if !settings.enabled || settings.max_particles == 0 || settings.lifetime_frames == 0
        || settings.spawn_rate_q8 == 0 {
        return samples;
    }
    let lifetime: u32 = settings.lifetime_frames as u32;
    let rate: u32 = settings.spawn_rate_q8 as u32;
    assert(0 <= rate * lifetime <= 0xFFFE_0001) by (nonlinear_arith)
        requires
            0 <= rate <= 65535,
            0 <= lifetime <= 65535,
    ;
    let steady: u32 = (rate * lifetime).saturating_add(RATE_UNIT - 1) / RATE_UNIT;
    let alive: u32 = if steady < 1 {
        1
    } else {
        steady
    };
    let mut count: u32 = settings.max_particles as u32;
    if draw_cap < count {
        count = draw_cap;
    }
    if alive < count {
        count = alive;
    }
    let start_x: u32 = origin.x as u32;
    let start_z: u32 = origin.z as u32;
    proof {
        lemma_cast(origin.x);
        lemma_cast(origin.z);
    }
    let mut i: u32 = 0;
    while i < count
        invariant
            emits(*settings),
            tick + settings.lifetime_frames <= u32::MAX,
            lifetime == settings.lifetime_frames,
            count == drawn_count(*settings, draw_cap),
            count <= settings.max_particles,
            i <= count,
            start_x == wrap32(origin.x as int),
            start_z == wrap32(origin.z as int),
            samples@.len() == i,
            forall|j: int|
                0 <= j < i ==> {
                    let sample = #[trigger] samples@[j];
                    let age = particle_age(tick, j, lifetime as int, count as int);
                    &&& sample.age == age
                    &&& (
                        sample.position.x as int,
                        sample.position.y as int,
                        sample.position.z as int,
                    ) == particle_at(
                        *settings,
                        origin,
                        seed_of(wrap32(origin.x as int), wrap32(origin.z as int), j as u32),
                        age,
                    )
                },
        decreases count - i,
    {
        let seed: u32 = preview_particle_seed(start_x, start_z, i);
        proof {
            lemma_age(i as int, lifetime as int, count as int);
        }
        let offset: u32 = i * lifetime / count;
        let age: u32 = (tick + offset) % lifetime;
        let position = place_particle(settings, origin, seed, age as i32);
        samples.push(ParticleSample { position, age: age as i32 });
        i = i + 1;
    }
    samples
}

proof fn lemma_age(i: int, lifetime: int, count: int)
    requires
        0 <= i < count <= 65535,
        0 < lifetime <= 65535,
    ensures
        0 <= i * lifetime <= u32::MAX,
        0 <= (i * lifetime) / count < lifetime,
{
    assert(0 <= i * lifetime <= 65534 * 65535 && i * lifetime < count * lifetime)
        by (nonlinear_arith)
        requires
            0 <= i < count <= 65535,
            0 < lifetime <= 65535,
    ;
    assert((i * lifetime) / count < lifetime && 0 <= (i * lifetime) / count) by (nonlinear_arith)
        requires
            0 <= i * lifetime < count * lifetime,
            count > 0,
    ;
}

proof fn lemma_cast(value: i32)
    ensures
        value as u32 == wrap32(value as int),
{
    if value < 0 {
        assert((value as u32) as i64 == value as i64 + 0x1_0000_0000i64) by (bit_vector)
            requires
                value < 0,
        ;
    }
}

/// A quad that shows a particle.
#[derive(Clone, Copy, Debug, PartialEq, Eq)]
pub struct ParticleQuad {
    pub xy: [(i16, i16); 4],
    pub uvs: [(u8, u8); 4],
    pub material: TextureMaterial,
    /// Slot of the ordering table.
    pub slot: usize,
}

/// How far a particle is through its life, in 255ths.
pub open spec fn life_part(age: i32, lifetime: i32) -> int {
    if lifetime <= 1 {
        255
    } else {
        clamp_int(trunc_div(age * 255, lifetime - 1), 0, 255)
    }
}

/// Half the size of a particle's quad.
pub open spec fn half_size(size: int, depth: u16, limits: ParticleLimits) -> int {
    let divisor = if depth == 0 {
        1
    } else {
        depth as int
    };
    clamp_int((size * 320) / divisor, limits.min_half as int, limits.max_half as int)
}

/// The quad of a particle.
pub open spec fn particle_quad(
    settings: ParticleEmitterSettings,
    age: i32,
    lifetime: i32,
    center: Projected,
    slot: MaterialSlot,
    limits: ParticleLimits,
) -> ParticleQuad {
    let t = life_part(age, lifetime);
    let half = half_size(
        between(settings.start_size as int, settings.end_size as int, t, 65535),
        center.sz,
        limits,
    );
    let left = saturate_i16(center.sx - half) as i16;
    let right = saturate_i16(center.sx + half) as i16;
    let top = saturate_i16(center.sy - half) as i16;
    let bottom = saturate_i16(center.sy + half) as i16;
    let u0 = limits.texel_u;
    let v0 = limits.texel_v;
    let u1 = (u0 + last_texel(slot.texture_width)) as u8;
    let v1 = (v0 + last_texel(slot.texture_height)) as u8;
    let tint = (
        between(settings.start_color@[0] as int, settings.end_color@[0] as int, t, 255) as u8,
        between(settings.start_color@[1] as int, settings.end_color@[1] as int, t, 255) as u8,
        between(settings.start_color@[2] as int, settings.end_color@[2] as int, t, 255) as u8,
    );
    ParticleQuad {
        xy: [(left, top), (right, top), (left, bottom), (right, bottom)],
        uvs: [(u0, v0), (u1, v0), (u0, v1), (u1, v1)],
        material: surface_material(slot, tint, settings.blend_mode),
        slot: depth_slot(center.sz as int) as usize,
    }
}

/// The last texel of a picture's row or column.
pub open spec fn last_texel(size: u8) -> int {
    if size == 0 {
        0
    } else {
        size - 1
    }
}

/// A quad has an area.
pub open spec fn has_area(quad: ParticleQuad) -> bool {
    quad.xy@[0].0 != quad.xy@[3].0 && quad.xy@[0].1 != quad.xy@[3].1
}

/// Queues the quad of a particle, unless it lies behind the camera, has no area
/// or finds no room.
pub fn push_particle_preview_sample(
    quads: &mut Vec<ParticleQuad>,
    settings: &ParticleEmitterSettings,
    age: i32,
    center: Projected,
    slot: MaterialSlot,
    limits: ParticleLimits,
)
    requires
        limits.min_half <= limits.max_half,
        limits.texel_u + last_texel(slot.texture_width) <= 255,
        limits.texel_v + last_texel(slot.texture_height) <= 255,
        center.sz != 0 && settings.lifetime_frames > 1 ==> i32::MIN <= age * 255 <= i32::MAX,
    ensures
        ({
            let quad = particle_quad(
                *settings,
                age,
                settings.lifetime_frames as i32,
                center,
                slot,
                limits,
            );
            final(quads)@ == if center.sz != 0 && has_area(quad) && old(quads)@.len()
                < limits.draw_cap {
                old(quads)@.push(quad)
            } else {
                old(quads)@
            }
        }),
{
    if center.sz == 0 {
        return;
    }
    let lifetime: i32 = settings.lifetime_frames as i32;
    let t_q8: i32 = if lifetime <= 1 {
        255
    } else {
        clamp_i32((age * 255) / (lifetime - 1), 0, 255)
    };
    proof {
        lemma_shares_fit(settings.start_size as int, settings.end_size as int, t_q8 as int);
        lemma_shares_fit(
            settings.start_color@[0] as int,
            settings.end_color@[0] as int,
            t_q8 as int,
        );
        lemma_shares_fit(
            settings.start_color@[1] as int,
            settings.end_color@[1] as int,
            t_q8 as int,
        );
        lemma_shares_fit(
            settings.start_color@[2] as int,
            settings.end_color@[2] as int,
            t_q8 as int,
        );
    }
    let size: u16 = preview_particle_lerp_u16(settings.start_size, settings.end_size, t_q8);
    let half: i32 = clamp_i32(
        (size as i32 * PROJ_H) / (center.sz as i32),
        limits.min_half as i32,
        limits.max_half as i32,
    );
    let tint = preview_particle_lerp_rgb(settings.start_color, settings.end_color, t_q8);
    if quads.len() >= limits.draw_cap as usize {
        return;
    }
    let left: i16 = clamp_i16(saturating_sub_i32(center.sx as i32, half));
    let right: i16 = clamp_i16(saturating_add_i32(center.sx as i32, half));
    let top: i16 = clamp_i16(saturating_sub_i32(center.sy as i32, half));
    let bottom: i16 = clamp_i16(saturating_add_i32(center.sy as i32, half));
    let quad_xy = [(left, top), (right, top), (left, bottom), (right, bottom)];
    assert(quad_xy@[0] == (left, top) && quad_xy@[3] == (right, bottom));
    if left == right || top == bottom {
        return;
    }
    let u0: u8 = limits.texel_u;
    let v0: u8 = limits.texel_v;
    let u1: u8 = u0 + slot.texture_width.saturating_sub(1);
    let v1: u8 = v0 + slot.texture_height.saturating_sub(1);
    let material = preview_texture_material(slot, tint, settings.blend_mode);
    quads.push(
        ParticleQuad {
            xy: quad_xy,
            uvs: [(u0, v0), (u1, v0), (u0, v1), (u1, v1)],
            material,
            slot: room_depth_slot(center.sz as u32),
        },
    );
}

/// Turning bits round to the left and then by the rest of a full turn gives them
/// back.
pub proof fn law_full_turn_changes_nothing(value: u32, by: u32)
    requires
        0 < by < 32,
    ensures
        turned(turned(value, by), (32 - by) as u32) == value,
{
    let rest = (32 - by) as u32;
    let once = (value << by) | (value >> rest);
    assert((once << rest) | (once >> by) == value) by (bit_vector)
        requires
            0 < by < 32,
            rest == 32 - by,
            once == (value << by) | (value >> rest),
    ;
    assert((32 - rest) as u32 == by);
}

/// A particle begins at its origin, moves by its speed in 16ths of a unit per
/// frame, and by half its acceleration times the square of its age.
pub proof fn law_particles_move_by_speed_and_acceleration(
    origin: int,
    velocity: i16,
    random: u16,
    acceleration: i16,
    age: int,
    seed: u32,
)
    requires
        -1_000_000_000 <= origin <= 1_000_000_000,
        0 <= age <= 100,
    ensures
        ({
            let speed = velocity + spread_of(seed, random as i32);
            let still = axis_of_particle(origin, velocity, random, 0, age, seed);
            let place = axis_of_particle(origin, velocity, random, acceleration, age, seed);
            &&& 16 * (still - origin) <= speed * age < 16 * (still - origin) + 16
            &&& 32 * (place - still) <= acceleration * age * age < 32 * (place - still) + 32
            &&& -random <= spread_of(seed, random as i32) <= random
        }),
{
    if random > 0 {
        law_spread_is_symmetric(seed, random as i32, 0);
    }
    let speed = velocity + spread_of(seed, random as i32);
    assert(-98304 <= speed <= 98302);
    assert(-9_830_400 <= speed * age <= 9_830_400) by (nonlinear_arith)
        requires
            -98304 <= speed <= 98304,
            0 <= age <= 100,
    ;
    let pull = acceleration * age;
    assert(-3_276_800 <= pull <= 3_276_800) by (nonlinear_arith)
        requires
            pull == acceleration * age,
            -32768 <= acceleration <= 32767,
            0 <= age <= 100,
    ;
    assert(-327_680_000 <= pull * age <= 327_680_000) by (nonlinear_arith)
        requires
            -3_276_800 <= pull <= 3_276_800,
            0 <= age <= 100,
    ;
    assert(0 * age == 0);
}

/// Each axis moves by its own settings, around the emitter's own coordinate: on
/// the level within the spawn radius, in height within half of it.
pub proof fn law_axes_of_a_particle_are_its_own(
    settings: ParticleEmitterSettings,
    origin: WorldVertex,
    seed: u32,
)
    requires
        -1_000_000 <= origin.x <= 1_000_000,
        -1_000_000 <= origin.y <= 1_000_000,
        -1_000_000 <= origin.z <= 1_000_000,
    ensures
        ({
            let radius = settings.spawn_radius as int;
            let start = particle_at(settings, origin, seed, 0);
            &&& origin.x - radius <= start.0 <= origin.x + radius
            &&& origin.y - radius / 2 <= start.1 <= origin.y + radius / 2
            &&& origin.z - radius <= start.2 <= origin.z + radius
        }),
        settings.spawn_radius == 0 ==> forall|age: int|
            ({
                let place = #[trigger] particle_at(settings, origin, seed, age);
                &&& place.0 == axis_of_particle(
                    origin.x as int,
                    settings.base_velocity_q4@[0],
                    settings.random_velocity_q4@[0],
                    settings.acceleration_q4@[0],
                    age,
                    turned(seed, 3),
                )
                &&& place.1 == axis_of_particle(
                    origin.y as int,
                    settings.base_velocity_q4@[1],
                    settings.random_velocity_q4@[1],
                    settings.acceleration_q4@[1],
                    age,
                    turned(seed, 11),
                )
                &&& place.2 == axis_of_particle(
                    origin.z as int,
                    settings.base_velocity_q4@[2],
                    settings.random_velocity_q4@[2],
                    settings.acceleration_q4@[2],
                    age,
                    turned(seed, 21),
                )
            }),
{
    let radius = settings.spawn_radius as i32;
    let half = (settings.spawn_radius / 2) as i32;
    if radius > 0 {
        law_spread_is_symmetric(seed, radius, 0);
        law_spread_is_symmetric(turned(seed, 17), radius, 0);
    }
    if half > 0 {
        law_spread_is_symmetric(turned(seed, 9), half, 0);
    }
    let x = origin.x + spread_of(seed, radius);
    let y = origin.y + spread_of(turned(seed, 9), half);
    let z = origin.z + spread_of(turned(seed, 17), radius);
    law_particles_move_by_speed_and_acceleration(
        x,
        settings.base_velocity_q4@[0],
        settings.random_velocity_q4@[0],
        settings.acceleration_q4@[0],
        0,
        turned(seed, 3),
    );
    law_particles_move_by_speed_and_acceleration(
        y,
        settings.base_velocity_q4@[1],
        settings.random_velocity_q4@[1],
        settings.acceleration_q4@[1],
        0,
        turned(seed, 11),
    );
    law_particles_move_by_speed_and_acceleration(
        z,
        settings.base_velocity_q4@[2],
        settings.random_velocity_q4@[2],
        settings.acceleration_q4@[2],
        0,
        turned(seed, 21),
    );
}

/// As many particles are drawn as are alive at a time, at least one, but no more
/// than the emitter has and the viewport draws. A particle lives for its
/// lifetime at 60 frames a second.
pub proof fn law_particles_drawn_are_those_alive(settings: ParticleEmitterSettings, draw_cap: u32)
    ensures
        ({
            let alive = steady_count(settings);
            let count = drawn_count(settings, draw_cap);
            &&& (alive - 1) * RATE_UNIT < settings.spawn_rate_q8 * settings.lifetime_frames
            &&& settings.spawn_rate_q8 * settings.lifetime_frames <= alive * RATE_UNIT
            &&& RATE_UNIT == 256 * 60
            &&& count <= settings.max_particles && count <= draw_cap
            &&& count <= alive || count == 1
            &&& count == settings.max_particles || count == draw_cap || count == alive || (count
                == 1 && alive == 0)
        }),
{
    let rate = settings.spawn_rate_q8 as int;
    let life = settings.lifetime_frames as int;
    assert(0 <= rate * life <= 65535 * 65535) by (nonlinear_arith)
        requires
            0 <= rate <= 65535,
            0 <= life <= 65535,
    ;
    let alive = steady_count(settings);
    assert(alive == (rate * life + 15359) / 15360);
    assert((alive - 1) * 15360 < rate * life <= alive * 15360);
}

/// Particles are spread evenly over a lifetime: each gets one frame older with
/// every tick and begins anew at its end, and at the start each is its part of a
/// lifetime old.
pub proof fn law_ages_are_spread_over_a_lifetime(tick: u32, index: int, lifetime: int, count: int)
    requires
        0 <= index < count <= 65535,
        0 < lifetime <= 65535,
        tick < u32::MAX,
    ensures
        ({
            let age = particle_age(tick, index, lifetime, count);
            let next = particle_age((tick + 1) as u32, index, lifetime, count);
            let first = particle_age(0, index, lifetime, count);
            &&& 0 <= age < lifetime
            &&& next == if age + 1 == lifetime { 0 } else { age + 1 }
            &&& first * count <= index * lifetime < (first + 1) * count
        }),
{
    lemma_age(index, lifetime, count);
    let offset = (index * lifetime) / count;
    let n = index * lifetime;
    assert(offset * count <= n && n < (offset + 1) * count) by (nonlinear_arith)
        requires
            offset == n / count,
            n >= 0,
            count > 0,
    ;
    vstd::arithmetic::div_mod::lemma_small_mod(offset as nat, lifetime as nat);
    let whole = tick + offset;
    let q = whole / lifetime;
    let r = whole % lifetime;
    assert(whole == q * lifetime + r && 0 <= r < lifetime) by (nonlinear_arith)
        requires
            q == whole / lifetime,
            r == whole % lifetime,
            lifetime > 0,
    ;
    if r + 1 == lifetime {
        assert((q + 1) * lifetime == q * lifetime + lifetime) by (nonlinear_arith);
        vstd::arithmetic::div_mod::lemma_fundamental_div_mod_converse(
            whole + 1,
            lifetime,
            q + 1,
            0,
        );
    } else {
        vstd::arithmetic::div_mod::lemma_fundamental_div_mod_converse(
            whole + 1,
            lifetime,
            q,
            r + 1,
        );
    }
}

/// A particle's life goes from nothing to all of it, and never back.
pub proof fn law_life_goes_from_start_to_end(age: i32, later: i32, lifetime: i32)
    requires
        lifetime > 1,
        age <= later,
    ensures
        life_part(0, lifetime) == 0,
        life_part((lifetime - 1) as i32, lifetime) == 255,
        0 <= life_part(age, lifetime) <= life_part(later, lifetime) <= 255,
{
    let d = lifetime - 1;
    assert((d * 255) / d == 255) by (nonlinear_arith)
        requires
            d > 0,
    ;
    assert(0int / d == 0) by (nonlinear_arith)
        requires
            d > 0,
    ;
    if age >= 0 {
        vstd::arithmetic::div_mod::lemma_div_is_ordered(age * 255, later * 255, d);
        vstd::arithmetic::div_mod::lemma_div_is_ordered(0, age * 255, d);
    } else {
        vstd::arithmetic::div_mod::lemma_div_is_ordered(0, -age * 255, d);
        if later >= 0 {
            vstd::arithmetic::div_mod::lemma_div_is_ordered(0, later * 255, d);
        } else {
            vstd::arithmetic::div_mod::lemma_div_is_ordered(0, -later * 255, d);
        }
    }
}

/// What a particle shows lies its part of the way between two values.
pub proof fn law_between_goes_its_part_of_the_way(a: int, b: int, t: int, limit: int)
    requires
        0 <= a <= limit,
        0 <= b <= limit,
        0 <= t <= 255,
    ensures
        0 <= (b - a) * t - (between(a, b, t, limit) - a) * 255 < 255,
        a <= between(a, b, t, limit) <= b || b <= between(a, b, t, limit) <= a,
{
    let sum = a * (255 - t) + b * t;
    assert(sum == a * 255 + (b - a) * t) by (nonlinear_arith)
        requires
            sum == a * (255 - t) + b * t,
    ;
    if a <= b {
        assert(0 <= (b - a) * t <= (b - a) * 255) by (nonlinear_arith)
            requires
                a <= b,
                0 <= t <= 255,
        ;
    } else {
        assert((b - a) * 255 <= (b - a) * t <= 0) by (nonlinear_arith)
            requires
                b < a,
                0 <= t <= 255,
        ;
    }
}

/// A particle gets smaller with its distance: half its size on the screen times
/// its depth is its size times the projection's, as far as the limits allow.
pub proof fn law_particles_shrink_with_distance(size: int, depth: u16, limits: ParticleLimits)
    requires
        0 <= size <= 65535,
        depth > 0,
        limits.min_half <= limits.max_half,
    ensures
        ({
            let half = half_size(size, depth, limits);
            &&& limits.min_half <= half <= limits.max_half
            &&& half < limits.max_half ==> size * PROJ_H < (half + 1) * depth
            &&& half > limits.min_half ==> half * depth <= size * PROJ_H
        }),
{
    let n = size * 320;
    let d = depth as int;
    let q = n / d;
    assert(q * d <= n && n < (q + 1) * d) by (nonlinear_arith)
        requires
            q == n / d,
            n >= 0,
            d > 0,
    ;
    let half = half_size(size, depth, limits);
    if half < limits.max_half && q < half {
        assert((q + 1) * d <= (half + 1) * d) by (nonlinear_arith)
            requires
                q < half,
                d > 0,
        ;
    }
    if half > limits.min_half && q > half {
        assert(half * d <= q * d) by (nonlinear_arith)
            requires
                half < q,
                d > 0,
        ;
    }
}

/// The quad of a particle is a square around its place on the screen, with the
/// whole picture of its texture on it, in the slot of its depth.
pub proof fn law_particle_quads_surround_their_place(
    settings: ParticleEmitterSettings,
    age: i32,
    lifetime: i32,
    center: Projected,
    slot: MaterialSlot,
    limits: ParticleLimits,
)
    requires
        center.sz > 0,
        0 <= limits.min_half <= limits.max_half <= 1024,
        -16384 <= center.sx <= 16384,
        -16384 <= center.sy <= 16384,
        limits.texel_u + last_texel(slot.texture_width) <= 255,
        limits.texel_v + last_texel(slot.texture_height) <= 255,
    ensures
        ({
            let quad = particle_quad(settings, age, lifetime, center, slot, limits);
            let half = quad.xy@[3].0 - center.sx;
            &&& limits.min_half <= half <= limits.max_half
            &&& quad.xy@[0] == ((center.sx - half) as i16, (center.sy - half) as i16)
            &&& quad.xy@[1] == ((center.sx + half) as i16, (center.sy - half) as i16)
            &&& quad.xy@[2] == ((center.sx - half) as i16, (center.sy + half) as i16)
            &&& quad.xy@[3] == ((center.sx + half) as i16, (center.sy + half) as i16)
            &&& quad.uvs@[0] == (limits.texel_u, limits.texel_v)
            &&& quad.uvs@[1] == (quad.uvs@[3].0, limits.texel_v)
            &&& quad.uvs@[2] == (limits.texel_u, quad.uvs@[3].1)
            &&& slot.texture_width > 0 ==> quad.uvs@[3].0 == limits.texel_u + slot.texture_width - 1
            &&& slot.texture_height > 0 ==> quad.uvs@[3].1 == limits.texel_v + slot.texture_height
                - 1
            &&& quad.material.clut_word == slot.clut_word
            &&& quad.material.blend_mode == settings.blend_mode
        }),
{
    let t = life_part(age, lifetime);
    let size = between(settings.start_size as int, settings.end_size as int, t, 65535);
    law_particles_shrink_with_distance(size, center.sz, limits);
}

/// A number that is kept to 32 bits is the same a whole turn further, and itself
/// where it fits.
pub proof fn law_numbers_wrap_round(value: int)
    ensures
        wrap32(value + 0x1_0000_0000) == wrap32(value),
        0 <= value < 0x1_0000_0000 ==> wrap32(value) == value,
{
}

} // verus!
