//! Main memory seen by the debug server.

use crate::debug::hex::{hex_digits, push_hex_digits};
use crate::text::{decimal, push_decimal};
use vstd::prelude::*;

verus! {

/// Bytes that one read gives at most.
pub const MAX_READ: usize = 65536;

/// Frames that one step advances at most.
pub const MAX_STEP: u32 = 6000;

/// Where an address lies in memory; memory is mirrored all over the address
/// space.
pub open spec fn ram_start(addr: u32, size: usize) -> usize {
    (addr as usize) & ((size - 1) as usize)
}

/// Where a read ends: at the end of memory at the latest.
pub open spec fn read_end(addr: u32, len: u32, size: usize) -> int {
    let wanted = if len <= 65536 {
        len as int
    } else {
        65536
    };
    if ram_start(addr, size) + wanted <= size {
        ram_start(addr, size) + wanted
    } else {
        size as int
    }
}

proof fn lemma_start(addr: usize, size: usize)
    requires
        size > 0,
    ensures
        addr & ((size - 1) as usize) < size,
{
    let mask = (size - 1) as usize;
    assert(addr & mask <= mask) by (bit_vector);
}

/// Reads bytes of memory, if a game is loaded.
pub fn read_ram(ram: Option<&Vec<u8>>, addr: u32, len: u32) -> (bytes: Result<
    Vec<u8>,
    &'static str,
>)
    requires
        ram matches Some(ram) ==> ram@.len() > 0,
    ensures
        match (ram, bytes) {
            (Some(ram), Ok(bytes)) => bytes@ == ram@.subrange(
                ram_start(addr, ram.len()) as int,
                read_end(addr, len, ram.len()),
            ),
            (None, Err(text)) => text@ == "no game loaded"@,
            _ => false,
        },
{
    let ram = match ram {
        Some(ram) => ram,
        None => {
            return Err("no game loaded");
        },
    };
    let size: usize = ram.len();
    let start: usize = (addr as usize) & (size - 1);
    proof {
        lemma_start(addr as usize, size);
    }
    let mut wanted: usize = len as usize;
    if wanted > MAX_READ {
        wanted = MAX_READ;
    }
    let end: usize = if wanted <= size - start {
        start + wanted
    } else {
        size
    };
    let mut bytes: Vec<u8> = Vec::new();
    let mut i: usize = start;
    while i < end
        invariant
            start <= i <= end,
            end <= ram@.len(),
            bytes@ == ram@.subrange(start as int, i as int),
        decreases end - i,
    {
        bytes.push(ram[i]);
        assert(ram@.subrange(start as int, i + 1) =~= ram@.subrange(start as int, i as int).push(
            ram@[i as int],
        ));
        i = i + 1;
    }
    Ok(bytes)
}

/// Every mirror of two megabytes shows the same memory.
pub proof fn law_mirrors_show_the_same_memory(addr: u32, k: u32)
    requires
        addr + k * 0x20_0000 <= u32::MAX,
    ensures
        ram_start((addr + k * 0x20_0000) as u32, 0x20_0000) == ram_start(addr, 0x20_0000),
        ram_start(addr, 0x20_0000) == addr % 0x20_0000,
{
    let a = addr as usize;
    let b = (addr + k * 0x20_0000) as usize;
    assert(a & 0x1F_FFFF == a % 0x20_0000) by (bit_vector);
    assert(b & 0x1F_FFFF == b % 0x20_0000) by (bit_vector);
    assert(b % 0x20_0000 == a % 0x20_0000) by {
        vstd::arithmetic::div_mod::lemma_mod_multiples_vanish(
            k as int,
            addr as int,
            0x20_0000,
        );
        assert(0x20_0000 * k + addr == addr + k * 0x20_0000);
    }
}

/// Four bytes as a number, lowest first.
pub open spec fn word_value(bytes: Seq<u8>) -> int {
    bytes[0] + 0x100 * bytes[1] + 0x1_0000 * bytes[2] + 0x100_0000 * bytes[3]
}

/// Reads a number of four bytes, if a game is loaded and memory does not end
/// within it.
pub fn read_word(ram: Option<&Vec<u8>>, addr: u32) -> (word: Result<u32, &'static str>)
    requires
        ram matches Some(ram) ==> ram@.len() > 0,
    ensures
        match ram {
            None => word matches Err(text) && text@ == "no game loaded"@,
            Some(ram) => {
                let start = ram_start(addr, ram.len()) as int;
                if start + 4 <= ram@.len() {
                    word matches Ok(word) && word == word_value(ram@.subrange(start, start + 4))
                } else {
                    word matches Err(text) && text@ == "address too close to the end of RAM"@
                }
            },
        },
{
    let bytes = match read_ram(ram, addr, 4) {
        Ok(bytes) => bytes,
        Err(text) => {
            return Err(text);
        },
    };
    proof {
        if let Some(ram) = ram {
            lemma_start(addr as usize, ram.len());
        }
    }
    if bytes.len() != 4 {
        return Err("address too close to the end of RAM");
    }
    Ok(
        bytes[0] as u32 + 0x100 * (bytes[1] as u32) + 0x1_0000 * (bytes[2] as u32) + 0x100_0000 * (
        bytes[3] as u32),
    )
}

/// A byte that goes to an address.
#[derive(Debug, Clone, Copy, PartialEq, Eq, Structural)]
pub struct ByteWrite {
    pub addr: u32,
    pub byte: u8,
}

/// The address so many bytes on; addresses wrap.
pub open spec fn addr_after(addr: u32, count: int) -> u32 {
    ((addr + count) % 0x1_0000_0000) as u32
}

/// The writes of bytes one after the other, if a game is loaded.
pub fn write_ram(loaded: bool, addr: u32, bytes: &Vec<u8>) -> (writes: Result<
    Vec<ByteWrite>,
    &'static str,
>)
    ensures
        match writes {
            Ok(writes) => loaded && writes@.len() == bytes@.len() && forall|i: int|
                0 <= i < writes@.len() ==> (#[trigger] writes@[i]) == (ByteWrite {
                    addr: addr_after(addr, i),
                    byte: bytes@[i],
                }),
            Err(text) => !loaded && text@ == "no game loaded"@,
        },
{
    if !loaded {
        return Err("no game loaded");
    }
    let mut writes: Vec<ByteWrite> = Vec::new();
    let mut at: u32 = addr;
    let mut i: usize = 0;
    while i < bytes.len()
        invariant
            i <= bytes@.len(),
            writes@.len() == i,
            at == addr_after(addr, i as int),
            forall|j: int|
                0 <= j < i ==> (#[trigger] writes@[j]) == (ByteWrite {
                    addr: addr_after(addr, j),
                    byte: bytes@[j],
                }),
        decreases bytes@.len() - i,
    {
        writes.push(ByteWrite { addr: at, byte: bytes[i] });
        at = at.wrapping_add(1);
        i = i + 1;
    }
    Ok(writes)
}

/// What is said of bytes that were written.
pub fn write_reply(count: usize, addr: u32) -> (text: String)
    ensures
        text@ == "wrote "@ + decimal(count as nat) + " bytes at 0x"@ + hex_digits(addr as nat, 8),
{
    let mut text = String::from_str("wrote ");
    push_decimal(&mut text, count as u64);
    text.append(" bytes at 0x");
    push_hex_digits(&mut text, addr as u64, 8);
    text
}

/// A number as it is sent.
pub fn word_reply(word: u32) -> (text: String)
    ensures
        text@ == "0x"@ + hex_digits(word as nat, 8),
{
    let mut text = String::from_str("0x");
    push_hex_digits(&mut text, word as u64, 8);
    text
}

/// What one frame reports.
#[derive(Debug, Clone, Copy, PartialEq, Eq, Structural)]
pub struct FrameReport {
    pub instructions: u64,
    pub vblanks: u64,
}

/// How many frames a step advances: one at least.
pub open spec fn step_frames(frames: u32) -> int {
    if frames == 0 {
        1
    } else if frames > 6000 {
        6000
    } else {
        frames as int
    }
}

/// How many frames a step advances, if a game is loaded.
pub fn step_count(loaded: bool, frames: u32) -> (count: Result<u32, &'static str>)
    ensures
        match count {
            Ok(count) => loaded && count == step_frames(frames),
            Err(text) => !loaded && text@ == "no game loaded"@,
        },
{
    if !loaded {
        return Err("no game loaded");
    }
    if frames < 1 {
        Ok(1)
    } else if frames > MAX_STEP {
        Ok(MAX_STEP)
    } else {
        Ok(frames)
    }
}

/// Instructions of some frames.
pub open spec fn instruction_sum(reports: Seq<FrameReport>) -> nat
    decreases reports.len(),
{
    if reports.len() == 0 {
        0
    } else {
        instruction_sum(reports.drop_last()) + reports.last().instructions as nat
    }
}

/// Video frames of some frames.
pub open spec fn vblank_sum(reports: Seq<FrameReport>) -> nat
    decreases reports.len(),
{
    if reports.len() == 0 {
        0
    } else {
        vblank_sum(reports.drop_last()) + reports.last().vblanks as nat
    }
}

proof fn lemma_sums_grow(reports: Seq<FrameReport>, count: int)
    requires
        0 <= count <= reports.len(),
    ensures
        instruction_sum(reports.take(count)) <= instruction_sum(reports),
        vblank_sum(reports.take(count)) <= vblank_sum(reports),
    decreases reports.len() - count,
{
    if count < reports.len() {
        lemma_sums_grow(reports, count + 1);
        assert(reports.take(count + 1).drop_last() =~= reports.take(count));
    } else {
        assert(reports.take(count) =~= reports);
    }
}

/// What is said of a step.
pub fn step_reply(reports: &Vec<FrameReport>) -> (text: String)
    requires
        instruction_sum(reports@) <= u64::MAX,
        vblank_sum(reports@) <= u64::MAX,
    ensures
        text@ == "stepped "@ + decimal(reports@.len()) + " frame(s): "@ + decimal(
            instruction_sum(reports@),
        ) + " instructions, "@ + decimal(vblank_sum(reports@)) + " vblanks"@,
{
    let mut instructions: u64 = 0;
    let mut vblanks: u64 = 0;
    let mut i: usize = 0;
    assert(reports@.take(0) =~= Seq::<FrameReport>::empty());
    while i < reports.len()
        invariant
            i <= reports@.len(),
            instruction_sum(reports@) <= u64::MAX,
            vblank_sum(reports@) <= u64::MAX,
            instructions == instruction_sum(reports@.take(i as int)),
            vblanks == vblank_sum(reports@.take(i as int)),
        decreases reports@.len() - i,
    {
        proof {
            lemma_sums_grow(reports@, i + 1);
            assert(reports@.take(i + 1).drop_last() =~= reports@.take(i as int));
        }
        instructions = instructions + reports[i].instructions;
        vblanks = vblanks + reports[i].vblanks;
        i = i + 1;
    }
    assert(reports@.take(i as int) =~= reports@);
    let mut text = String::from_str("stepped ");
    push_decimal(&mut text, reports.len() as u64);
    text.append(" frame(s): ");
    push_decimal(&mut text, instructions);
    text.append(" instructions, ");
    push_decimal(&mut text, vblanks);
    text.append(" vblanks");
    text
}

/// Words are stored with their lowest byte first: every byte can be read back.
pub proof fn law_words_begin_with_their_lowest_byte(bytes: Seq<u8>)
    requires
        bytes.len() == 4,
    ensures
        0 <= word_value(bytes) <= u32::MAX,
        word_value(bytes) % 0x100 == bytes[0],
        word_value(bytes) / 0x100 % 0x100 == bytes[1],
        word_value(bytes) / 0x1_0000 % 0x100 == bytes[2],
        word_value(bytes) / 0x100_0000 == bytes[3],
{
}

/// Writing goes on from one address to the next, and reaches the byte that far
/// into the memory, from its end on to its start.
pub proof fn law_writes_follow_each_other(addr: u32, a: int, b: int)
    requires
        0 <= a,
        0 <= b,
    ensures
        addr_after(addr, 0) == addr,
        addr_after(addr_after(addr, a), b) == addr_after(addr, a + b),
        ram_start(addr_after(addr, a), 0x20_0000) == (ram_start(addr, 0x20_0000) + a) % 0x20_0000,
{
    law_mirrors_show_the_same_memory(addr, 0);
    law_mirrors_show_the_same_memory(addr_after(addr, a), 0);
    let whole = 0x1_0000_0000;
    assert((addr + a) % whole % 0x20_0000 == (addr + a) % 0x20_0000) by {
        vstd::arithmetic::div_mod::lemma_mod_mod(addr + a, 0x20_0000, 0x800);
    }
    assert((addr % 0x20_0000 + a) % 0x20_0000 == (addr + a) % 0x20_0000);
}

/// A read gives as many bytes as were asked for, up to the limit, from the place
/// of the address on; it stops at the end of the memory.
pub proof fn law_reads_stay_in_memory(addr: u32, len: u32, size: usize)
    requires
        size > 0,
    ensures
        ({
            let start = ram_start(addr, size);
            let end = read_end(addr, len, size);
            &&& start < size
            &&& start <= end <= size
            &&& end - start <= len && end - start <= 65536
            &&& len <= 65536 && start + len <= size ==> end == start + len
            &&& end < size && end - start < len ==> end == start + 65536
        }),
{
    lemma_start(addr as usize, size);
}

/// A step runs at least one frame and at most the limit, and as many as were
/// asked for in between.
pub proof fn law_steps_are_bounded(frames: u32)
    ensures
        1 <= step_frames(frames) <= MAX_STEP,
        1 <= frames <= MAX_STEP ==> step_frames(frames) == frames,
        frames > MAX_STEP ==> step_frames(frames) == MAX_STEP,
{
}

/// The sums of a step add up over its frames.
pub proof fn law_reports_add_up(a: Seq<FrameReport>, b: Seq<FrameReport>, report: FrameReport)
    ensures
        instruction_sum(a + b) == instruction_sum(a) + instruction_sum(b),
        vblank_sum(a + b) == vblank_sum(a) + vblank_sum(b),
        instruction_sum(seq![report]) == report.instructions,
        vblank_sum(seq![report]) == report.vblanks,
    decreases b.len(),
{
    assert(seq![report].drop_last() =~= Seq::<FrameReport>::empty());
    reveal_with_fuel(instruction_sum, 2);
    reveal_with_fuel(vblank_sum, 2);
    if b.len() == 0 {
        assert(a + b =~= a);
    } else {
        law_reports_add_up(a, b.drop_last(), report);
        assert((a + b).drop_last() =~= a + b.drop_last());
    }
}

} // verus!
