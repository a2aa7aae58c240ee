//! Video memory: a grid of 16-bit words.

use vstd::prelude::*;

verus! {

/// Words in a row.
pub const VRAM_WIDTH: usize = 1024;

/// Rows.
pub const VRAM_HEIGHT: usize = 512;

/// The whole video memory, row by row.
#[derive(Debug)]
pub struct Vram {
    words: Vec<u16>,
}

/// Word `(x, y)` lies in a rectangle.
pub open spec fn in_rect(x: int, y: int, left: int, top: int, width: int, height: int) -> bool {
    left <= x < left + width && top <= y < top + height
}

/// The rectangle lies in the memory.
pub open spec fn rect_fits(left: int, top: int, width: int, height: int) -> bool {
    0 <= left && 0 <= top && 0 <= width && 0 <= height && left + width <= VRAM_WIDTH && top + height
        <= VRAM_HEIGHT
}

/// A position in the memory.
pub open spec fn in_vram(x: int, y: int) -> bool {
    0 <= x < VRAM_WIDTH && 0 <= y < VRAM_HEIGHT
}

impl Vram {
    /// All words are there.
    pub closed spec fn wf(self) -> bool {
        self.words@.len() == VRAM_WIDTH * VRAM_HEIGHT
    }

    /// The word at `(x, y)`.
    pub closed spec fn at(self, x: int, y: int) -> u16 {
        self.words@[y * 1024 + x]
    }

    /// The words, row by row.
    pub closed spec fn view(self) -> Seq<u16> {
        self.words@
    }

    /// `self` is `before` except in a rectangle.
    pub open spec fn same_outside(
        self,
        before: Vram,
        left: int,
        top: int,
        width: int,
        height: int,
    ) -> bool {
        forall|x: int, y: int|
            in_vram(x, y) && !in_rect(x, y, left, top, width, height) ==> #[trigger] self.at(x, y)
                == before.at(x, y)
    }

    /// `self` is `before` with a rectangle exchanged for `source`, row by row.
    pub open spec fn has_rect(
        self,
        before: Vram,
        left: int,
        top: int,
        width: int,
        height: int,
        source: Seq<u16>,
    ) -> bool {
        &&& self.same_outside(before, left, top, width, height)
        &&& forall|x: int, y: int|
            in_rect(x, y, left, top, width, height) ==> #[trigger] self.at(x, y) == source[(y - top)
                * width + (x - left)]
    }

    /// The words stand row by row.
    pub proof fn lemma_words(self)
        requires
            self.wf(),
        ensures
            self@.len() == 524288,
            forall|x: int, y: int|
                in_vram(x, y) ==> #[trigger] self.at(x, y) == self@[y * 1024 + x],
    {
    }

    /// Cleared memory.
    pub fn new() -> (result: Vram)
        ensures
            result.wf(),
            forall|x: int, y: int| in_vram(x, y) ==> #[trigger] result.at(x, y) == 0,
    {
        let words: Vec<u16> = vec![0u16; 524288];
        Vram { words }
    }

    /// The words, row by row.
    pub fn words(&self) -> (result: &Vec<u16>)
        ensures
            result@ == self@,
    {
        &self.words
    }

    /// The word at `(x, y)`.
    pub fn word(&self, x: usize, y: usize) -> (result: u16)
        requires
            self.wf(),
            in_vram(x as int, y as int),
        ensures
            result == self.at(x as int, y as int),
    {
        self.words[y * 1024 + x]
    }

    /// Exchange a rectangle for `source`, row by row.
    pub fn write_rect(
        &mut self,
        left: usize,
        top: usize,
        width: usize,
        height: usize,
        source: &Vec<u16>,
    )
        requires
            old(self).wf(),
            rect_fits(left as int, top as int, width as int, height as int),
            source@.len() == width * height,
        ensures
            final(self).wf(),
            final(self).has_rect(
                *old(self),
                left as int,
                top as int,
                width as int,
                height as int,
                source@,
            ),
    {
        for row in 0..height
            invariant
                self.wf(),
                rect_fits(left as int, top as int, width as int, height as int),
                source@.len() == width * height,
                self.has_rect(
                    *old(self),
                    left as int,
                    top as int,
                    width as int,
                    row as int,
                    source@,
                ),
        {
            let ghost before = *self;
            for column in 0..width
                invariant
                    self.wf(),
                    before.wf(),
                    0 <= row < height,
                    rect_fits(left as int, top as int, width as int, height as int),
                    source@.len() == width * height,
                    self.same_outside(before, left as int, top + row, column as int, 1),
                    forall|x: int|
                        left <= x < left + column ==> #[trigger] self.at(x, top + row)
                            == source@[row * width + (x - left)],
            {
                proof {
                    assert(row * width + column < height * width && row * width <= 524288)
                        by (nonlinear_arith)
                        requires
                            0 <= row < height <= 512,
                            0 <= column < width <= 1024,
                    ;
                    assert(height * width == width * height) by (nonlinear_arith);
                }
                let ghost previous = *self;
                let index: usize = (top + row) * 1024 + left + column;
                let word: u16 = source[row * width + column];
                self.words.set(index, word);
                assert forall|x: int, y: int| in_vram(x, y) implies #[trigger] self.at(x, y) == if x
                    == left + column && y == top + row {
                    word
                } else {
                    previous.at(x, y)
                } by {
                    assert(self.words@[y * 1024 + x] == if y * 1024 + x == index {
                        word
                    } else {
                        previous.words@[y * 1024 + x]
                    });
                }
            }
            assert forall|x: int, y: int|
                in_rect(
                    x,
                    y,
                    left as int,
                    top as int,
                    width as int,
                    row + 1,
                ) implies #[trigger] self.at(x, y) == source@[(y - top) * width + (x - left)] by {
                if y < top + row {
                    assert(self.at(x, y) == before.at(x, y));
                }
            }
        }
    }
}

/// The little-endian word at an index of some bytes.
pub open spec fn le_word(bytes: Seq<u8>, index: int) -> u16 {
    (bytes[2 * index] + 256 * bytes[2 * index + 1]) as u16
}

/// The first `count` little-endian words of some bytes.
pub open spec fn le_words(bytes: Seq<u8>, count: nat) -> Seq<u16> {
    Seq::new(count, |i: int| le_word(bytes, i))
}

/// The first `count` little-endian words of some bytes.
pub fn words_from_bytes(bytes: &Vec<u8>, count: usize) -> (result: Vec<u16>)
    requires
        2 * count <= bytes@.len(),
    ensures
        result@ == le_words(bytes@, count as nat),
{
    let length: usize = bytes.len();
    let mut out: Vec<u16> = Vec::new();
    for i in 0..count
        invariant
            length == bytes@.len(),
            2 * count <= length,
            out@ == le_words(bytes@, i as nat),
    {
        let low: u16 = bytes[2 * i] as u16;
        let high: u16 = bytes[2 * i + 1] as u16;
        out.push(low + 256 * high);
    }
    out
}

/// Four 4-bit texels in one word, the leftmost lowest.
pub open spec fn packed_texels(texels: Seq<u8>, index: int) -> u16 {
    (texels[4 * index] % 16 + 16 * (texels[4 * index + 1] % 16) + 256 * (texels[4 * index + 2] % 16)
        + 4096 * (texels[4 * index + 3] % 16)) as u16
}

/// The first `count` words of packed texels.
pub open spec fn texel_words(texels: Seq<u8>, count: nat) -> Seq<u16> {
    Seq::new(count, |i: int| packed_texels(texels, i))
}

/// Pack texels four to a word.
pub fn pack_texels(texels: &Vec<u8>, count: usize) -> (result: Vec<u16>)
    requires
        4 * count <= texels@.len(),
    ensures
        result@ == texel_words(texels@, count as nat),
{
    let length: usize = texels.len();
    let mut out: Vec<u16> = Vec::new();
    for i in 0..count
        invariant
            length == texels@.len(),
            4 * count <= length,
            out@ == texel_words(texels@, i as nat),
    {
        let p0: u16 = (texels[4 * i] % 16) as u16;
        let p1: u16 = (texels[4 * i + 1] % 16) as u16;
        let p2: u16 = (texels[4 * i + 2] % 16) as u16;
        let p3: u16 = (texels[4 * i + 3] % 16) as u16;
        out.push(p0 + 16 * p1 + 256 * p2 + 4096 * p3);
    }
    out
}

/// Both bytes of a word can be read back, the first one from its lower half.
pub proof fn law_words_hold_their_bytes(bytes: Seq<u8>, index: int)
    requires
        0 <= index,
        2 * index + 1 < bytes.len(),
    ensures
        le_word(bytes, index) % 256 == bytes[2 * index],
        le_word(bytes, index) / 256 == bytes[2 * index + 1],
{
}

/// All four texels of a word can be read back, from the lowest bits on.
pub proof fn law_words_hold_their_texels(texels: Seq<u8>, index: int)
    requires
        0 <= index,
        4 * index + 3 < texels.len(),
        forall|i: int| 0 <= i < texels.len() ==> (#[trigger] texels[i]) < 16,
    ensures
        ({
            let word = packed_texels(texels, index) as int;
            &&& word % 16 == texels[4 * index]
            &&& word / 16 % 16 == texels[4 * index + 1]
            &&& word / 256 % 16 == texels[4 * index + 2]
            &&& word / 4096 == texels[4 * index + 3]
        }),
{
    let a = texels[4 * index] as int;
    let b = texels[4 * index + 1] as int;
    let c = texels[4 * index + 2] as int;
    let d = texels[4 * index + 3] as int;
    let word = packed_texels(texels, index) as int;
    assert(word == a + 16 * (b + 16 * (c + 16 * d)));
    assert(word / 16 == b + 16 * (c + 16 * d));
    assert(word / 256 == c + 16 * d);
}

/// The positions are those of the words: every word has one, and every position
/// names a word.
pub proof fn law_positions_are_those_of_the_words(x: int, y: int, i: int)
    ensures
        in_vram(x, y) ==> 0 <= y * 1024 + x < 1024 * 512,
        in_vram(x, y) ==> (y * 1024 + x) % 1024 == x && (y * 1024 + x) / 1024 == y,
        0 <= i < 1024 * 512 ==> in_vram(i % 1024, i / 1024),
{
}

/// A rectangle that fits holds positions of the memory alone, one that holds
/// nothing else fits, and each is as wide and high as it says.
pub proof fn law_rectangles_that_fit_lie_in_memory(
    x: int,
    y: int,
    left: int,
    top: int,
    width: int,
    height: int,
)
    ensures
        rect_fits(left, top, width, height) && in_rect(x, y, left, top, width, height) ==> in_vram(
            x,
            y,
        ),
        width > 0 && height > 0 ==> (rect_fits(left, top, width, height) <==> in_vram(left, top)
            && in_vram(left + width - 1, top + height - 1)),
        in_rect(x, y, left, top, width, height) <==> 0 <= x - left < width && 0 <= y - top < height,
        width > 0 && height > 0 ==> in_rect(left, top, left, top, width, height) && !in_rect(
            left + width,
            top,
            left,
            top,
            width,
            height,
        ) && !in_rect(left, top + height, left, top, width, height),
{
}

} // verus!
