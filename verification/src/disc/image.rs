//! Bytes of a disc image: audio tracks behind the data, boot sectors in front.

use vstd::prelude::*;

verus! {

/// Bytes of a raw sector.
pub const SECTOR_BYTES: usize = 2352;

/// Bytes of data in a sector.
pub const SECTOR_SIZE: usize = 2048;

/// Where the data starts in a raw sector.
pub const DATA_OFFSET: usize = 24;

/// Silent sectors before an audio track.
pub const CDDA_PREGAP_SECTORS: usize = 150;

/// Audio tracks that a disc can have behind its data track.
pub const MAX_CDDA_TRACKS: usize = 98;

/// Bytes of the boot sectors, data only.
pub const COOKED_SYSTEM_AREA: usize = 32768;

/// Bytes of the boot sectors, raw.
pub const RAW_SYSTEM_AREA: usize = 37632;

/// An audio track and where it lies on the disc.
#[derive(Debug, Clone, Copy, PartialEq, Eq, Structural)]
pub struct CddaCueTrack {
    pub number: u8,
    /// First sector of the silence.
    pub index0_sector: u32,
    /// First sector of the sound.
    pub index1_sector: u32,
}

/// Why the audio tracks do not go on the disc.
#[derive(Debug, Clone, Copy, PartialEq, Eq, Structural)]
pub enum CddaError {
    TooManyTracks,
    /// The track with this number in the list is empty or ends inside a
    /// sector.
    BadLength { index: usize },
}

/// Whole sectors, and at least one.
pub open spec fn whole_sectors(sound: Seq<u8>) -> bool {
    sound.len() > 0 && sound.len() % 2352 == 0
}

/// Silence before a track.
pub open spec fn pregap() -> Seq<u8> {
    Seq::new(150 * 2352, |i: int| 0u8)
}

/// The image with the first tracks behind it.
pub open spec fn with_tracks(image: Seq<u8>, tracks: Seq<Vec<u8>>, count: int) -> Seq<u8>
    decreases count,
{
    if count <= 0 {
        image
    } else {
        with_tracks(image, tracks, count - 1) + pregap() + tracks[count - 1]@
    }
}

/// Where a track lies.
pub open spec fn cue_track(image: Seq<u8>, tracks: Seq<Vec<u8>>, index: int) -> CddaCueTrack {
    let before = with_tracks(image, tracks, index);
    CddaCueTrack {
        number: (index + 2) as u8,
        index0_sector: (before.len() / 2352) as u32,
        index1_sector: ((before.len() + 150 * 2352) / 2352) as u32,
    }
}

/// The tracks can go on the disc up to this one.
pub open spec fn tracks_fit(tracks: Seq<Vec<u8>>, count: int) -> bool {
    count <= 98 && forall|i: int| 0 <= i < count ==> whole_sectors((#[trigger] tracks[i])@)
}

proof fn lemma_tracks_grow(image: Seq<u8>, tracks: Seq<Vec<u8>>, a: int, b: int)
    requires
        0 <= a <= b,
    ensures
        with_tracks(image, tracks, a).len() <= with_tracks(image, tracks, b).len(),
    decreases b - a,
{
    if a < b {
        lemma_tracks_grow(image, tracks, a, b - 1);
    }
}

fn push_silence(image: &mut Vec<u8>)
    requires
        old(image)@.len() + 150 * 2352 <= usize::MAX,
    ensures
        final(image)@ == old(image)@ + pregap(),
{
    let ghost before = image@;
    let total: usize = CDDA_PREGAP_SECTORS * SECTOR_BYTES;
    let mut i: usize = 0;
    while i < total
        invariant
            total == 150 * 2352,
            i <= total,
            image@.len() == before.len() + i,
            forall|j: int| 0 <= j < before.len() ==> #[trigger] image@[j] == before[j],
            forall|j: int| before.len() <= j < image@.len() ==> #[trigger] image@[j] == 0,
        decreases total - i,
    {
        image.push(0);
        i = i + 1;
    }
    assert(image@ =~= before + pregap());
}

fn push_bytes(image: &mut Vec<u8>, bytes: &Vec<u8>)
    requires
        old(image)@.len() + bytes@.len() <= usize::MAX,
    ensures
        final(image)@ == old(image)@ + bytes@,
{
    let ghost before = image@;
    let mut i: usize = 0;
    while i < bytes.len()
        invariant
            i <= bytes@.len(),
            image@ == before + bytes@.take(i as int),
        decreases bytes@.len() - i,
    {
        image.push(bytes[i]);
        assert(before + bytes@.take(i + 1) =~= (before + bytes@.take(i as int)).push(
            bytes@[i as int],
        ));
        i = i + 1;
    }
    assert(bytes@.take(i as int) =~= bytes@);
}

/// Puts audio tracks behind an image, each with silence before it, and says
/// where they lie. The first track that does not fit ends the work.
pub fn append_cdda_tracks_to_image(image: &mut Vec<u8>, tracks: &Vec<Vec<u8>>) -> (result: Result<
    Vec<CddaCueTrack>,
    CddaError,
>)
    requires
        with_tracks(old(image)@, tracks@, tracks@.len() as int).len() <= usize::MAX,
    ensures
        match result {
            Ok(cue) => {
                &&& tracks_fit(tracks@, tracks@.len() as int)
                &&& final(image)@ == with_tracks(old(image)@, tracks@, tracks@.len() as int)
                &&& cue@.len() == tracks@.len()
                &&& forall|i: int|
                    0 <= i < cue@.len() ==> #[trigger] cue@[i] == cue_track(
                        old(image)@,
                        tracks@,
                        i,
                    )
            },
            Err(CddaError::TooManyTracks) => {
                &&& tracks@.len() > 98
                &&& tracks_fit(tracks@, 98)
                &&& final(image)@ == with_tracks(old(image)@, tracks@, 98)
            },
            Err(CddaError::BadLength { index }) => {
                &&& index < tracks@.len()
                &&& index < 98
                &&& tracks_fit(tracks@, index as int)
                &&& !whole_sectors(tracks@[index as int]@)
                &&& final(image)@ == with_tracks(old(image)@, tracks@, index as int)
            },
        },
{
    let ghost start = image@;
    let mut cue: Vec<CddaCueTrack> = Vec::new();
    let mut index: usize = 0;
    while index < tracks.len()
        invariant
            start == old(image)@,
            index <= tracks@.len(),
            with_tracks(start, tracks@, tracks@.len() as int).len() <= usize::MAX,
            tracks_fit(tracks@, index as int),
            image@ == with_tracks(start, tracks@, index as int),
            cue@.len() == index,
            forall|i: int|
                0 <= i < index ==> #[trigger] cue@[i] == cue_track(start, tracks@, i),
        decreases tracks@.len() - index,
    {
        if index >= MAX_CDDA_TRACKS {
            return Err(CddaError::TooManyTracks);
        }
        let sound = &tracks[index];
        if sound.len() == 0 || sound.len() % SECTOR_BYTES != 0 {
            return Err(CddaError::BadLength { index });
        }
        proof {
            lemma_tracks_grow(start, tracks@, index + 1, tracks@.len() as int);
        }
        let index0_sector: u32 = (image.len() / SECTOR_BYTES) as u32;
        push_silence(image);
        let index1_sector: u32 = (image.len() / SECTOR_BYTES) as u32;
        push_bytes(image, sound);
        cue.push(CddaCueTrack { number: (index + 2) as u8, index0_sector, index1_sector });
        index = index + 1;
    }
    Ok(cue)
}

/// Every track starts behind the one before it, after the silence.
pub proof fn law_tracks_follow_each_other(image: Seq<u8>, tracks: Seq<Vec<u8>>, index: int)
    requires
        0 <= index < tracks.len(),
        tracks_fit(tracks, tracks.len() as int),
        image.len() % 2352 == 0,
        with_tracks(image, tracks, tracks.len() as int).len() / 2352 <= u32::MAX,
    ensures
        ({
            let track = cue_track(image, tracks, index);
            &&& track.number == index + 2
            &&& track.index1_sector == track.index0_sector + 150
            &&& track.index0_sector * 2352 == with_tracks(image, tracks, index).len()
            &&& index + 1 < tracks.len() ==> cue_track(image, tracks, index + 1).index0_sector
                == track.index1_sector + tracks[index]@.len() / 2352
        }),
{
    lemma_whole_image(image, tracks, index);
    lemma_whole_image(image, tracks, index + 1);
    lemma_tracks_grow(image, tracks, index, tracks.len() as int);
    lemma_tracks_grow(image, tracks, index + 1, tracks.len() as int);
    assert(whole_sectors(tracks[index]@));
    assert(with_tracks(image, tracks, index + 1).len() == with_tracks(image, tracks, index).len()
        + 150 * 2352 + tracks[index]@.len());
}

proof fn lemma_whole_image(image: Seq<u8>, tracks: Seq<Vec<u8>>, count: int)
    requires
        0 <= count <= tracks.len(),
        tracks_fit(tracks, tracks.len() as int),
        image.len() % 2352 == 0,
    ensures
        with_tracks(image, tracks, count).len() % 2352 == 0,
    decreases count,
{
    if count > 0 {
        lemma_whole_image(image, tracks, count - 1);
        assert(whole_sectors(tracks[count - 1]@));
    }
}

/// A raw sector starts with a fixed mark.
pub open spec fn raw_mark(bytes: Seq<u8>) -> bool {
    &&& bytes.len() >= 2352
    &&& bytes[0] == 0
    &&& bytes[11] == 0
    &&& forall|i: int| 1 <= i < 11 ==> #[trigger] bytes[i] == 0xFF
}

/// Whether bytes start with a raw sector.
pub fn looks_like_raw_sector(sector: &Vec<u8>) -> (result: bool)
    ensures
        result == raw_mark(sector@),
{
    if sector.len() < SECTOR_BYTES {
        return false;
    }
    if sector[0] != 0 || sector[11] != 0 {
        return false;
    }
    let mut i: usize = 1;
    while i < 11
        invariant
            1 <= i <= 11,
            sector@.len() >= 2352,
            forall|j: int| 1 <= j < i ==> #[trigger] sector@[j] == 0xFF,
        decreases 11 - i,
    {
        if sector[i] != 0xFF {
            return false;
        }
        i = i + 1;
    }
    true
}

/// The data of the first sixteen raw sectors.
pub open spec fn cooked_sectors(bytes: Seq<u8>) -> Seq<u8> {
    Seq::new(32768, |i: int| bytes[(i / 2048) * 2352 + 24 + i % 2048])
}

/// The boot sectors of an image that holds raw sectors or their data alone;
/// nothing if it is too short.
pub fn extract_playstation_system_area(bytes: &Vec<u8>) -> (area: Option<Vec<u8>>)
    ensures
        match area {
            Some(area) => if bytes@.len() >= 37632 && raw_mark(bytes@) {
                area@ == cooked_sectors(bytes@)
            } else {
                bytes@.len() >= 32768 && area@ == bytes@.take(32768)
            },
            None => bytes@.len() < 32768,
        },
{
    let mut area: Vec<u8> = Vec::new();
    if bytes.len() >= RAW_SYSTEM_AREA && looks_like_raw_sector(bytes) {
        let mut i: usize = 0;
        while i < COOKED_SYSTEM_AREA
            invariant
                i <= 32768,
                bytes@.len() >= 37632,
                area@ == cooked_sectors(bytes@).take(i as int),
            decreases 32768 - i,
        {
            let sector: usize = i / SECTOR_SIZE;
            let offset: usize = i % SECTOR_SIZE;
            area.push(bytes[sector * SECTOR_BYTES + DATA_OFFSET + offset]);
            assert(cooked_sectors(bytes@).take(i + 1) =~= cooked_sectors(bytes@).take(
                i as int,
            ).push(cooked_sectors(bytes@)[i as int]));
            i = i + 1;
        }
        assert(cooked_sectors(bytes@).take(32768) =~= cooked_sectors(bytes@));
        return Some(area);
    }
    if bytes.len() < COOKED_SYSTEM_AREA {
        return None;
    }
    let mut i: usize = 0;
    while i < COOKED_SYSTEM_AREA
        invariant
            i <= 32768,
            bytes@.len() >= 32768,
            area@ == bytes@.take(i as int),
        decreases 32768 - i,
    {
        area.push(bytes[i]);
        assert(bytes@.take(i + 1) =~= bytes@.take(i as int).push(bytes@[i as int]));
        i = i + 1;
    }
    Some(area)
}

/// What is said of an image that is too short.
pub fn short_system_area_text() -> (text: &'static str)
    ensures
        text@ == "system area needs at least 32768 cooked bytes or 37632 raw bytes"@,
{
    "system area needs at least 32768 cooked bytes or 37632 raw bytes"
}

proof fn lemma_tracks_prefix(image: Seq<u8>, tracks: Seq<Vec<u8>>, a: int, b: int)
    requires
        0 <= a <= b <= tracks.len(),
    ensures
        with_tracks(image, tracks, a).len() <= with_tracks(image, tracks, b).len(),
        with_tracks(image, tracks, b).take(with_tracks(image, tracks, a).len() as int)
            == with_tracks(image, tracks, a),
    decreases b - a,
{
    let start = with_tracks(image, tracks, a);
    if a < b {
        lemma_tracks_prefix(image, tracks, a, b - 1);
        let before = with_tracks(image, tracks, b - 1);
        let all = with_tracks(image, tracks, b);
        assert(all.take(start.len() as int) =~= before.take(start.len() as int));
    } else {
        assert(start.take(start.len() as int) =~= start);
    }
}

/// A track is where the cue sheet says: its sound begins at its second place,
/// two seconds of silence at its first, and the data before the tracks stay as
/// they were.
pub proof fn law_tracks_lie_where_the_sheet_says(
    image: Seq<u8>,
    tracks: Seq<Vec<u8>>,
    index: int,
)
    requires
        0 <= index < tracks.len(),
        tracks_fit(tracks, tracks.len() as int),
        image.len() % 2352 == 0,
        with_tracks(image, tracks, tracks.len() as int).len() / 2352 <= u32::MAX,
    ensures
        ({
            let disc = with_tracks(image, tracks, tracks.len() as int);
            let track = cue_track(image, tracks, index);
            let silence = track.index0_sector * 2352;
            let sound = track.index1_sector * 2352;
            &&& sound - silence == 2 * 75 * 2352
            &&& sound + tracks[index]@.len() <= disc.len()
            &&& disc.subrange(sound, sound + tracks[index]@.len()) == tracks[index]@
            &&& forall|i: int| silence <= i < sound ==> #[trigger] disc[i] == 0
            &&& disc.take(image.len() as int) == image
        }),
{
    law_tracks_follow_each_other(image, tracks, index);
    let n = tracks.len() as int;
    let disc = with_tracks(image, tracks, n);
    lemma_tracks_prefix(image, tracks, index + 1, n);
    lemma_tracks_prefix(image, tracks, 0, n);
    let before = with_tracks(image, tracks, index);
    let upto = with_tracks(image, tracks, index + 1);
    let track = cue_track(image, tracks, index);
    let silence = track.index0_sector * 2352;
    let sound = track.index1_sector * 2352;
    assert(silence == before.len());
    assert(upto == before + pregap() + tracks[index]@);
    let len = tracks[index]@.len() as int;
    assert(disc.subrange(sound, sound + len) =~= tracks[index]@) by {
        assert forall|i: int| 0 <= i < len implies disc[sound + i] == tracks[index]@[i] by {
            assert(disc.take(upto.len() as int)[sound + i] == upto[sound + i]);
        }
    }
    assert forall|i: int| silence <= i < sound implies #[trigger] disc[i] == 0 by {
        assert(disc.take(upto.len() as int)[i] == upto[i]);
        assert(upto[i] == pregap()[i - silence]);
    }
}

/// The data of a raw sector stand behind its header of 24 bytes: the boot sectors
/// hold the data of the first 16 sectors, one after the other.
pub proof fn law_boot_sectors_are_the_data_of_raw_sectors(bytes: Seq<u8>, sector: int)
    requires
        0 <= sector < 16,
        bytes.len() >= 16 * 2352,
    ensures
        cooked_sectors(bytes).len() == 16 * 2048,
        cooked_sectors(bytes).subrange(2048 * sector, 2048 * sector + 2048) == bytes.subrange(
            2352 * sector + 24,
            2352 * sector + 24 + 2048,
        ),
{
    let part = cooked_sectors(bytes).subrange(2048 * sector, 2048 * sector + 2048);
    let data = bytes.subrange(2352 * sector + 24, 2352 * sector + 24 + 2048);
    assert forall|i: int| 0 <= i < 2048 implies part[i] == data[i] by {
        let at = 2048 * sector + i;
        assert(at / 2048 == sector && at % 2048 == i);
        assert(part[i] == cooked_sectors(bytes)[at]);
    }
    assert(part =~= data);
}

/// A raw sector begins with its mark: twelve bytes, all ones but for the first and
/// the last.
pub proof fn law_raw_sectors_are_told_by_their_mark(rest: Seq<u8>, first: u8, last: u8, middle: Seq<u8>)
    requires
        middle.len() == 10,
        rest.len() >= 2352 - 12,
    ensures
        raw_mark(seq![first] + middle + seq![last] + rest) <==> first == 0 && last == 0
            && middle =~= Seq::new(10, |i: int| 255u8),
        !raw_mark(rest.take(2340)),
{
    let bytes = seq![first] + middle + seq![last] + rest;
    assert(bytes[0] == first);
    assert(bytes[11] == last);
    assert forall|i: int| 0 <= i < 10 implies middle[i] == bytes[i + 1] by {}
    if raw_mark(bytes) {
        assert forall|i: int| 0 <= i < 10 implies middle[i] == 255 by {
            assert(bytes[i + 1] == 0xFF);
        }
    }
}

/// The sound of a track is some whole sectors, never none, and the last track of
/// a disc is number 99 at most.
pub proof fn law_sound_fills_whole_sectors(
    image: Seq<u8>,
    tracks: Seq<Vec<u8>>,
    index: int,
    sectors: int,
)
    requires
        0 <= index < tracks.len(),
        tracks_fit(tracks, tracks.len() as int),
    ensures
        tracks[index]@.len() >= 2352,
        tracks[index]@.len() % 2352 == 0,
        tracks[index]@.len() == 2352 * sectors ==> sectors >= 1,
        2 <= cue_track(image, tracks, index).number <= 99,
        cue_track(image, tracks, index).number == index + 2,
{
    assert(whole_sectors(tracks[index]@));
}

/// Any whole number of sectors will do for a track.
pub proof fn law_whole_sectors_will_do(sound: Seq<u8>, sectors: int)
    requires
        sectors >= 0,
        sound.len() == 2352 * sectors,
    ensures
        whole_sectors(sound) <==> sectors >= 1,
{
}

} // verus!
