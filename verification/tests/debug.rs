use frontend::debug::control::{
    control, fnv1a_64, game_id, game_kind, loaded_reply, reset_reply, server_port, status,
    ControlCmd, ControlState, GameKind, MachineStatus,
};
use frontend::debug::hex::{hex, hex_pairs_align, parse_hex, push_hex_digits, HexError};
use frontend::debug::memory::{
    read_ram, read_word, step_count, step_reply, word_reply, write_ram, write_reply, ByteWrite,
    FrameReport, MAX_READ, MAX_STEP,
};
use frontend::debug::picture::{
    bgr555_to_rgb8, dump_vram, png_from_rgba, png_reply, png_result, screenshot, vram_rgba,
    PngError, VRAM_PIXELS,
};

#[test]
fn parse_hex_roundtrips_and_ignores_whitespace() {
    assert_eq!(parse_hex("deadbeef").unwrap(), vec![0xde, 0xad, 0xbe, 0xef]);
    assert_eq!(
        parse_hex("de ad be ef").unwrap(),
        vec![0xde, 0xad, 0xbe, 0xef]
    );
    assert_eq!(hex(&vec![0xde, 0xad]), "dead");
    assert!(parse_hex("abc").is_err()); // odd length
    assert!(parse_hex("zz").is_err()); // non-hex
}

#[test]
fn bgr555_endpoints() {
    assert_eq!(bgr555_to_rgb8(0x0000), (0, 0, 0));
    assert_eq!(bgr555_to_rgb8(0x7fff), (255, 255, 255)); // all 5-bit channels max
    assert_eq!(bgr555_to_rgb8(0x001f), (255, 0, 0)); // red channel only
    assert_eq!(bgr555_to_rgb8(0x7c00), (0, 0, 255)); // blue channel only
}

#[test]
fn hex_errors_say_what_is_wrong() {
    assert_eq!(parse_hex("abc"), Err(HexError::OddLength));
    assert_eq!(parse_hex("zz"), Err(HexError::InvalidDigit));
    assert_eq!(parse_hex("+f"), Ok(vec![15]));
    assert_eq!(parse_hex("f+"), Err(HexError::InvalidDigit));
    assert_eq!(parse_hex("++"), Err(HexError::InvalidDigit));
    assert_eq!(parse_hex("-f"), Err(HexError::InvalidDigit));
    assert_ne!(HexError::OddLength.message(), HexError::InvalidDigit.message());
    assert!(hex_pairs_align("zz"));
    assert!(!hex_pairs_align("a\u{e9}b"));
    let mut text = String::new();
    push_hex_digits(&mut text, 0x1f, 8);
    assert_eq!(text, "0000001f");
}

#[test]
fn every_byte_string_survives_hex() {
    let bytes: Vec<u8> = (0..=255).collect();
    assert_eq!(parse_hex(&hex(&bytes)), Ok(bytes));
    assert_eq!(parse_hex("D E\tAd"), Ok(vec![0xDE, 0xAD]));
}

fn ram() -> Vec<u8> {
    let mut ram = vec![0u8; 0x20_0000];
    ram[0x10] = 0x78;
    ram[0x11] = 0x56;
    ram[0x12] = 0x34;
    ram[0x13] = 0x12;
    ram[0x1F_FFFF] = 9;
    ram
}

#[test]
fn memory_reads_stop_at_the_end_and_ignore_the_segment() {
    let ram = ram();
    assert_eq!(read_ram(Some(&ram), 0x10, 2), Ok(vec![0x78, 0x56]));
    assert_eq!(read_ram(Some(&ram), 0x8000_0010, 2), Ok(vec![0x78, 0x56]));
    assert_eq!(read_ram(Some(&ram), 0x801F_FFFF, 2), Ok(vec![9]));
    assert_eq!(read_ram(Some(&ram), 0, u32::MAX).unwrap().len(), MAX_READ);
    assert_eq!(read_word(Some(&ram), 0xA000_0010), Ok(0x1234_5678));
    assert!(read_ram(None, 0, 4).is_err());
    assert!(read_word(None, 0).is_err());
    assert!(read_word(Some(&ram), 0x801F_FFFE).is_err());
}

#[test]
fn memory_writes_go_byte_by_byte() {
    assert_eq!(
        write_ram(true, 0x8000_0100, &vec![1, 2]),
        Ok(vec![
            ByteWrite { addr: 0x8000_0100, byte: 1 },
            ByteWrite { addr: 0x8000_0101, byte: 2 },
        ])
    );
    assert!(write_ram(false, 0, &vec![1]).is_err());
    assert!(write_reply(2, 0x8000_0100).contains("80000100"));
    assert!(word_reply(0x1234_5678).contains("12345678"));
}

#[test]
fn stepping_is_limited() {
    assert_eq!(step_count(true, 5), Ok(5));
    assert_eq!(step_count(true, 0), Ok(1));
    assert_eq!(step_count(true, u32::MAX), Ok(MAX_STEP));
    assert!(step_count(false, 1).is_err());
    let text = step_reply(&vec![
        FrameReport { instructions: 100, vblanks: 1 },
        FrameReport { instructions: 23, vblanks: 1 },
    ]);
    assert!(text.contains("123"));
}

#[test]
fn the_server_port_comes_from_the_setting() {
    assert_eq!(server_port(None), 7355);
    assert_eq!(server_port(Some("8080")), 8080);
    assert_eq!(server_port(Some("nonsense")), 7355);
    assert_eq!(server_port(Some("70000")), 7355);
}

#[test]
fn commands_change_the_run_state() {
    let mut state = ControlState { running: true, has_machine: true, wireframe: false };
    assert!(control(&mut state, ControlCmd::Pause).is_ok());
    assert!(!state.running);
    assert!(control(&mut state, ControlCmd::Resume).is_ok());
    assert!(state.running);
    assert!(control(&mut state, ControlCmd::ToggleWireframe { on: None }).is_ok());
    assert!(state.wireframe);
    assert!(control(&mut state, ControlCmd::ToggleWireframe { on: Some(false) }).is_ok());
    assert!(!state.wireframe);
    let mut empty = ControlState { running: false, has_machine: false, wireframe: false };
    assert_eq!(control(&mut empty, ControlCmd::Resume), Ok("no game loaded"));
    assert!(!empty.running);
}

#[test]
fn games_are_told_apart_by_extension() {
    assert_eq!(game_kind("EXE"), Ok(GameKind::Exe));
    assert_eq!(game_kind("cue"), Ok(GameKind::DiscCue));
    assert_eq!(game_kind("ccd"), Ok(GameKind::DiscCcd));
    assert_eq!(game_kind("iso"), Ok(GameKind::DiscIso));
    assert_eq!(game_kind("bin"), Ok(GameKind::DiscBin));
    assert!(game_kind("txt").unwrap_err().contains("txt"));
}

#[test]
fn game_ids_are_fnv_hashes() {
    assert_eq!(fnv1a_64(&vec![]), 0xcbf2_9ce4_8422_2325);
    assert_eq!(fnv1a_64(&b"a".to_vec()), 0xaf63_dc4c_8601_ec8c);
    assert!(game_id(&b"a".to_vec()).contains("af63dc4c8601ec8c"));
}

#[test]
fn replies_name_the_game() {
    let (title, reply) = loaded_reply(Some("Demo"));
    assert_eq!(title, "Demo");
    assert!(reply.contains("Demo"));
    assert!(reset_reply(Some("Demo")).unwrap().contains("Demo"));
    assert!(reset_reply(None).is_err());
}

#[test]
fn status_tells_whether_anything_runs() {
    let machine = MachineStatus {
        running: true,
        pc: 0x8001_0000,
        cycles: 42,
        wireframe: false,
        width: 320,
        height: 240,
    };
    let text = status(Some(machine), "Demo");
    assert!(text.contains("80010000"));
    assert!(text.contains("42"));
    assert!(text.contains("Demo"));
    assert_ne!(status(None, "Demo"), text);
}

#[test]
fn video_memory_becomes_opaque_pixels() {
    assert_eq!(vram_rgba(&vec![0x001f, 0x7c00]), vec![255, 0, 0, 255, 0, 0, 255, 255]);
}

const PNG_START: [u8; 8] = [0x89, b'P', b'N', b'G', 0x0D, 0x0A, 0x1A, 0x0A];

#[test]
fn pixels_are_encoded_as_png() {
    let pixels = vec![1, 2, 3, 255, 4, 5, 6, 255];
    let png = png_from_rgba(pixels.clone(), 2, 1).unwrap();
    assert_eq!(&png[..8], &PNG_START);
    assert_eq!(&png[16..24], &[0, 0, 0, 2, 0, 0, 0, 1]);
    let back = image::load_from_memory(&png).unwrap().to_rgba8();
    assert_eq!((back.width(), back.height()), (2, 1));
    assert_eq!(back.into_raw(), pixels);
    assert!(png_from_rgba(vec![1, 2, 3], 2, 1).is_err());
}

#[test]
fn pictures_need_a_machine() {
    assert!(screenshot(None).is_err());
    assert!(dump_vram(None).is_err());
    let shot = screenshot(Some((vec![9, 9, 9, 255], 1, 1))).unwrap();
    assert_eq!(&shot[..8], &PNG_START);
    let dump = dump_vram(Some(&vec![0u16; VRAM_PIXELS])).unwrap();
    assert_eq!(&dump[16..24], &[0, 0, 4, 0, 0, 0, 2, 0]);
}

#[test]
fn encoder_failures_are_passed_on() {
    assert!(png_reply(Err(PngError::TooShort)).is_err());
    let text = png_reply(Err(PngError::Encoder("broken".to_string()))).unwrap_err();
    assert!(text.contains("broken"));
    assert_eq!(png_reply(Ok(vec![1])), Ok(vec![1]));
}

#[test]
fn images_travel_as_base64() {
    let content = png_result(&b"Man".to_vec());
    assert_eq!(content.data, "TWFu");
    assert_eq!(content.mime_type, "image/png");
    assert_eq!(png_result(&b"Ma".to_vec()).data, "TWE=");
    assert_eq!(png_result(&vec![0xFB, 0xFF]).data, "+/8=");
    assert_eq!(png_result(&vec![]).data, "");
}
