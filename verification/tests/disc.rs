use frontend::disc::chunks::{
    apply_embedded_world_pack_order, chunk_file, pack_chunks, read_embedded_world_pack_order,
    sort_chunks, Chunk, ChunkFile, OrderError,
};
use frontend::disc::cue::{cue_msf, cue_sheet, rewrite_cue_for_copied_bin};
use frontend::disc::image::{
    append_cdda_tracks_to_image, extract_playstation_system_area, looks_like_raw_sector,
    short_system_area_text, CddaCueTrack, CddaError, CDDA_PREGAP_SECTORS, COOKED_SYSTEM_AREA,
    RAW_SYSTEM_AREA, SECTOR_BYTES,
};
use frontend::disc::names::{
    baked_disc_name, is_stale_build, project_build_menu_metadata, project_disc_volume_id,
    stem_volume_id,
    safe_project_build_stem, FileName,
};
use frontend::disc::report::{
    build_log_failure_detail, embedded_cdda_track_payloads, truncate_for_status,
};

#[test]
fn project_build_disc_name_is_filesystem_safe() {
    assert_eq!(
        safe_project_build_stem("Stone Room: Vertical Slice!"),
        "stone_room_vertical_slice"
    );
    assert_eq!(safe_project_build_stem("..."), "project");
    assert_eq!(baked_disc_name("Demo Project"), "demo_project.cue");
}

#[test]
fn volume_names_are_cut_after_the_limit() {
    assert_eq!(stem_volume_id("demo-10"), "DEMO-10");
    assert_eq!(stem_volume_id(&"a".repeat(40)), "A".repeat(32));
    assert_eq!(stem_volume_id(""), "");
}

#[test]
fn project_disc_volume_id_uses_project_name() {
    assert_eq!(project_disc_volume_id("Demo 10"), "DEMO_10");
    assert_eq!(project_disc_volume_id("..."), "PROJECT");
    assert_eq!(
        project_disc_volume_id("A very very very very very long project name"),
        "A_VERY_VERY_VERY_VERY_VERY_LONG_"
    );
}

fn file<'a>(name: &'a str, stem: &'a str, extension: &'a str) -> FileName<'a> {
    FileName { name, stem, extension: Some(extension) }
}

#[test]
fn project_build_export_removes_stale_sibling_builds() {
    let listed = [
        file("untitled_ps1_project.exe", "untitled_ps1_project", "exe"),
        file("old_demo.bin", "old_demo", "bin"),
        file("old_demo.cue", "old_demo", "cue"),
        file("demo2.cue", "demo2", "cue"),
        file("demo2.bin", "demo2", "bin"),
        file("notes.txt", "notes", "txt"),
    ];
    let stale: Vec<bool> = listed
        .into_iter()
        .map(|file| is_stale_build(file, "demo2.cue", "demo2"))
        .collect();
    assert_eq!(stale, vec![true, true, true, false, false, false]);
}

#[test]
fn project_build_export_rewrites_cue_for_renamed_bin() {
    let source = cue_sheet("editor-playtest.bin", &vec![]);
    let cue = rewrite_cue_for_copied_bin(&source, "cortex_ignition_v1.bin");

    assert!(cue.contains("FILE \"cortex_ignition_v1.bin\" BINARY"));
    assert!(!cue.contains("editor-playtest.bin"));
}

#[test]
fn project_build_menu_metadata_uses_project_name_and_marks_stale_builds() {
    let current_metadata = project_build_menu_metadata(
        "Demo Two",
        "demo_two",
        Some("demo2/baked/demo_two.cue"),
        "/root/demo2/baked/demo_two.cue",
    );
    assert_eq!(current_metadata.title, "Demo Two");
    assert!(current_metadata.subtitle.contains("demo2"));
    assert!(current_metadata.current);

    let stale_metadata = project_build_menu_metadata(
        "Demo Two",
        "untitled_ps1_project",
        Some("demo2/baked/untitled_ps1_project.cue"),
        "/root/demo2/baked/untitled_ps1_project.cue",
    );
    assert_eq!(stale_metadata.title, "Demo Two");
    assert!(!stale_metadata.current);
}

#[test]
fn times_on_a_disc_count_75_frames_a_second() {
    assert_eq!(cue_msf(0), "00:00:00");
    assert_eq!(cue_msf(74), "00:00:74");
    assert_eq!(cue_msf(150), "00:02:00");
    assert_eq!(cue_msf(75 * 60 + 76), "01:01:01");
}

#[test]
fn sound_tracks_follow_the_data_track() {
    let mut image = vec![7u8; SECTOR_BYTES * 10];
    let sound = vec![vec![1u8; SECTOR_BYTES * 2], vec![2u8; SECTOR_BYTES]];
    let tracks = append_cdda_tracks_to_image(&mut image, &sound).unwrap();
    let pregap = CDDA_PREGAP_SECTORS as u32;
    assert_eq!(
        tracks,
        vec![
            CddaCueTrack { number: 2, index0_sector: 10, index1_sector: 10 + pregap },
            CddaCueTrack {
                number: 3,
                index0_sector: 12 + pregap,
                index1_sector: 12 + 2 * pregap,
            },
        ]
    );
    assert_eq!(image.len(), SECTOR_BYTES * (13 + 2 * CDDA_PREGAP_SECTORS));
    assert_eq!(image[SECTOR_BYTES * 10], 0);
    assert_eq!(image[SECTOR_BYTES * (10 + CDDA_PREGAP_SECTORS)], 1);
    let sheet = cue_sheet("game.bin", &tracks);
    assert!(sheet.contains("TRACK 02 AUDIO"));
    assert!(sheet.contains("INDEX 00 00:00:10"));
    assert!(sheet.contains("INDEX 01 00:02:10"));
}

#[test]
fn broken_sound_tracks_are_refused() {
    let mut image = vec![0u8; SECTOR_BYTES];
    assert_eq!(
        append_cdda_tracks_to_image(&mut image, &vec![vec![0; SECTOR_BYTES], vec![0; 5]]),
        Err(CddaError::BadLength { index: 1 })
    );
    let many = vec![vec![0u8; SECTOR_BYTES]; 99];
    assert_eq!(
        append_cdda_tracks_to_image(&mut image, &many),
        Err(CddaError::TooManyTracks)
    );
}

#[test]
fn the_system_area_is_read_from_raw_and_cooked_images() {
    let cooked = vec![5u8; COOKED_SYSTEM_AREA + 9];
    assert_eq!(
        extract_playstation_system_area(&cooked),
        Some(vec![5u8; COOKED_SYSTEM_AREA])
    );
    assert_eq!(extract_playstation_system_area(&vec![5u8; 100]), None);
    assert!(short_system_area_text().contains(&COOKED_SYSTEM_AREA.to_string()));

    let mut raw = vec![3u8; RAW_SYSTEM_AREA];
    for sector in 0..16 {
        let at = sector * SECTOR_BYTES;
        raw[at] = 0;
        for i in 1..11 {
            raw[at + i] = 0xFF;
        }
        raw[at + 11] = 0;
        raw[at + 24] = sector as u8;
    }
    assert!(looks_like_raw_sector(&raw[..SECTOR_BYTES].to_vec()));
    let area = extract_playstation_system_area(&raw).unwrap();
    assert_eq!(area.len(), COOKED_SYSTEM_AREA);
    assert_eq!(area[2048 * 15], 15);
    assert!(!looks_like_raw_sector(&vec![0u8; SECTOR_BYTES]));
}

fn chunk(id: u32) -> Chunk {
    Chunk { id, bytes: vec![id as u8] }
}

fn ids(chunks: &[Chunk]) -> Vec<u32> {
    chunks.iter().map(|chunk| chunk.id).collect()
}

#[test]
fn chunk_files_carry_their_number() {
    assert!(matches!(
        chunk_file(Some("psxw"), Some("room_012"), "psxw", "room_"),
        ChunkFile::Chunk { id: 12 }
    ));
    assert!(matches!(
        chunk_file(Some("txt"), Some("room_012"), "psxw", "room_"),
        ChunkFile::Other
    ));
    assert!(matches!(
        chunk_file(Some("psxw"), Some("room_x"), "psxw", "room_"),
        ChunkFile::Invalid
    ));
}

#[test]
fn chunks_are_packed_by_number_or_by_the_order_file() {
    assert_eq!(ids(&sort_chunks(vec![chunk(3), chunk(1), chunk(2)])), vec![1, 2, 3]);
    let order = read_embedded_world_pack_order("# rooms\n2\n\n0 # hub\n1\n").unwrap();
    assert_eq!(order, vec![2, 0, 1]);
    let packed = pack_chunks(vec![chunk(1), chunk(0), chunk(2)], Some(&order)).unwrap();
    assert_eq!(ids(&packed.unwrap()), vec![2, 0, 1]);
    assert!(pack_chunks(vec![], None).unwrap().is_none());
}

#[test]
fn broken_order_files_are_refused() {
    let message = |error: OrderError| error.message("order.txt");
    let invalid = read_embedded_world_pack_order("1\nx\n").unwrap_err();
    assert!(matches!(invalid, OrderError::InvalidLine { line: 2 }));
    assert!(message(invalid).contains("order.txt"));
    let twice = read_embedded_world_pack_order("1\n1\n").unwrap_err();
    assert!(matches!(twice, OrderError::Duplicate { line: 2, id: 1 }));
    assert!(message(twice).contains('1'));
    assert_eq!(read_embedded_world_pack_order("# nothing\n").unwrap(), vec![]);
    let empty = apply_embedded_world_pack_order(vec![chunk(0)], &vec![]).unwrap_err();
    assert!(matches!(empty, OrderError::Empty));
    assert!(message(empty).contains("order.txt"));
    let unknown = apply_embedded_world_pack_order(vec![chunk(0)], &vec![0, 5]).unwrap_err();
    assert!(matches!(unknown, OrderError::Unknown { id: 5 }));
    assert!(message(unknown).contains('5'));
    let missing = apply_embedded_world_pack_order(vec![chunk(0), chunk(8)], &vec![0]).unwrap_err();
    assert!(matches!(&missing, OrderError::Missing { ids } if ids == &vec![8]));
    assert!(message(missing).contains('8'));
}

#[test]
fn build_failures_quote_the_log() {
    let log = "compiling\nerror: something broke\nmore\n";
    assert!(build_log_failure_detail(Some(log), "build.log").contains("error: something broke"));
    assert!(build_log_failure_detail(None, "build.log").contains("build.log"));
    let long: Vec<char> = "x".repeat(300).chars().collect();
    assert!(truncate_for_status(&long, 10).chars().count() <= 11);
    assert_eq!(truncate_for_status(&vec!['a', 'b'], 10), "ab");
}

#[test]
fn sound_lists_skip_comments() {
    assert_eq!(
        embedded_cdda_track_payloads("# list\n\n music.raw \nend.raw\n"),
        vec!["music.raw".to_string(), "end.raw".to_string()]
    );
}
