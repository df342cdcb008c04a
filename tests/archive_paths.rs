use pikaxe_bevy::archive::{
    animation_milo_path, character_milo_path, file_kind_of, get_entry_from_path, get_path_with_gen_folder, FileKind,
};

#[test]
fn gen_folder_goes_before_file_name() {
    assert_eq!(get_path_with_gen_folder("ui/sel_character.milo"), "ui/gen/sel_character.milo");
    assert_eq!(get_path_with_gen_folder("char/grim/og/grim.milo"), "char/grim/og/gen/grim.milo");
}

#[test]
fn gen_folder_without_slash() {
    assert_eq!(get_path_with_gen_folder("metacam.milo"), "gen/metacam.milo");
    assert_eq!(get_path_with_gen_folder(""), "gen/");
}

#[test]
fn entry_found_directly_or_in_gen_folder() {
    let entries: Vec<String> = vec![
        "ui/other.milo_xbox".to_string(),
        "ui/gen/metacam.milo_xbox".to_string(),
        "ui/sel_character.milo_xbox".to_string(),
    ];
    assert_eq!(get_entry_from_path(&entries, "ui/sel_character.milo"), Some(2));
    assert_eq!(get_entry_from_path(&entries, "ui/metacam.milo"), Some(1));
    assert_eq!(get_entry_from_path(&entries, "ui/none.milo"), None);
}

#[test]
fn first_matching_entry_wins() {
    let entries: Vec<String> = vec!["a/gen/b.milo_ps3".to_string(), "a/b.milo_ps3".to_string()];
    assert_eq!(get_entry_from_path(&entries, "a/b.milo"), Some(0));
}

#[test]
fn character_paths() {
    assert_eq!(character_milo_path("alterna1", true), "char/alterna1/og/alterna1_ui.milo");
    assert_eq!(character_milo_path("metal_bass", false), "char/metal_bass/og/metal_bass.milo");
    assert_eq!(animation_milo_path("grim"), "char/grim/anims/grim_ui.milo");
}

#[test]
fn files_open_by_full_extension() {
    assert_eq!(file_kind_of("main_ps3.hdr"), FileKind::Ark);
    assert_eq!(file_kind_of("grim.milo_xbox"), FileKind::Milo);
    assert_eq!(file_kind_of("venue.rnd_ps2"), FileKind::Milo);
    assert_eq!(file_kind_of("song.gh"), FileKind::Milo);
    assert_eq!(file_kind_of("song.mid"), FileKind::Other);
    assert_eq!(file_kind_of("a.b.hdr"), FileKind::Ark);
    assert_eq!(file_kind_of("hdr"), FileKind::Ark);
    assert_eq!(file_kind_of("milo_notes.txt"), FileKind::Other);
}
