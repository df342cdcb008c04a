use pikaxe_bevy::texture::{
    fill_repeating, is_mesh_placed, swap_byte_pairs, texture_byte_size, texture_layout, textures_to_load,
    MaterialTextures, PixelFormat, Platform, TextureLayout, TextureRecord,
};

#[test]
fn console_block_encodings_are_kept() {
    assert_eq!(
        texture_layout(Platform::X360, 24, 8),
        TextureLayout { format: PixelFormat::Bc3, bits_per_pixel: 8, swap_bytes: true, decode_rgba: false }
    );
    assert_eq!(
        texture_layout(Platform::PS3, 32, 8),
        TextureLayout { format: PixelFormat::Bc5, bits_per_pixel: 8, swap_bytes: false, decode_rgba: false }
    );
    assert_eq!(texture_layout(Platform::PS3, 8, 4).format, PixelFormat::Bc1);
    assert_eq!(texture_layout(Platform::PS3, 8, 4).bits_per_pixel, 4);
}

#[test]
fn other_bitmaps_are_decoded() {
    let rgba = TextureLayout { format: PixelFormat::Rgba8, bits_per_pixel: 32, swap_bytes: false, decode_rgba: true };
    assert_eq!(texture_layout(Platform::Other, 24, 8), rgba);
    assert_eq!(texture_layout(Platform::X360, 3, 8), rgba);
}

#[test]
fn byte_size_of_top_level() {
    assert_eq!(texture_byte_size(256, 128, 4), 16384);
    assert_eq!(texture_byte_size(65535, 65535, 255), 65535u64 * 65535 * 255 / 8);
    assert_eq!(texture_byte_size(0, 10, 32), 0);
}

#[test]
fn bytes_swap_in_pairs() {
    let mut data = vec![1u8, 2, 3, 4, 5, 6];
    swap_byte_pairs(&mut data);
    assert_eq!(data, vec![2, 1, 4, 3, 6, 5]);
    let mut empty: Vec<u8> = vec![];
    swap_byte_pairs(&mut empty);
    assert!(empty.is_empty());
}

#[test]
fn fill_repeats_whole_copies() {
    let mut buffer = vec![9u8; 7];
    fill_repeating(&mut buffer, &vec![1, 2, 3]);
    assert_eq!(buffer, vec![1, 2, 3, 1, 2, 3, 9]);
    let mut short = vec![0u8; 2];
    fill_repeating(&mut short, &vec![5, 6, 7]);
    assert_eq!(short, vec![0, 0]);
}

fn mat(name: &str, diffuse: &str, normal: &str, emissive: &str) -> MaterialTextures {
    MaterialTextures {
        name: name.to_string(),
        diffuse: diffuse.to_string(),
        normal: normal.to_string(),
        emissive: emissive.to_string(),
    }
}

fn tex(name: &str, has_bitmap: bool) -> TextureRecord {
    TextureRecord { name: name.to_string(), has_bitmap }
}

#[test]
fn only_used_textures_with_bitmaps_load() {
    let mesh_materials = vec!["skin.mat".to_string()];
    let materials = vec![mat("skin.mat", "skin.tex", "skin_nrm.tex", ""), mat("unused.mat", "other.tex", "", "")];
    let textures = vec![
        tex("other.tex", true),
        tex("skin.tex", true),
        tex("skin_nrm.tex", false),
        tex("skin.tex", true),
    ];
    assert_eq!(textures_to_load(&mesh_materials, &materials, &textures), vec![1]);
}

#[test]
fn no_meshes_no_textures() {
    let materials = vec![mat("skin.mat", "skin.tex", "", "")];
    let textures = vec![tex("skin.tex", true)];
    assert_eq!(textures_to_load(&vec![], &materials, &textures), Vec::<usize>::new());
}

#[test]
fn shadow_and_empty_meshes_are_skipped() {
    assert!(is_mesh_placed("body.mesh", 3));
    assert!(!is_mesh_placed("shadow_body.mesh", 3));
    assert!(!is_mesh_placed("body.mesh", 0));
    assert!(is_mesh_placed("the_shadow.mesh", 1));
}
