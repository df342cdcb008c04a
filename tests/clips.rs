use pikaxe_bevy::anim::{clip_bone_name, clip_sample_count, keyframe_sources};
use pikaxe_bevy::args::CreatorArgs;

#[test]
fn keyframes_cycle_through_values() {
    assert_eq!(keyframe_sources(3, 7), vec![0, 1, 2, 0, 1, 2, 0]);
    assert_eq!(keyframe_sources(1, 3), vec![0, 0, 0]);
    assert_eq!(keyframe_sources(0, 5), Vec::<usize>::new());
    assert_eq!(keyframe_sources(4, 0), Vec::<usize>::new());
}

#[test]
fn clip_names_and_counts() {
    assert_eq!(clip_bone_name("bone_pelvis"), "bone_pelvis.mesh");
    assert_eq!(clip_sample_count(3, 10), 10);
    assert_eq!(clip_sample_count(12, 10), 12);
}

#[test]
fn creator_args_hold_what_they_are_given() {
    let args = CreatorArgs::init("gen/main.hdr".to_string(), Some("grim".to_string()));
    assert_eq!(args.ark_path, "gen/main.hdr");
    assert_eq!(args.default_outfit, Some("grim".to_string()));
    let plain = CreatorArgs::init("main.hdr".to_string(), None);
    assert_eq!(plain.default_outfit, None);
}
