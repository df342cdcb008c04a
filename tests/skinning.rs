use pikaxe_bevy::skin::{compute_bone_chain, twist_bone_links, BoneRecord, JointSlot, SkinBinder};

fn bone(name: &str, parent: &str, node: u64) -> BoneRecord {
    BoneRecord { name: name.to_string(), parent: parent.to_string(), node }
}

fn names(list: &[&str]) -> Vec<String> {
    list.iter().map(|s| s.to_string()).collect()
}

#[test]
fn root_bone_chain_is_itself() {
    let bones = vec![bone("A", "", 1), bone("B", "A", 2)];
    assert_eq!(compute_bone_chain(&bones, 0), Some(vec![0]));
}

#[test]
fn three_level_chain_is_root_first() {
    let bones = vec![bone("C", "B", 3), bone("A", "", 1), bone("B", "A", 2)];
    assert_eq!(compute_bone_chain(&bones, 0), Some(vec![1, 2, 0]));
    assert_eq!(compute_bone_chain(&bones, 2), Some(vec![1, 2]));
    assert_eq!(compute_bone_chain(&bones, 1), Some(vec![1]));
}

#[test]
fn unknown_parent_ends_the_chain() {
    let bones = vec![bone("A", "ghost", 1), bone("B", "A", 2)];
    assert_eq!(compute_bone_chain(&bones, 1), Some(vec![0, 1]));
}

#[test]
fn looping_parents_have_no_chain() {
    let bones = vec![bone("A", "B", 1), bone("B", "A", 2), bone("S", "S", 3)];
    assert_eq!(compute_bone_chain(&bones, 0), None);
    assert_eq!(compute_bone_chain(&bones, 2), None);
}

#[test]
fn missing_bone_leaves_others_bound() {
    let bones = vec![bone("A", "", 1), bone("B", "A", 2)];
    let binder = SkinBinder::new(bones);
    let slots = binder.bind_mesh(&names(&["B", "missing", "A"])).unwrap();
    assert_eq!(
        slots,
        vec![
            JointSlot::Bound { node: 2, bone: 1 },
            JointSlot::Unbound,
            JointSlot::Bound { node: 1, bone: 0 },
        ]
    );
    assert_eq!(binder.chain(1), Some(vec![0, 1]));
}

#[test]
fn mesh_without_bone_names_is_not_skinned() {
    let binder = SkinBinder::new(vec![bone("A", "", 1)]);
    assert_eq!(binder.bind_mesh(&names(&["", ""])), None);
    assert_eq!(binder.bind_mesh(&names(&[])), None);
    assert!(SkinBinder::is_skinned(&names(&["", "A"])));
}

#[test]
fn looping_bone_binds_unbound() {
    let binder = SkinBinder::new(vec![bone("S", "S", 3), bone("A", "", 1)]);
    assert_eq!(binder.len(), 2);
    assert_eq!(binder.chain(0), None);
    assert_eq!(
        binder.bind_mesh(&names(&["S", "A"])),
        Some(vec![JointSlot::Unbound, JointSlot::Bound { node: 1, bone: 1 }])
    );
}

fn arm(side: &str, base: u64) -> Vec<BoneRecord> {
    vec![
        bone(&format!("bone_{side}-upperArm.mesh"), "", base),
        bone(&format!("bone_{side}-upperTwist1.mesh"), "", base + 1),
        bone(&format!("bone_{side}-foreArm.mesh"), "", base + 2),
        bone(&format!("bone_{side}-foreTwist1.mesh"), "", base + 3),
    ]
}

#[test]
fn twist_links_for_both_arms() {
    let mut bones = arm("L", 10);
    bones.extend(arm("R", 20));
    assert_eq!(twist_bone_links(&bones), vec![(11, 10), (13, 12), (21, 20), (23, 22)]);
}

#[test]
fn twist_links_need_the_left_arm() {
    assert_eq!(twist_bone_links(&arm("R", 20)), vec![]);
    assert_eq!(twist_bone_links(&arm("L", 10)), vec![(11, 10), (13, 12)]);
    let mut partial = arm("L", 10);
    partial.pop();
    partial.extend(arm("R", 20));
    assert_eq!(twist_bone_links(&partial), vec![]);
}

#[test]
fn only_character_directories_are_skinned() {
    assert!(pikaxe_bevy::skin::schedules_skin_binding("Character"));
    assert!(!pikaxe_bevy::skin::schedules_skin_binding("Object"));
    assert!(!pikaxe_bevy::skin::schedules_skin_binding("character"));
    assert!(!pikaxe_bevy::skin::schedules_skin_binding(""));
}

#[test]
fn binder_chains_end_at_their_bone() {
    let binder = SkinBinder::new(vec![bone("C", "B", 3), bone("A", "", 1), bone("B", "A", 2)]);
    assert_eq!(binder.chain(0), Some(vec![1, 2, 0]));
    assert_eq!(binder.chain(1), Some(vec![1]));
}
