use pikaxe_bevy::hierarchy::{declared_parent_name, goes_under_placer, resolve_parent, resolve_parents, ParentLinks, Placement, SceneObject};
use pikaxe_bevy::resources::MiloEntityMap;

const ROOT: u64 = 100;

fn object(node: u64, name: &str, parent: &str) -> SceneObject {
    SceneObject {
        node,
        name: name.to_string(),
        parent: Some(parent.to_string()),
        custom_parent: None,
        parent_override: false,
    }
}

fn index_of(objects: &[SceneObject]) -> MiloEntityMap {
    let mut index = MiloEntityMap::new();
    for o in objects {
        index.set_entity(&o.name, o.node);
    }
    index
}

#[test]
fn batch_with_missing_parent_resolves_to_root() {
    let batch = vec![object(1, "A", ""), object(2, "B", "A"), object(3, "C", "X")];
    let index = index_of(&batch);
    let placements = resolve_parents(&batch, &index, ROOT);
    assert_eq!(placements, vec![Placement::Under(ROOT), Placement::Under(1), Placement::Orphaned]);
    let parents: Vec<Option<u64>> = placements.iter().map(|p| p.parent_node(ROOT)).collect();
    assert_eq!(parents, vec![Some(ROOT), Some(1), Some(ROOT)]);
    assert_eq!(placements.iter().filter(|p| p.is_orphaned()).count(), 1);
}

#[test]
fn self_parent_goes_under_root() {
    let o = object(7, "cam", "cam");
    let index = index_of(&[object(7, "cam", "cam")]);
    assert_eq!(resolve_parent(&o, &index, ROOT), Placement::Under(ROOT));
}

#[test]
fn object_without_parent_field_goes_under_root() {
    let o = SceneObject {
        node: 4,
        name: "clip".to_string(),
        parent: None,
        custom_parent: None,
        parent_override: false,
    };
    let index = MiloEntityMap::new();
    assert_eq!(resolve_parent(&o, &index, ROOT), Placement::Under(ROOT));
}

#[test]
fn parent_from_an_earlier_batch_is_found() {
    let earlier = vec![object(10, "spot_guitar", "")];
    let mut index = index_of(&earlier);
    let later = vec![object(20, "guitar.mesh", "spot_guitar")];
    index.set_entity("guitar.mesh", 20);
    let placements = resolve_parents(&later, &index, ROOT);
    assert_eq!(placements, vec![Placement::Under(10)]);
}

#[test]
fn parent_override_keeps_current_parent() {
    let mut o = object(5, "bone_hair", "bone_head");
    o.parent_override = true;
    let index = index_of(&[object(6, "bone_head", "")]);
    let p = resolve_parent(&o, &index, ROOT);
    assert_eq!(p, Placement::Kept);
    assert_eq!(p.parent_node(ROOT), None);
}

#[test]
fn custom_parent_used_when_transform_parent_is_empty() {
    let mut o = object(8, "char_body", "");
    o.custom_parent = Some("placer".to_string());
    let index = index_of(&[object(9, "placer", "")]);
    assert_eq!(resolve_parent(&o, &index, ROOT), Placement::Under(9));
}

#[test]
fn transform_parent_wins_over_custom_parent() {
    let mut o = object(8, "char_body", "spine");
    o.custom_parent = Some("placer".to_string());
    let mut index = index_of(&[object(9, "placer", "")]);
    index.set_entity("spine", 11);
    assert_eq!(resolve_parent(&o, &index, ROOT), Placement::Under(11));
}

#[test]
fn missing_custom_parent_is_orphaned() {
    let mut o = object(8, "char_body", "");
    o.custom_parent = Some("nowhere".to_string());
    let index = MiloEntityMap::new();
    let p = resolve_parent(&o, &index, ROOT);
    assert_eq!(p, Placement::Orphaned);
    assert_eq!(p.parent_node(ROOT), Some(ROOT));
}

#[test]
fn resolving_twice_changes_nothing() {
    let batch = vec![object(1, "A", ""), object(2, "B", "A"), object(3, "C", "X")];
    let index = index_of(&batch);
    let mut links = ParentLinks::new();
    links.set_parent(3, 2);
    let first = resolve_parents(&batch, &index, ROOT);
    links.apply_placements(&batch, &first, ROOT);
    let after_once: Vec<Option<u64>> = (1..=3).map(|n| links.parent_of(n)).collect();
    assert_eq!(after_once, vec![Some(ROOT), Some(1), Some(ROOT)]);
    let second = resolve_parents(&batch, &index, ROOT);
    assert_eq!(first, second);
    links.apply_placements(&batch, &second, ROOT);
    let after_twice: Vec<Option<u64>> = (1..=3).map(|n| links.parent_of(n)).collect();
    assert_eq!(after_once, after_twice);
}

#[test]
fn kept_placement_leaves_link_alone() {
    let mut o = object(5, "hair", "head");
    o.parent_override = true;
    let batch = vec![o];
    let mut links = ParentLinks::new();
    links.set_parent(5, 42);
    let placements = resolve_parents(&batch, &MiloEntityMap::new(), ROOT);
    links.apply_placements(&batch, &placements, ROOT);
    assert_eq!(links.parent_of(5), Some(42));
}

#[test]
fn entity_map_set_get_remove() {
    let mut index = MiloEntityMap::default();
    assert_eq!(index.get_entity("a"), None);
    index.set_entity("a", 1);
    index.set_entity("b", 2);
    assert_eq!(index.get_entity("a"), Some(1));
    assert_eq!(index.get_entity("b"), Some(2));
    index.set_entity("a", 3);
    assert_eq!(index.get_entity("a"), Some(3));
    index.remove("a");
    assert_eq!(index.get_entity("a"), None);
    assert_eq!(index.get_entity("b"), Some(2));
    index.remove("missing");
    assert_eq!(index.get_entity("b"), Some(2));
}

#[test]
fn empty_batch_resolves_to_nothing() {
    let placements = resolve_parents(&vec![], &MiloEntityMap::new(), ROOT);
    assert!(placements.is_empty());
}

#[test]
fn top_level_character_objects_go_under_placer() {
    let dir = "alterna1".to_string();
    assert!(goes_under_placer(&"".to_string(), &dir));
    assert!(goes_under_placer(&"alterna1".to_string(), &dir));
    assert!(!goes_under_placer(&"bone_pelvis.mesh".to_string(), &dir));
}

#[test]
fn declared_parent_prefers_transform_parent() {
    let mut o = object(1, "body", "spine");
    o.custom_parent = Some("placer".to_string());
    assert_eq!(declared_parent_name(&o).map(|s| s.as_str()), Some("spine"));
    let mut p = object(2, "body", "body");
    p.custom_parent = Some("placer".to_string());
    assert_eq!(declared_parent_name(&p).map(|s| s.as_str()), Some("placer"));
    assert_eq!(declared_parent_name(&object(3, "A", "")), None);
}
