use pikaxe_bevy::names::EntitiesSortedByName;

#[test]
fn entries_sort_by_name() {
    let mut list = EntitiesSortedByName::new();
    list.add((1, "ui_loop".to_string()));
    list.add((2, "idle".to_string()));
    list.add((3, "win".to_string()));
    list.add((4, "idle".to_string()));
    list.sort();
    let names: Vec<&str> = list.entries().iter().map(|(_, n)| n.as_str()).collect();
    assert_eq!(names, vec!["idle", "idle", "ui_loop", "win"]);
    let ids: Vec<u64> = list.entries().iter().map(|(e, _)| *e).collect();
    assert_eq!(ids, vec![2, 4, 1, 3]);
}

#[test]
fn order_matches_string_order() {
    let words = ["Zed", "Lars Ümlaüt", "lars", "Lars", "", "Grim", "Axel Steel (Shirt)", "Axel"];
    let mut list = EntitiesSortedByName::new();
    for (i, w) in words.iter().enumerate() {
        list.add((i as u64, w.to_string()));
    }
    list.sort();
    let mut expected: Vec<String> = words.iter().map(|w| w.to_string()).collect();
    expected.sort();
    let got: Vec<String> = list.entries().iter().map(|(_, n)| n.clone()).collect();
    assert_eq!(got, expected);
}

#[test]
fn empty_list_sorts_to_empty() {
    let mut list = EntitiesSortedByName::new();
    list.sort();
    assert!(list.entries().is_empty());
}
