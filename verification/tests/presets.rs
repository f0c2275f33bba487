use subtake::presets::{preset_field_index, unused_name, PresetList};

fn names(list: &[&str]) -> Vec<String> {
    list.iter().map(|s| s.to_string()).collect()
}

fn list(names_: &[&str], default: Option<&str>) -> PresetList {
    PresetList::from_lists(
        names(names_),
        names_.iter().map(|_| "look,motion".to_string()).collect(),
        default.map(str::to_string),
    )
    .unwrap()
}

fn one_with_parts(parts: &str) -> PresetList {
    PresetList::from_lists(names(&["A"]), vec![parts.to_string()], None).unwrap()
}

fn default_of(p: &PresetList) -> Option<&str> {
    p.default_name().map(String::as_str)
}

#[test]
fn lists_of_two_lengths_make_no_preset_list() {
    assert!(PresetList::from_lists(names(&["A", "B"]), names(&["look"]), None).is_none());
    let p = PresetList::from_lists(names(&["A"]), names(&["look"]), Some("A".into())).unwrap();
    assert_eq!(*p.names(), names(&["A"]));
    assert_eq!(*p.parts(), names(&["look"]));
    assert_eq!(default_of(&p), Some("A"));
}

#[test]
fn a_new_name_is_the_first_unused() {
    assert_eq!(unused_name(&names(&[]), "Preset"), "Preset");
    assert_eq!(unused_name(&names(&["Preset"]), "Preset"), "Preset 2");
    assert_eq!(unused_name(&names(&["Preset", "Preset 2", "Preset 4"]), "Preset"), "Preset 3");
    assert_eq!(unused_name(&names(&["Preset 2"]), "Preset"), "Preset");
    let many: Vec<String> = std::iter::once("x".to_string())
        .chain((2..=12).map(|n| format!("x {n}")))
        .collect();
    assert_eq!(unused_name(&many, "x"), "x 13");
}

#[test]
fn new_and_copied_presets_take_unused_names() {
    let mut p = list(&["Preset", "Talk"], None);
    assert_eq!(p.new_preset(), "Preset 2");
    assert_eq!(p.parts()[2], "look,motion,cursor,camera,captions,export");
    assert_eq!(p.duplicate(1), Some("Talk copy".to_string()));
    assert_eq!(p.duplicate(1), Some("Talk copy 2".to_string()));
    assert_eq!(p.parts()[4], "look,motion");
    assert_eq!(p.duplicate(9), None);
    assert_eq!(*p.names(), names(&["Preset", "Talk", "Preset 2", "Talk copy", "Talk copy 2"]));
}

#[test]
fn removing_the_default_leaves_none() {
    let mut p = list(&["A", "B", "C"], Some("B"));
    p.remove(0);
    assert_eq!(default_of(&p), Some("B"));
    p.remove(0);
    assert_eq!(default_of(&p), None);
    assert_eq!(*p.names(), names(&["C"]));
    assert_eq!(p.parts().len(), 1);
    p.remove(5);
    assert_eq!(*p.names(), names(&["C"]));
}

#[test]
fn the_default_turns_on_and_off() {
    let mut p = list(&["A", "B"], None);
    p.toggle_default(1);
    assert_eq!(default_of(&p), Some("B"));
    p.toggle_default(0);
    assert_eq!(default_of(&p), Some("A"));
    p.toggle_default(0);
    assert_eq!(default_of(&p), None);
    p.toggle_default(2);
    assert_eq!(default_of(&p), None);
}

#[test]
fn renaming_trims_refuses_clashes_and_follows_the_default() {
    let mut p = list(&["A", "B"], Some("A"));
    assert!(p.rename(0, "  Talk \n"));
    assert_eq!(*p.names(), names(&["Talk", "B"]));
    assert_eq!(default_of(&p), Some("Talk"));
    assert!(!p.rename(1, "Talk"));
    assert!(!p.rename(1, "   "));
    assert!(!p.rename(2, "C"));
    assert!(p.rename(1, "C"));
    assert_eq!(*p.names(), names(&["Talk", "C"]));
    assert_eq!(default_of(&p), Some("Talk"));
}

#[test]
fn a_name_field_key_names_its_preset() {
    assert_eq!(preset_field_index("preset.3.name"), Some(3));
    assert_eq!(preset_field_index("preset.0.name"), Some(0));
    assert_eq!(preset_field_index("preset.x.name"), None);
    assert_eq!(preset_field_index("preset.3.parts"), None);
    assert_eq!(preset_field_index("other.3.name"), None);
    assert_eq!(preset_field_index("preset..name"), None);
}

fn groups() -> Vec<String> {
    names(&["look", "motion", "cursor", "camera", "captions", "export"])
}

#[test]
fn a_part_turns_over_in_the_groups_order() {
    let mut p = one_with_parts("camera,look");
    p.toggle_part(0, "motion", &groups());
    assert_eq!(p.parts()[0], "look,motion,camera");
    p.toggle_part(0, "look", &groups());
    assert_eq!(p.parts()[0], "motion,camera");
    p.toggle_part(0, "camera", &groups());
    assert_eq!(p.parts()[0], "motion");
    p.toggle_part(0, "motion", &groups());
    assert_eq!(p.parts()[0], "motion");
    p.toggle_part(0, "extra", &groups());
    assert_eq!(p.parts()[0], "extra,motion");
    let mut p = one_with_parts(",,export,,look,");
    p.toggle_part(0, "cursor", &groups());
    assert_eq!(p.parts()[0], "look,cursor,export");
    p.toggle_part(3, "look", &groups());
    assert_eq!(p.parts()[0], "look,cursor,export");
}

#[test]
fn a_name_field_key_reads_back() {
    for index in [0usize, 5, 123, usize::MAX] {
        assert_eq!(preset_field_index(&format!("preset.{index}.name")), Some(index));
    }
}
