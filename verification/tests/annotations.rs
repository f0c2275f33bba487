use subtake::annotations::{step_number, Annotation};

const KINDS: [(&str, &str); 11] = [
    ("add-title", "Title"),
    ("add-lower-third", "Lower third"),
    ("add-label", "Label"),
    ("add-figure", "Arrow"),
    ("add-blur", "Blur"),
    ("add-pixelate", "Pixelate"),
    ("add-highlight", "Highlight"),
    ("add-spotlight", "Spotlight"),
    ("add-step", "Step"),
    ("add-image", "Image"),
    ("add-text", "Text"),
];

#[test]
fn every_kind_adds_an_annotation() {
    for (action, _) in KINDS {
        assert!(Annotation::from_action(action).is_some(), "{action}");
    }
    assert!(Annotation::from_action("add-zoom").is_none());
}

#[test]
fn each_kind_has_its_label_and_saved_type() {
    for (action, label) in KINDS {
        assert_eq!(Annotation::from_action(action).unwrap().label(), label);
    }
    assert_eq!(Annotation::Title.saved_type(), "text");
    assert_eq!(Annotation::Pixelate.saved_type(), "blur");
    assert_eq!(Annotation::Step.saved_type(), "step");
}

#[test]
fn steps_count_up() {
    let types = |list: &[&str]| list.iter().map(|s| s.to_string()).collect::<Vec<_>>();
    assert_eq!(step_number(&types(&[])), "1");
    assert_eq!(step_number(&types(&["step"])), "2");
    assert_eq!(step_number(&types(&["text", "step", "blur", "step"])), "3");
}
