use subtake::values::FieldValues;

#[test]
fn a_field_reads_back_what_was_set() {
    let mut values = FieldValues::new();
    assert_eq!(values.get("prefs.appearance", "dark"), "dark");
    values.set("prefs.appearance", "light");
    assert_eq!(values.get("prefs.appearance", "dark"), "light");
    values.set("padding.all", "20");
    values.set("prefs.appearance", "system");
    assert_eq!(values.get("prefs.appearance", "dark"), "system");
    assert_eq!(values.get("padding.all", "0"), "20");
    assert_eq!(values.get("missing", ""), "");
    assert_eq!(values.entries.len(), 2);
    assert_eq!(values.entries[0].0, "prefs.appearance");
}
