use subtake::themes::theme_entries;

fn with_std_iterators(text: &str) -> Vec<String> {
    let mut entries: Vec<String> = text
        .lines()
        .filter(|line| !line.trim_start().starts_with('#'))
        .flat_map(|line| line.split(','))
        .map(|entry| entry.split_whitespace().collect())
        .filter(|entry: &String| !entry.is_empty())
        .collect();
    entries.sort();
    entries
}

#[test]
fn entries_come_sorted_without_comments_or_spaces() {
    let text = "# SubTake tuned theme\nradius = 6, gap=4\n  # a note\naccent = #ff0000\n\n";
    assert_eq!(theme_entries(text), vec!["accent=#ff0000", "gap=4", "radius=6"]);
    assert_eq!(theme_entries(""), Vec::<String>::new());
    assert_eq!(theme_entries(",,\n , \n"), Vec::<String>::new());
    assert_eq!(theme_entries("b\r\na"), vec!["a", "b"]);
}

#[test]
fn the_listing_order_does_not_matter() {
    let one = "gap = 4\nradius = 6\naccent = red";
    let two = "# saved later\naccent=red, radius=6\n\ngap=4\n";
    assert_eq!(theme_entries(one), theme_entries(two));
    assert_ne!(theme_entries(one), theme_entries("gap = 5\nradius = 6\naccent = red"));
}

#[test]
fn entries_match_the_std_iterator_reading() {
    let samples = [
        "z=1\ny=2\nx=3",
        "a, b, a\n#c\n d # e",
        "\u{3000}#full-width space comment\nk=v",
        "é=1\ne=2\nE=3\n\u{1F600}=4",
        "one\n\n\ntwo,,three\r\n#four\n  five six  ",
        "ab\na\nabc\nb",
    ];
    for text in samples {
        assert_eq!(theme_entries(text), with_std_iterators(text), "{text:?}");
    }
}
