use subtake::library::{file_kind, recent_line};

#[test]
fn a_recent_tile_says_what_it_is_and_when() {
    assert_eq!(file_kind(Some("recordly")), "Project");
    assert_eq!(file_kind(Some("openscreen")), "Project");
    assert_eq!(file_kind(Some("mp4")), "Video");
    assert_eq!(file_kind(None), "Video");
    assert_eq!(recent_line("1:24", Some("2m ago")), "1:24 · 2m ago");
    assert_eq!(recent_line("Video", None), "Video");
}
