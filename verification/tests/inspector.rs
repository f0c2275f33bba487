use subtake::export::ExportSettings;
use subtake::commands::NumberError;
use subtake::inspector::{
    countdown_seconds, is_known_appearance, is_plain_text_field, parse_flag, parse_signed,
    parse_whole, ExportEdit, FieldError, FieldTarget, LauncherOption,
};
use subtake::settings::EditorSettings;

fn target(key: &str) -> Result<FieldTarget, FieldError> {
    FieldTarget::parse(key)
}

#[test]
fn a_field_key_names_what_it_edits() {
    assert_eq!(target("padding.all"), Ok(FieldTarget::Padding(true)));
    assert_eq!(target("padding.linked"), Ok(FieldTarget::Padding(false)));
    assert_eq!(target("library.query"), Ok(FieldTarget::LibraryQuery));
    assert_eq!(target("word.3.text"), Ok(FieldTarget::Word(3, "text".into())));
    assert_eq!(target("word.3.startMs"), Ok(FieldTarget::Word(3, "startMs".into())));
    assert_eq!(target("word.3"), Err(FieldError::InvalidWordEdit));
    assert_eq!(target("word.x.text"), Err(FieldError::BadIndex(NumberError::InvalidDigit)));
    assert_eq!(target("preset.2.name"), Ok(FieldTarget::PresetName("2".into())));
    assert_eq!(target("shortcut.split-clip"), Ok(FieldTarget::Shortcut("split-clip".into())));
    assert_eq!(target("prefs.language"), Ok(FieldTarget::Language));
    assert_eq!(target("prefs.appearance"), Ok(FieldTarget::Appearance));
    assert_eq!(target("prefs.auto_apply_zooms"), Ok(FieldTarget::AutoApplyZooms));
    assert_eq!(target("prefs.countdown_seconds"), Ok(FieldTarget::Preference));
    assert_eq!(target("export.width"), Ok(FieldTarget::Export("width".into())));
    assert_eq!(target("region.style.color"), Ok(FieldTarget::Region("style.color".into())));
    assert_eq!(target("webcam.cropRegion.x"), Ok(FieldTarget::Project("webcam".into(), "cropRegion.x".into())));
    assert_eq!(target("wallpaper"), Ok(FieldTarget::Project("wallpaper".into(), String::new())));
    assert_eq!(target("preset.2"), Ok(FieldTarget::Project("preset".into(), "2".into())));
    assert_eq!(FieldError::InvalidWordEdit.message(), "Invalid word edit");
}

#[test]
fn some_fields_keep_their_text_as_written() {
    assert!(is_plain_text_field("wallpaper"));
    assert!(is_plain_text_field("region.style.textAlign"));
    assert!(is_plain_text_field("autoCaptionSettings.fontFamily"));
    assert!(!is_plain_text_field("padding.all"));
    assert!(!is_plain_text_field("region.style"));
}

#[test]
fn preferences_read_their_text() {
    assert_eq!(parse_whole("12"), Some(12));
    assert_eq!(parse_whole("4294967295"), Some(u32::MAX));
    assert_eq!(parse_whole("4294967296"), None);
    assert_eq!(parse_whole("-1"), None);
    assert_eq!(countdown_seconds("3"), Ok(3));
    assert_eq!(countdown_seconds("25"), Ok(10));
    assert_eq!(countdown_seconds("ten"), Err(FieldError::BadNumber(NumberError::InvalidDigit)));
    assert_eq!(countdown_seconds(""), Err(FieldError::BadNumber(NumberError::Empty)));
    assert_eq!(FieldError::BadNumber(NumberError::TooLarge).message(), "number too large to fit in target type");
    assert_eq!(parse_flag("true"), Some(true));
    assert_eq!(parse_flag("false"), Some(false));
    assert_eq!(parse_flag("True"), None);
    assert!(is_known_appearance("dark"));
    assert!(is_known_appearance("system"));
    assert!(!is_known_appearance("sepia"));
}

#[test]
fn an_export_field_edit_changes_that_setting_alone() {
    let mut s = ExportSettings::default();
    assert_eq!(s.edit("width", "1280"), Ok(ExportEdit::Stored));
    assert_eq!(s.edit("height", "720"), Ok(ExportEdit::Stored));
    assert_eq!(s.edit("fps", "60"), Ok(ExportEdit::Stored));
    assert_eq!((s.width, s.height, s.fps), (1280, 720, 60));
    assert_eq!(s.edit("width", "wide"), Err(FieldError::BadNumber(NumberError::InvalidDigit)));
    assert_eq!(s.width, 1280);
    assert_eq!(s.edit("format", "gif"), Ok(ExportEdit::Video));
    assert!(s.gif);
    assert_eq!(s.edit("gif", "false"), Ok(ExportEdit::Stored));
    assert!(!s.gif);
    assert_eq!(s.edit("loop", "false"), Ok(ExportEdit::Stored));
    assert!(!s.gif_loop);
    assert_eq!(s.edit("hardware", "true"), Ok(ExportEdit::Stored));
    assert!(s.hardware);
    assert_eq!(s.edit("quality", "lossless"), Ok(ExportEdit::Stored));
    assert_eq!(s.quality, "lossless");
    assert_eq!(s.edit("nothing", "1"), Ok(ExportEdit::Stored));
    assert_eq!(s.edit("format", "frame"), Ok(ExportEdit::StillFrame));
    assert!(!s.gif);
    assert_eq!(s.edit("resolution", "720"), Ok(ExportEdit::Resolution(Some(720))));
    assert_eq!(s.edit("resolution", "source"), Ok(ExportEdit::Resolution(None)));
    assert_eq!((s.width, s.height), (1280, 720));
    let mut project = EditorSettings::new();
    s.store(&mut project);
    let read = ExportSettings::from_project(&project);
    assert_eq!((read.width, read.height, read.fps, read.gif, read.gif_loop, read.hardware), (1280, 720, 60, false, false, true));
    assert_eq!(read.quality, "lossless");
}

#[test]
fn signed_numbers_read_as_str_parse_reads_them() {
    for text in ["0", "-0", "+0", "17", "-17", "+17", "2147483647", "2147483648", "-2147483648", "-2147483649", "", "-", "+", "-+1", "+-1", "1-", "x"] {
        assert_eq!(parse_signed(text), text.parse::<i32>().ok(), "{text:?}");
    }
}

#[test]
fn recorder_options_read_their_text() {
    let option = |k: &str, v: &str| LauncherOption::parse(k, v, 3);
    assert_eq!(option("source", "2"), LauncherOption::Source(2));
    assert_eq!(option("source", "-0"), LauncherOption::Source(0));
    assert_eq!(option("source", "3"), LauncherOption::Ignored);
    assert_eq!(option("source", "-1"), LauncherOption::Ignored);
    assert_eq!(option("source", "x"), LauncherOption::Ignored);
    assert_eq!(option("camera", "true"), LauncherOption::Camera(true));
    assert_eq!(option("microphone", "no"), LauncherOption::Microphone(false));
    assert_eq!(option("system-audio", "true"), LauncherOption::SystemAudio(true));
    assert_eq!(option("camera-device", "2"), LauncherOption::CameraDevice(2));
    assert_eq!(option("microphone-device", "none"), LauncherOption::MicrophoneDevice(0));
    assert_eq!(option("countdown", "30"), LauncherOption::Countdown(10));
    assert_eq!(option("countdown", "-1"), LauncherOption::Ignored);
    assert_eq!(option("frame-rate", "60"), LauncherOption::Setting);
}

#[test]
fn a_word_row_key_reads_back() {
    for (index, field) in [(0usize, "text"), (12, "startMs"), (3, "end.Ms"), (7, "")] {
        let key = format!("word.{index}.{field}");
        assert_eq!(FieldTarget::parse(&key), Ok(FieldTarget::Word(index, field.to_string())), "{key}");
    }
}
