use subtake::export::{
    check_destination, same_path, export_extension, export_file_name, gif_loop_argument, numbered_file_name, output_name, preset_height,
    ExportError, ExportSettings,
};
use subtake::settings::{EditorSettings, Setting};

fn project(entries: &[(&str, Setting)]) -> EditorSettings {
    let mut p = EditorSettings::new();
    for (key, value) in entries {
        p.set(key, value.clone());
    }
    p
}

#[test]
fn defaults_fill_every_unset_setting() {
    let s = ExportSettings::from_project(&EditorSettings::new());
    assert_eq!((s.width, s.height, s.fps), (1920, 1080, 30));
    assert!(!s.gif && s.gif_loop && !s.hardware);
    assert_eq!(s.quality, "high");
    let d = ExportSettings::default();
    assert_eq!((d.width, d.height, d.fps, d.gif, d.gif_loop, d.hardware), (1920, 1080, 30, false, true, false));
    assert_eq!(d.quality, "high");
}

#[test]
fn a_gif_reads_its_own_frame_rate() {
    let p = project(&[
        ("exportFormat", Setting::Text("gif".into())),
        ("mp4FrameRate", Setting::Whole(60)),
    ]);
    let s = ExportSettings::from_project(&p);
    assert!(s.gif);
    assert_eq!(s.fps, 15);
    let p = project(&[
        ("exportFormat", Setting::Text("gif".into())),
        ("gifFrameRate", Setting::Whole(24)),
    ]);
    assert_eq!(ExportSettings::from_project(&p).fps, 24);
}

#[test]
fn a_setting_of_another_kind_reads_as_unset() {
    let p = project(&[
        ("nativeExportWidth", Setting::Text("1280".into())),
        ("gifLoop", Setting::Whole(0)),
        ("nativeExportQuality", Setting::Flag(true)),
    ]);
    let s = ExportSettings::from_project(&p);
    assert_eq!(s.width, 1920);
    assert!(s.gif_loop);
    assert_eq!(s.quality, "high");
}

#[test]
fn media_size_stands_in_until_the_project_sets_both_sides() {
    let p = project(&[("nativeExportWidth", Setting::Whole(1280))]);
    let s = ExportSettings::for_media(&p, (640, 360));
    assert_eq!((s.width, s.height), (640, 360));
    let p = project(&[
        ("nativeExportWidth", Setting::Whole(1280)),
        ("nativeExportHeight", Setting::Other),
    ]);
    let s = ExportSettings::for_media(&p, (640, 360));
    assert_eq!((s.width, s.height), (1280, 1080));
}

#[test]
fn stored_settings_read_back() {
    let mut p = project(&[
        ("mp4FrameRate", Setting::Whole(60)),
        ("wallpaper", Setting::Text("#000000".into())),
    ]);
    let s = ExportSettings {
        width: 1280,
        height: 720,
        fps: 12,
        gif: true,
        gif_loop: false,
        quality: "medium".into(),
        hardware: true,
    };
    s.store(&mut p);
    let back = ExportSettings::from_project(&p);
    assert_eq!((back.width, back.height, back.fps), (1280, 720, 12));
    assert!(back.gif && !back.gif_loop && back.hardware);
    assert_eq!(back.quality, "medium");
    let media = ExportSettings::for_media(&p, (10, 10));
    assert_eq!((media.width, media.height), (1280, 720));
    assert_eq!(p.number("mp4FrameRate", 0), 60);
    assert_eq!(p.text("wallpaper", ""), "#000000");
    assert_eq!(p.text("exportFormat", ""), "gif");
}

#[test]
fn validation_reports_the_first_failed_check() {
    let ok = ExportSettings::default();
    assert_eq!(ok.validate(false), Ok(()));
    let mut s = ok.clone();
    s.hardware = true;
    assert_eq!(s.validate(false), Err(ExportError::HardwareUnavailable));
    assert_eq!(s.validate(true), Ok(()));
    s.width = 0;
    assert_eq!(s.validate(false), Err(ExportError::HardwareUnavailable));
    assert_eq!(s.validate(true), Err(ExportError::InvalidDimensions));
    let mut s = ok.clone();
    s.height = 8194;
    assert_eq!(s.validate(false), Err(ExportError::InvalidDimensions));
    s.height = 8192;
    assert_eq!(s.validate(false), Ok(()));
    s.width = 1281;
    assert_eq!(s.validate(false), Err(ExportError::OddDimensions));
    s.width = 1280;
    s.fps = 0;
    assert_eq!(s.validate(false), Err(ExportError::InvalidFrameRate));
    s.fps = 121;
    assert_eq!(s.validate(false), Err(ExportError::InvalidFrameRate));
    s.fps = 120;
    assert_eq!(s.validate(false), Ok(()));
    assert_eq!(ExportError::OddDimensions.message(), "MP4 dimensions must be even");
    assert_eq!(ExportError::InvalidFrameRate.message(), "Frame rate must be 1–120");
}

#[test]
fn encoder_arguments_follow_size_rate_and_quality() {
    let s = ExportSettings::default();
    assert_eq!(
        s.encoder_arguments(true),
        [
            "-v", "error", "-y", "-f", "rawvideo", "-pix_fmt", "rgba", "-s", "1920x1080", "-r",
            "30", "-i", "pipe:0", "-an", "-c:v", "libx264", "-preset", "fast", "-crf", "18",
            "-pix_fmt", "yuv420p", "-movflags", "+faststart"
        ]
    );
    let mut s = ExportSettings { width: 720, height: 480, fps: 24, quality: "lossless".into(), ..ExportSettings::default() };
    let args = s.encoder_arguments(false);
    assert_eq!(args[8], "720x480");
    assert_eq!(args[10], "24");
    assert_eq!(args[19], "0");
    s.hardware = true;
    s.quality = "medium".into();
    let args = s.encoder_arguments(true);
    assert_eq!(&args[14..18], ["-c:v", "h264_videotoolbox", "-b:v", "10M"]);
    assert_eq!(s.encoder_arguments(false)[19], "23");
    assert_eq!(output_name(true), "output.gif");
    assert_eq!(output_name(false), "output.mp4");
    assert_eq!(gif_loop_argument(true), "0");
    assert_eq!(gif_loop_argument(false), "-1");
}

#[test]
fn an_export_preset_keeps_an_even_height_within_the_source() {
    assert_eq!(preset_height(Some(720), 1080), 720);
    assert_eq!(preset_height(Some(1080), 720), 720);
    assert_eq!(preset_height(None, 1081), 1080);
    assert_eq!(preset_height(Some(720), 1), 2);
    assert_eq!(preset_height(None, 0), 2);
}

#[test]
fn an_export_is_named_after_its_recording_and_format() {
    assert_eq!(export_extension(true, true), "png");
    assert_eq!(export_extension(false, true), "gif");
    assert_eq!(export_extension(false, false), "mp4");
    assert_eq!(export_file_name(Some("Recording-1"), "mp4"), "Recording-1.mp4");
    assert_eq!(export_file_name(None, "gif"), "SubTake.gif");
    assert_eq!(numbered_file_name("Recording-1", 2, "mp4"), "Recording-1 2.mp4");
    assert_eq!(numbered_file_name("clip", 10, ""), "clip 10");
    assert_eq!(numbered_file_name("notes", 2, ""), "notes 2");
}

#[test]
fn storing_keeps_the_older_export_settings() {
    let mut p = project(&[
        ("exportQuality", Setting::Text("good".into())),
        ("exportEncodingMode", Setting::Text("balanced".into())),
        ("wallpaper", Setting::Text("wallpapers/dusk.jpg".into())),
        ("nativeExportWidth", Setting::Whole(640)),
    ]);
    let mut s = ExportSettings::default();
    s.width = 1280;
    s.store(&mut p);
    assert!(matches!(p.get("exportQuality"), Some(Setting::Text(t)) if t == "good"));
    assert!(matches!(p.get("exportEncodingMode"), Some(Setting::Text(t)) if t == "balanced"));
    assert!(matches!(p.get("wallpaper"), Some(Setting::Text(t)) if t == "wallpapers/dusk.jpg"));
    assert!(matches!(p.get("nativeExportWidth"), Some(Setting::Whole(1280))));
}

#[test]
fn export_refuses_to_write_over_its_source() {
    assert!(same_path("/videos/take.mp4", "/videos/take.mp4"));
    assert!(same_path("/videos//take.mp4", "/videos/take.mp4"));
    assert!(!same_path("/videos/take.mp4", "/videos/take 2.mp4"));
    let refused = Err(ExportError::OverwritesSource);
    assert_eq!(check_destination("a.mp4", "a.mp4", "/v/a.mp4", None), refused);
    assert_eq!(check_destination("a.mp4", "./a.mp4", "/v/a.mp4", Some("/v/a.mp4")), refused);
    assert_eq!(check_destination("a.mp4", "b.mp4", "/v/a.mp4", Some("/v/b.mp4")), Ok(()));
    assert_eq!(check_destination("a.mp4", "b.mp4", "/v/a.mp4", None), Ok(()));
    assert_eq!(ExportError::OverwritesSource.message(), "Export cannot overwrite the source video");
}
