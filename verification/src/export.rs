//! Export settings: how they are read from and written to a project, which
//! of them an export accepts, and the video encoder's arguments they give.

use vstd::prelude::*;
use crate::settings::{EditorSettings, Setting, SettingView, lookup, assign, number_of, text_of, flag_of, lemma_assign_lookup};
use crate::text::{decimal, push_decimal, push_char, push_str, str_eq, texts};

verus! {

/// What an export writes: its size, frame rate and format, whether a GIF
/// loops, the quality named, and whether the hardware encoder is asked for.
#[derive(Clone, Debug)]
pub struct ExportSettings {
    pub width: u32,
    pub height: u32,
    pub fps: u32,
    pub gif: bool,
    pub gif_loop: bool,
    pub quality: String,
    pub hardware: bool,
}

/// `ExportSettings` with its quality as characters.
pub struct ExportView {
    pub width: u32,
    pub height: u32,
    pub fps: u32,
    pub gif: bool,
    pub gif_loop: bool,
    pub quality: Seq<char>,
    pub hardware: bool,
}

impl View for ExportSettings {
    type V = ExportView;

    open spec fn view(&self) -> ExportView {
        ExportView {
            width: self.width,
            height: self.height,
            fps: self.fps,
            gif: self.gif,
            gif_loop: self.gif_loop,
            quality: self.quality@,
            hardware: self.hardware,
        }
    }
}

/// The key a frame rate is kept under: one for GIF, one for MP4.
pub open spec fn frame_rate_key(gif: bool) -> Seq<char> {
    if gif { "gifFrameRate"@ } else { "mp4FrameRate"@ }
}

/// The settings a project holds: 1920 × 1080 at 30 fps, or 15 for a GIF,
/// looping, "high" quality and software encoding, for each one not set.
pub open spec fn project_export(e: Seq<(Seq<char>, SettingView)>) -> ExportView {
    let gif = text_of(e, "exportFormat"@, "mp4"@) == "gif"@;
    ExportView {
        width: number_of(e, "nativeExportWidth"@, 1920),
        height: number_of(e, "nativeExportHeight"@, 1080),
        fps: number_of(e, frame_rate_key(gif), if gif { 15 } else { 30 }),
        gif,
        gif_loop: flag_of(e, "gifLoop"@, true),
        quality: text_of(e, "nativeExportQuality"@, "high"@),
        hardware: flag_of(e, "nativeExportHardware"@, false),
    }
}

/// `project_export`, with the size the media gives, `legacy`, where the
/// project sets no width or no height of its own.
pub open spec fn media_export(e: Seq<(Seq<char>, SettingView)>, legacy: (u32, u32)) -> ExportView {
    let s = project_export(e);
    if lookup(e, "nativeExportWidth"@) is None || lookup(e, "nativeExportHeight"@) is None {
        ExportView { width: legacy.0, height: legacy.1, ..s }
    } else {
        s
    }
}

/// The settings `s` written over `e`: the size, the frame rate under its
/// format's key, the format as "gif" or "mp4", the loop, the quality and the
/// encoder.
pub open spec fn stored(s: ExportView, e: Seq<(Seq<char>, SettingView)>) -> Seq<(Seq<char>, SettingView)> {
    let e1 = assign(e, "nativeExportWidth"@, SettingView::Whole(s.width));
    let e2 = assign(e1, "nativeExportHeight"@, SettingView::Whole(s.height));
    let e3 = assign(e2, frame_rate_key(s.gif), SettingView::Whole(s.fps));
    let e4 = assign(e3, "exportFormat"@, SettingView::Text(if s.gif { "gif"@ } else { "mp4"@ }));
    let e5 = assign(e4, "gifLoop"@, SettingView::Flag(s.gif_loop));
    let e6 = assign(e5, "nativeExportQuality"@, SettingView::Text(s.quality));
    assign(e6, "nativeExportHardware"@, SettingView::Flag(s.hardware))
}

impl Default for ExportSettings {
    fn default() -> (r: Self)
        ensures
            r@ == (ExportView {
                width: 1920,
                height: 1080,
                fps: 30,
                gif: false,
                gif_loop: true,
                quality: "high"@,
                hardware: false,
            }),
    {
        ExportSettings {
            width: 1920,
            height: 1080,
            fps: 30,
            gif: false,
            gif_loop: true,
            quality: "high".to_owned(),
            hardware: false,
        }
    }
}

impl ExportSettings {
    /// The export settings `project` holds, with the defaults of
    /// `project_export` for those it does not.
    pub fn from_project(project: &EditorSettings) -> (r: Self)
        ensures
            r@ == project_export(project@),
    {
        let format = project.text("exportFormat", "mp4");
        let gif = str_eq(format.as_str(), "gif");
        let fps = if gif {
            project.number("gifFrameRate", 15)
        } else {
            project.number("mp4FrameRate", 30)
        };
        ExportSettings {
            width: project.number("nativeExportWidth", 1920),
            height: project.number("nativeExportHeight", 1080),
            fps,
            gif,
            gif_loop: project.flag("gifLoop", true),
            quality: project.text("nativeExportQuality", "high"),
            hardware: project.flag("nativeExportHardware", false),
        }
    }

    /// The settings for exporting the media at hand: those of the project,
    /// with the size `legacy` (what the project's older size settings give
    /// for the media) unless the project sets both a width and a height.
    pub fn for_media(project: &EditorSettings, legacy: (u32, u32)) -> (r: Self)
        ensures
            r@ == media_export(project@, legacy),
    {
        let mut settings = Self::from_project(project);
        if !project.contains_key("nativeExportWidth") || !project.contains_key("nativeExportHeight") {
            settings.width = legacy.0;
            settings.height = legacy.1;
        }
        settings
    }

    /// Writes these settings into `project`, as `stored` says.
    pub fn store(&self, project: &mut EditorSettings)
        ensures
            final(project)@ == stored(self@, old(project)@),
    {
        project.set("nativeExportWidth", Setting::Whole(self.width));
        project.set("nativeExportHeight", Setting::Whole(self.height));
        if self.gif {
            project.set("gifFrameRate", Setting::Whole(self.fps));
        } else {
            project.set("mp4FrameRate", Setting::Whole(self.fps));
        }
        project.set("exportFormat", Setting::Text(if self.gif { "gif".to_owned() } else { "mp4".to_owned() }));
        project.set("gifLoop", Setting::Flag(self.gif_loop));
        project.set("nativeExportQuality", Setting::Text(self.quality.clone()));
        project.set("nativeExportHardware", Setting::Flag(self.hardware));
    }
}

/// The keys the export settings are kept under are all different.
proof fn lemma_keys_differ()
    ensures
        "nativeExportWidth"@ != "nativeExportHeight"@,
        "nativeExportWidth"@ != "gifFrameRate"@,
        "nativeExportWidth"@ != "mp4FrameRate"@,
        "nativeExportWidth"@ != "exportFormat"@,
        "nativeExportWidth"@ != "gifLoop"@,
        "nativeExportWidth"@ != "nativeExportQuality"@,
        "nativeExportWidth"@ != "nativeExportHardware"@,
        "nativeExportHeight"@ != "gifFrameRate"@,
        "nativeExportHeight"@ != "mp4FrameRate"@,
        "nativeExportHeight"@ != "exportFormat"@,
        "nativeExportHeight"@ != "gifLoop"@,
        "nativeExportHeight"@ != "nativeExportQuality"@,
        "nativeExportHeight"@ != "nativeExportHardware"@,
        "gifFrameRate"@ != "exportFormat"@,
        "gifFrameRate"@ != "gifLoop"@,
        "gifFrameRate"@ != "nativeExportQuality"@,
        "gifFrameRate"@ != "nativeExportHardware"@,
        "mp4FrameRate"@ != "exportFormat"@,
        "mp4FrameRate"@ != "gifLoop"@,
        "mp4FrameRate"@ != "nativeExportQuality"@,
        "mp4FrameRate"@ != "nativeExportHardware"@,
        "exportFormat"@ != "gifLoop"@,
        "exportFormat"@ != "nativeExportQuality"@,
        "exportFormat"@ != "nativeExportHardware"@,
        "gifLoop"@ != "nativeExportQuality"@,
        "gifLoop"@ != "nativeExportHardware"@,
        "nativeExportQuality"@ != "nativeExportHardware"@,
        "gif"@ != "mp4"@,
{
    reveal_strlit("nativeExportWidth");
    reveal_strlit("nativeExportHeight");
    reveal_strlit("gifFrameRate");
    reveal_strlit("mp4FrameRate");
    reveal_strlit("exportFormat");
    reveal_strlit("gifLoop");
    reveal_strlit("nativeExportQuality");
    reveal_strlit("nativeExportHardware");
    reveal_strlit("gif");
    reveal_strlit("mp4");
    assert("nativeExportWidth"@.len() != "nativeExportHeight"@.len());
    assert("nativeExportWidth"@[0] != "gifFrameRate"@[0]);
    assert("nativeExportWidth"@[0] != "mp4FrameRate"@[0]);
    assert("nativeExportWidth"@[0] != "exportFormat"@[0]);
    assert("nativeExportWidth"@[0] != "gifLoop"@[0]);
    assert("nativeExportWidth"@[12] != "nativeExportQuality"@[12]);
    assert("nativeExportWidth"@[12] != "nativeExportHardware"@[12]);
    assert("nativeExportHeight"@[0] != "gifFrameRate"@[0]);
    assert("nativeExportHeight"@[0] != "mp4FrameRate"@[0]);
    assert("nativeExportHeight"@[0] != "exportFormat"@[0]);
    assert("nativeExportHeight"@[0] != "gifLoop"@[0]);
    assert("nativeExportHeight"@[12] != "nativeExportQuality"@[12]);
    assert("nativeExportHeight"@[13] != "nativeExportHardware"@[13]);
    assert("gifFrameRate"@[0] != "exportFormat"@[0]);
    assert("gifFrameRate"@.len() != "gifLoop"@.len());
    assert("gifFrameRate"@[0] != "nativeExportQuality"@[0]);
    assert("gifFrameRate"@[0] != "nativeExportHardware"@[0]);
    assert("mp4FrameRate"@[0] != "exportFormat"@[0]);
    assert("mp4FrameRate"@[0] != "gifLoop"@[0]);
    assert("mp4FrameRate"@[0] != "nativeExportQuality"@[0]);
    assert("mp4FrameRate"@[0] != "nativeExportHardware"@[0]);
    assert("exportFormat"@[0] != "gifLoop"@[0]);
    assert("exportFormat"@[0] != "nativeExportQuality"@[0]);
    assert("exportFormat"@[0] != "nativeExportHardware"@[0]);
    assert("gifLoop"@[0] != "nativeExportQuality"@[0]);
    assert("gifLoop"@[0] != "nativeExportHardware"@[0]);
    assert("nativeExportQuality"@.len() != "nativeExportHardware"@.len());
    assert("gif"@[0] != "mp4"@[0]);
}

/// Settings written into a project read back as they were: `from_project`
/// after `store` gives the settings stored, whatever the project held.
pub proof fn law_store_then_read(s: ExportView, e: Seq<(Seq<char>, SettingView)>)
    ensures
        project_export(stored(s, e)) == s,
{
    lemma_stored_lookups(s, e);
}

/// What each key holds after `stored`.
proof fn lemma_stored_lookups(s: ExportView, e: Seq<(Seq<char>, SettingView)>)
    ensures
        project_export(stored(s, e)) == s,
        lookup(stored(s, e), "nativeExportWidth"@) == Some(SettingView::Whole(s.width)),
        lookup(stored(s, e), "nativeExportHeight"@) == Some(SettingView::Whole(s.height)),
{
    lemma_keys_differ();
    let k = frame_rate_key(s.gif);
    let e1 = assign(e, "nativeExportWidth"@, SettingView::Whole(s.width));
    let e2 = assign(e1, "nativeExportHeight"@, SettingView::Whole(s.height));
    let e3 = assign(e2, k, SettingView::Whole(s.fps));
    let format = if s.gif { "gif"@ } else { "mp4"@ };
    let e4 = assign(e3, "exportFormat"@, SettingView::Text(format));
    let e5 = assign(e4, "gifLoop"@, SettingView::Flag(s.gif_loop));
    let e6 = assign(e5, "nativeExportQuality"@, SettingView::Text(s.quality));
    let e7 = assign(e6, "nativeExportHardware"@, SettingView::Flag(s.hardware));
    // Each key is read after the last write to it; the writes after it are
    // to other keys.
    lemma_assign_lookup(e, "nativeExportWidth"@, SettingView::Whole(s.width), "nativeExportWidth"@);
    lemma_assign_lookup(e1, "nativeExportHeight"@, SettingView::Whole(s.height), "nativeExportWidth"@);
    lemma_assign_lookup(e1, "nativeExportHeight"@, SettingView::Whole(s.height), "nativeExportHeight"@);
    lemma_assign_lookup(e2, k, SettingView::Whole(s.fps), "nativeExportWidth"@);
    lemma_assign_lookup(e2, k, SettingView::Whole(s.fps), "nativeExportHeight"@);
    lemma_assign_lookup(e2, k, SettingView::Whole(s.fps), k);
    let keys = seq!["nativeExportWidth"@, "nativeExportHeight"@, k];
    assert forall|i: int| 0 <= i < 3 implies
        lookup(e7, #[trigger] keys[i]) == lookup(e3, keys[i]) by {
        lemma_assign_lookup(e3, "exportFormat"@, SettingView::Text(format), keys[i]);
        lemma_assign_lookup(e4, "gifLoop"@, SettingView::Flag(s.gif_loop), keys[i]);
        lemma_assign_lookup(e5, "nativeExportQuality"@, SettingView::Text(s.quality), keys[i]);
        lemma_assign_lookup(e6, "nativeExportHardware"@, SettingView::Flag(s.hardware), keys[i]);
    }
    assert(lookup(e7, keys[0]) == lookup(e3, keys[0]));
    assert(lookup(e7, keys[1]) == lookup(e3, keys[1]));
    assert(lookup(e7, keys[2]) == lookup(e3, keys[2]));
    lemma_assign_lookup(e3, "exportFormat"@, SettingView::Text(format), "exportFormat"@);
    lemma_assign_lookup(e4, "gifLoop"@, SettingView::Flag(s.gif_loop), "exportFormat"@);
    lemma_assign_lookup(e5, "nativeExportQuality"@, SettingView::Text(s.quality), "exportFormat"@);
    lemma_assign_lookup(e6, "nativeExportHardware"@, SettingView::Flag(s.hardware), "exportFormat"@);
    lemma_assign_lookup(e4, "gifLoop"@, SettingView::Flag(s.gif_loop), "gifLoop"@);
    lemma_assign_lookup(e5, "nativeExportQuality"@, SettingView::Text(s.quality), "gifLoop"@);
    lemma_assign_lookup(e6, "nativeExportHardware"@, SettingView::Flag(s.hardware), "gifLoop"@);
    lemma_assign_lookup(e5, "nativeExportQuality"@, SettingView::Text(s.quality), "nativeExportQuality"@);
    lemma_assign_lookup(e6, "nativeExportHardware"@, SettingView::Flag(s.hardware), "nativeExportQuality"@);
    lemma_assign_lookup(e6, "nativeExportHardware"@, SettingView::Flag(s.hardware), "nativeExportHardware"@);
    assert(text_of(e7, "exportFormat"@, "mp4"@) == format);
    assert((format == "gif"@) == s.gif);
}

/// Once settings are stored, the project sets its own size, so the
/// settings for any media are those stored too.
pub proof fn law_stored_settings_hold_for_media(s: ExportView, e: Seq<(Seq<char>, SettingView)>, legacy: (u32, u32))
    ensures
        media_export(stored(s, e), legacy) == s,
{
    lemma_stored_lookups(s, e);
}

/// The keys that storing export settings writes.
pub open spec fn export_key(k: Seq<char>, gif: bool) -> bool {
    k == "nativeExportWidth"@ || k == "nativeExportHeight"@ || k == frame_rate_key(gif)
        || k == "exportFormat"@ || k == "gifLoop"@ || k == "nativeExportQuality"@
        || k == "nativeExportHardware"@
}

/// Storing export settings leaves every other setting of the project as it
/// was, among them the older `exportQuality` and `exportEncodingMode`.
pub proof fn law_store_keeps_other_settings(s: ExportView, e: Seq<(Seq<char>, SettingView)>, other: Seq<char>)
    requires
        !export_key(other, s.gif),
    ensures
        lookup(stored(s, e), other) == lookup(e, other),
{
    let e1 = assign(e, "nativeExportWidth"@, SettingView::Whole(s.width));
    let e2 = assign(e1, "nativeExportHeight"@, SettingView::Whole(s.height));
    let e3 = assign(e2, frame_rate_key(s.gif), SettingView::Whole(s.fps));
    let e4 = assign(e3, "exportFormat"@, SettingView::Text(if s.gif { "gif"@ } else { "mp4"@ }));
    let e5 = assign(e4, "gifLoop"@, SettingView::Flag(s.gif_loop));
    let e6 = assign(e5, "nativeExportQuality"@, SettingView::Text(s.quality));
    lemma_assign_lookup(e, "nativeExportWidth"@, SettingView::Whole(s.width), other);
    lemma_assign_lookup(e1, "nativeExportHeight"@, SettingView::Whole(s.height), other);
    lemma_assign_lookup(e2, frame_rate_key(s.gif), SettingView::Whole(s.fps), other);
    lemma_assign_lookup(e3, "exportFormat"@, SettingView::Text(if s.gif { "gif"@ } else { "mp4"@ }), other);
    lemma_assign_lookup(e4, "gifLoop"@, SettingView::Flag(s.gif_loop), other);
    lemma_assign_lookup(e5, "nativeExportQuality"@, SettingView::Text(s.quality), other);
    lemma_assign_lookup(e6, "nativeExportHardware"@, SettingView::Flag(s.hardware), other);
}

/// The older export settings are not among the keys that storing writes.
pub proof fn lemma_older_keys_untouched(gif: bool)
    ensures
        !export_key("exportQuality"@, gif),
        !export_key("exportEncodingMode"@, gif),
{
    reveal_strlit("exportQuality");
    reveal_strlit("exportEncodingMode");
    reveal_strlit("nativeExportWidth");
    reveal_strlit("nativeExportHeight");
    reveal_strlit("gifFrameRate");
    reveal_strlit("mp4FrameRate");
    reveal_strlit("exportFormat");
    reveal_strlit("gifLoop");
    reveal_strlit("nativeExportQuality");
    reveal_strlit("nativeExportHardware");
    assert("exportQuality"@[0] != "nativeExportWidth"@[0]);
    assert("exportQuality"@[0] != "gifLoop"@[0]);
    assert("exportQuality"@[0] != "mp4FrameRate"@[0]);
    assert("exportQuality"@.len() != "exportFormat"@.len());
    assert("exportEncodingMode"@.len() != "exportFormat"@.len());
    assert("exportEncodingMode"@[0] != "nativeExportWidth"@[0]);
    assert("exportEncodingMode"@[0] != "gifLoop"@[0]);
    assert("exportEncodingMode"@[0] != "mp4FrameRate"@[0]);
}

/// Why an export does not start.
#[derive(Clone, Copy, Debug, PartialEq, Eq)]
pub enum ExportError {
    /// The hardware encoder is asked for where there is none.
    HardwareUnavailable,
    /// A side is 0 or over 8192 pixels.
    InvalidDimensions,
    /// A side is odd, which the encoder's colour format cannot take.
    OddDimensions,
    /// The frame rate is not between 1 and 120.
    InvalidFrameRate,
    /// The destination is the source video itself.
    OverwritesSource,
}

impl ExportError {
    /// What the editor says of the error.
    pub fn message(&self) -> (r: &'static str)
        ensures
            r@ == match self {
                ExportError::HardwareUnavailable => "Hardware encoding is not implemented on this platform; choose software encoding"@,
                ExportError::InvalidDimensions => "Invalid output dimensions"@,
                ExportError::OddDimensions => "MP4 dimensions must be even"@,
                ExportError::InvalidFrameRate => "Frame rate must be 1–120"@,
                ExportError::OverwritesSource => "Export cannot overwrite the source video"@,
            },
    {
        match self {
            ExportError::HardwareUnavailable => "Hardware encoding is not implemented on this platform; choose software encoding",
            ExportError::InvalidDimensions => "Invalid output dimensions",
            ExportError::OddDimensions => "MP4 dimensions must be even",
            ExportError::InvalidFrameRate => "Frame rate must be 1–120",
            ExportError::OverwritesSource => "Export cannot overwrite the source video",
        }
    }
}

/// The first check an export's settings fail, in the order the export
/// makes them, or none. `hardware_encoder` is whether the platform has the
/// hardware encoder (the Mac's).
pub open spec fn settings_error(s: ExportView, hardware_encoder: bool) -> Option<ExportError> {
    if s.hardware && !hardware_encoder {
        Some(ExportError::HardwareUnavailable)
    } else if !(0 < s.width <= 8192 && 0 < s.height <= 8192) {
        Some(ExportError::InvalidDimensions)
    } else if s.width % 2 != 0 || s.height % 2 != 0 {
        Some(ExportError::OddDimensions)
    } else if !(1 <= s.fps <= 120) {
        Some(ExportError::InvalidFrameRate)
    } else {
        None
    }
}

/// Whether the paths `a` and `b` are equal as `std::path::Path` compares
/// them: component by component.
pub uninterp spec fn path_equal(a: Seq<char>, b: Seq<char>) -> bool;

/// `Path::new(a) == Path::new(b)`: `path_equal` of the two, and true where
/// the texts are the same (path equality is an equivalence).
#[verifier::external_body]
fn path_eq(a: &str, b: &str) -> (r: bool)
    ensures
        r == path_equal(a@, b@),
        a@ == b@ ==> r,
{
    std::path::Path::new(a) == std::path::Path::new(b)
}

/// Whether an export from `source` to `destination` would write over the
/// source: the two paths are equal, or, where the destination resolves
/// (`destination_canonical`), it resolves to the source's resolved path.
pub open spec fn overwrites(source: Seq<char>, destination: Seq<char>, source_canonical: Seq<char>, destination_canonical: Option<Seq<char>>) -> bool {
    path_equal(source, destination) || match destination_canonical {
        Some(d) => path_equal(d, source_canonical),
        None => false,
    }
}

/// Whether `source` and `destination` are the same path as written. An
/// export to such a destination is refused before either path is resolved.
pub fn same_path(source: &str, destination: &str) -> (r: bool)
    ensures
        r == path_equal(source@, destination@),
{
    path_eq(source, destination)
}

/// Refuses an export that would write over its source video, given the
/// source's resolved path and the destination's where it resolves (a file
/// not yet written does not): `OverwritesSource` exactly where `overwrites`.
pub fn check_destination(source: &str, destination: &str, source_canonical: &str, destination_canonical: Option<&str>) -> (r: Result<(), ExportError>)
    ensures
        r == if overwrites(source@, destination@, source_canonical@, match destination_canonical { Some(d) => Some(d@), None => None }) {
            Err(ExportError::OverwritesSource)
        } else {
            Ok(())
        },
{
    if path_eq(source, destination) {
        return Err(ExportError::OverwritesSource);
    }
    match destination_canonical {
        Some(d) => {
            if path_eq(d, source_canonical) {
                Err(ExportError::OverwritesSource)
            } else {
                Ok(())
            }
        },
        None => Ok(()),
    }
}

/// The quality's constant rate factor for the software encoder.
pub open spec fn crf(quality: Seq<char>) -> Seq<char> {
    if quality == "low"@ {
        "28"@
    } else if quality == "medium"@ {
        "23"@
    } else if quality == "lossless"@ {
        "0"@
    } else {
        "18"@
    }
}

/// The quality's bit rate for the hardware encoder.
pub open spec fn bitrate(quality: Seq<char>) -> Seq<char> {
    if quality == "low"@ {
        "4M"@
    } else if quality == "medium"@ {
        "10M"@
    } else {
        "24M"@
    }
}

/// The encoder's arguments before the output file: raw RGBA frames of the
/// settings' size and rate on its input, H.264 out, by the hardware encoder
/// at the quality's bit rate where it is asked for and there is one, else
/// by x264 at the quality's rate factor.
pub open spec fn encoder_arguments(s: ExportView, hardware_encoder: bool) -> Seq<Seq<char>> {
    input_arguments(s) + codec_arguments(s, hardware_encoder)
        + seq!["-pix_fmt"@, "yuv420p"@, "-movflags"@, "+faststart"@]
}

/// The encoder's input: raw RGBA frames of the settings' size and rate on
/// its standard input, with no sound.
pub open spec fn input_arguments(s: ExportView) -> Seq<Seq<char>> {
    seq!["-v"@, "error"@, "-y"@, "-f"@, "rawvideo"@, "-pix_fmt"@, "rgba"@, "-s"@,
        decimal(s.width as nat) + seq!['x'] + decimal(s.height as nat), "-r"@, decimal(s.fps as nat),
        "-i"@, "pipe:0"@, "-an"@]
}

/// The H.264 encoder and its quality: the hardware encoder at the quality's
/// bit rate, where it is asked for and there is one, else x264 at the
/// quality's rate factor.
pub open spec fn codec_arguments(s: ExportView, hardware_encoder: bool) -> Seq<Seq<char>> {
    if s.hardware && hardware_encoder {
        seq!["-c:v"@, "h264_videotoolbox"@, "-b:v"@, bitrate(s.quality)]
    } else {
        seq!["-c:v"@, "libx264"@, "-preset"@, "fast"@, "-crf"@, crf(s.quality)]
    }
}

/// An export's settings are accepted exactly when the hardware encoder is
/// not asked for where there is none, each side is between 1 and 8192
/// pixels and even, and the frame rate is between 1 and 120; settings that
/// pass the hardware and size checks with an odd side are refused as odd.
pub proof fn law_export_accepts_only_encodable_settings(s: ExportView, hardware_encoder: bool)
    ensures
        settings_error(s, hardware_encoder) is None <==> (
            (!s.hardware || hardware_encoder)
            && 1 <= s.width <= 8192 && 1 <= s.height <= 8192
            && s.width % 2 == 0 && s.height % 2 == 0
            && 1 <= s.fps <= 120),
        s.hardware && !hardware_encoder ==> settings_error(s, hardware_encoder) == Some(ExportError::HardwareUnavailable),
        (!s.hardware || hardware_encoder) && (s.width == 0 || s.height == 0 || s.width > 8192 || s.height > 8192)
            ==> settings_error(s, hardware_encoder) == Some(ExportError::InvalidDimensions),
        (!s.hardware || hardware_encoder) && 1 <= s.width <= 8192 && 1 <= s.height <= 8192
            && (s.width % 2 == 1 || s.height % 2 == 1)
            ==> settings_error(s, hardware_encoder) == Some(ExportError::OddDimensions),
        (!s.hardware || hardware_encoder) && 1 <= s.width <= 8192 && 1 <= s.height <= 8192
            && s.width % 2 == 0 && s.height % 2 == 0 && (s.fps == 0 || s.fps > 120)
            ==> settings_error(s, hardware_encoder) == Some(ExportError::InvalidFrameRate),
{
}

/// The software encoder's rate factor: 28 for "low", 23 for "medium", 0
/// for "lossless" and 18 for any other quality, so each named quality has
/// its own; the hardware encoder's bit rate is 4M for "low", 10M for
/// "medium" and 24M otherwise.
pub proof fn law_quality_sets_the_rate(quality: Seq<char>)
    ensures
        crf("low"@) == "28"@,
        crf("medium"@) == "23"@,
        crf("lossless"@) == "0"@,
        quality != "low"@ && quality != "medium"@ && quality != "lossless"@ ==> crf(quality) == "18"@,
        crf("low"@) != crf("high"@),
        crf("low"@) != crf("medium"@),
        crf("medium"@) != crf("high"@),
        crf("lossless"@) != crf("high"@),
        bitrate("low"@) == "4M"@,
        bitrate("medium"@) == "10M"@,
        quality != "low"@ && quality != "medium"@ ==> bitrate(quality) == "24M"@,
{
    reveal_strlit("low");
    reveal_strlit("medium");
    reveal_strlit("lossless");
    reveal_strlit("high");
    reveal_strlit("28");
    reveal_strlit("23");
    reveal_strlit("18");
    reveal_strlit("0");
    assert("medium"@ != "low"@) by { assert("medium"@.len() != "low"@.len()); }
    assert("lossless"@ != "low"@) by { assert("lossless"@.len() != "low"@.len()); }
    assert("lossless"@ != "medium"@) by { assert("lossless"@.len() != "medium"@.len()); }
    assert("high"@ != "low"@) by { assert("high"@[0] != "low"@[0]); }
    assert("high"@ != "medium"@) by { assert("high"@.len() != "medium"@.len()); }
    assert("high"@ != "lossless"@) by { assert("high"@.len() != "lossless"@.len()); }
    assert("28"@ != "18"@) by { assert("28"@[0] != "18"@[0]); }
    assert("28"@ != "23"@) by { assert("28"@[1] != "23"@[1]); }
    assert("23"@ != "18"@) by { assert("23"@[0] != "18"@[0]); }
    assert("0"@ != "18"@) by { assert("0"@.len() != "18"@.len()); }
}

/// Without the hardware encoder in use, the encoder is told `-crf` and the
/// quality's rate factor; with it, `-b:v` and the quality's bit rate.
pub proof fn law_encoder_gets_the_quality(s: ExportView, hardware_encoder: bool)
    ensures
        !(s.hardware && hardware_encoder) ==> encoder_arguments(s, hardware_encoder)[15] == "libx264"@
            && encoder_arguments(s, hardware_encoder)[18] == "-crf"@
            && encoder_arguments(s, hardware_encoder)[19] == crf(s.quality),
        s.hardware && hardware_encoder ==> encoder_arguments(s, hardware_encoder)[15] == "h264_videotoolbox"@
            && encoder_arguments(s, hardware_encoder)[16] == "-b:v"@
            && encoder_arguments(s, hardware_encoder)[17] == bitrate(s.quality),
{
}

fn push_text(v: &mut Vec<String>, t: &str)
    ensures
        texts(final(v)@) == texts(old(v)@).push(t@),
{
    let ghost before = v@;
    v.push(t.to_owned());
    assert(texts(v@) =~= texts(before).push(t@));
}

impl ExportSettings {
    /// Checks the settings as an export does before it starts.
    pub fn validate(&self, hardware_encoder: bool) -> (r: Result<(), ExportError>)
        ensures
            r == match settings_error(self@, hardware_encoder) { Some(e) => Err(e), None => Ok(()) },
    {
        if self.hardware && !hardware_encoder {
            Err(ExportError::HardwareUnavailable)
        } else if !(0 < self.width && self.width <= 8192 && 0 < self.height && self.height <= 8192) {
            Err(ExportError::InvalidDimensions)
        } else if self.width % 2 != 0 || self.height % 2 != 0 {
            Err(ExportError::OddDimensions)
        } else if !(1 <= self.fps && self.fps <= 120) {
            Err(ExportError::InvalidFrameRate)
        } else {
            Ok(())
        }
    }

    /// `encoder_arguments` of these settings.
    pub fn encoder_arguments(&self, hardware_encoder: bool) -> (r: Vec<String>)
        ensures
            texts(r@) == encoder_arguments(self@, hardware_encoder),
    {
        let mut v: Vec<String> = Vec::new();
        push_text(&mut v, "-v");
        push_text(&mut v, "error");
        push_text(&mut v, "-y");
        push_text(&mut v, "-f");
        push_text(&mut v, "rawvideo");
        push_text(&mut v, "-pix_fmt");
        push_text(&mut v, "rgba");
        push_text(&mut v, "-s");
        let mut size = String::new();
        push_decimal(&mut size, self.width as u64);
        push_char(&mut size, 'x');
        push_decimal(&mut size, self.height as u64);
        assert(size@ =~= decimal(self.width as nat) + seq!['x'] + decimal(self.height as nat));
        push_text(&mut v, size.as_str());
        push_text(&mut v, "-r");
        let mut rate = String::new();
        push_decimal(&mut rate, self.fps as u64);
        assert(rate@ =~= decimal(self.fps as nat));
        push_text(&mut v, rate.as_str());
        push_text(&mut v, "-i");
        push_text(&mut v, "pipe:0");
        push_text(&mut v, "-an");
        let ghost input = texts(v@);
        assert(input =~= input_arguments(self@));
        let q = self.quality.as_str();
        if self.hardware && hardware_encoder {
            push_text(&mut v, "-c:v");
            push_text(&mut v, "h264_videotoolbox");
            push_text(&mut v, "-b:v");
            if str_eq(q, "low") {
                push_text(&mut v, "4M");
            } else if str_eq(q, "medium") {
                push_text(&mut v, "10M");
            } else {
                push_text(&mut v, "24M");
            }
        } else {
            push_text(&mut v, "-c:v");
            push_text(&mut v, "libx264");
            push_text(&mut v, "-preset");
            push_text(&mut v, "fast");
            push_text(&mut v, "-crf");
            if str_eq(q, "low") {
                push_text(&mut v, "28");
            } else if str_eq(q, "medium") {
                push_text(&mut v, "23");
            } else if str_eq(q, "lossless") {
                push_text(&mut v, "0");
            } else {
                push_text(&mut v, "18");
            }
        }
        assert(texts(v@) =~= input + codec_arguments(self@, hardware_encoder));
        push_text(&mut v, "-pix_fmt");
        push_text(&mut v, "yuv420p");
        push_text(&mut v, "-movflags");
        push_text(&mut v, "+faststart");
        assert(texts(v@) =~= encoder_arguments(self@, hardware_encoder));
        v
    }
}

/// The file an export renders into before it is moved to its destination.
pub fn output_name(gif: bool) -> (r: &'static str)
    ensures
        r@ == if gif { "output.gif"@ } else { "output.mp4"@ },
{
    if gif { "output.gif" } else { "output.mp4" }
}

/// The palette pass's `-loop` value: 0 loops a GIF for ever, -1 plays it
/// once.
pub fn gif_loop_argument(gif_loop: bool) -> (r: &'static str)
    ensures
        r@ == if gif_loop { "0"@ } else { "-1"@ },
{
    if gif_loop { "0" } else { "-1" }
}

/// The height an export preset gives: the preset's limit (`None`: the
/// source's own height), no taller than the source, rounded down to an
/// even number of lines and at least 2.
pub open spec fn preset_height_of(limit: Option<u32>, source_height: u32) -> nat {
    let h: nat = match limit {
        Some(l) => if l < source_height { l as nat } else { source_height as nat },
        None => source_height as nat,
    };
    if h / 2 < 1 { 2 } else { (h / 2) * 2 }
}

/// An export preset's height is even, at least 2, never above the lower of
/// the preset's limit and the source's height where that is 2 or more, and
/// short of it by at most one line.
pub proof fn law_preset_height_is_even_and_fits(limit: Option<u32>, source_height: u32)
    ensures
        preset_height_of(limit, source_height) % 2 == 0,
        preset_height_of(limit, source_height) >= 2,
        ({
            let cap: int = match limit {
                Some(l) => if l < source_height { l as int } else { source_height as int },
                None => source_height as int,
            };
            cap >= 2 ==> preset_height_of(limit, source_height) <= cap < preset_height_of(limit, source_height) + 2
        }),
{
}

/// `preset_height_of` the preset's limit and the source's height.
pub fn preset_height(limit: Option<u32>, source_height: u32) -> (r: u32)
    ensures
        r == preset_height_of(limit, source_height),
{
    let h = match limit {
        Some(l) => if l < source_height { l } else { source_height },
        None => source_height,
    };
    let half = h / 2;
    if half < 1 { 2 } else { half * 2 }
}

/// The extension an export's file takes: `png` for a still frame, `gif`
/// or `mp4` for a video.
pub open spec fn extension_of(frame: bool, gif: bool) -> Seq<char> {
    if frame {
        "png"@
    } else if gif {
        "gif"@
    } else {
        "mp4"@
    }
}

/// `extension_of` a still frame or a video of the format.
pub fn export_extension(frame: bool, gif: bool) -> (r: &'static str)
    ensures
        r@ == extension_of(frame, gif),
{
    if frame {
        "png"
    } else if gif {
        "gif"
    } else {
        "mp4"
    }
}

/// The name an export takes where none was chosen: the recording's name,
/// or "SubTake" without one, and the extension.
pub open spec fn export_file(stem: Option<Seq<char>>, extension: Seq<char>) -> Seq<char> {
    let name = match stem {
        Some(s) => s,
        None => "SubTake"@,
    };
    name + seq!['.'] + extension
}

/// `export_file` of the recording's name and the extension.
pub fn export_file_name(stem: Option<&str>, extension: &str) -> (r: String)
    ensures
        r@ == export_file(match stem { Some(s) => Some(s@), None => None }, extension@),
{
    let mut name = String::new();
    match stem {
        Some(s) => push_str(&mut name, s),
        None => push_str(&mut name, "SubTake"),
    }
    push_char(&mut name, '.');
    push_str(&mut name, extension);
    name
}

/// The `n`th name tried beside an export that would write over an earlier
/// one: "stem n.extension", or "stem n" for a file without an extension.
pub open spec fn numbered_file(stem: Seq<char>, n: nat, extension: Seq<char>) -> Seq<char> {
    if extension.len() == 0 {
        stem + seq![' '] + decimal(n)
    } else {
        stem + seq![' '] + decimal(n) + seq!['.'] + extension
    }
}

/// `numbered_file` of the name's stem, the number and the extension.
pub fn numbered_file_name(stem: &str, n: u64, extension: &str) -> (r: String)
    ensures
        r@ == numbered_file(stem@, n as nat, extension@),
{
    let mut name = String::new();
    push_str(&mut name, stem);
    push_char(&mut name, ' ');
    push_decimal(&mut name, n);
    if !extension.is_empty() {
        push_char(&mut name, '.');
        push_str(&mut name, extension);
    }
    name
}

} // verus!
