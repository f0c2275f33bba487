//! The inspector's edits: which setting a field's key names, how its text
//! is read, and what an export field changes.

use vstd::prelude::*;
use crate::text::{str_eq, strip_prefix, strip_suffix, split_once};
use crate::commands::{after, export_limit, parse_index, index_value, is_digit, lemma_decimal_reads_back, law_written_index_reads_back, lemma_index_read, number_message, read_unsigned, unsigned_read, NumberError};
use crate::text::decimal;
use crate::export::{ExportSettings, ExportView, media_export, stored, law_stored_settings_hold_for_media};
use crate::settings::SettingView;

verus! {

/// What an inspector field's key names.
#[derive(Clone, Debug, PartialEq, Eq)]
pub enum FieldTarget {
    /// `padding.all` (`true`) or `padding.linked` (`false`).
    Padding(bool),
    /// `library.query`: the library's search text.
    LibraryQuery,
    /// `word.N.field`: that field of word N of the selected caption.
    Word(usize, String),
    /// `preset.N.name`: saved preset N renamed; N as written.
    PresetName(String),
    /// `shortcut.action`: the editor shortcut of that action.
    Shortcut(String),
    /// `prefs.language`.
    Language,
    /// `prefs.appearance`.
    Appearance,
    /// `prefs.auto_apply_zooms`.
    AutoApplyZooms,
    /// Another `prefs.` key: a recording shortcut or the countdown.
    Preference,
    /// `export.name`: an export setting.
    Export(String),
    /// `region.key`: a key, perhaps dotted, of the selected region.
    Region(String),
    /// Any other key: the project setting before its first `.`, and the
    /// dotted key inside it after the `.` (empty for the whole setting).
    Project(String, String),
}

/// `FieldTarget` with its texts as character sequences.
pub enum FieldTargetView {
    Padding(bool),
    LibraryQuery,
    Word(usize, Seq<char>),
    PresetName(Seq<char>),
    Shortcut(Seq<char>),
    Language,
    Appearance,
    AutoApplyZooms,
    Preference,
    Export(Seq<char>),
    Region(Seq<char>),
    Project(Seq<char>, Seq<char>),
}

impl View for FieldTarget {
    type V = FieldTargetView;

    open spec fn view(&self) -> FieldTargetView {
        match self {
            FieldTarget::Padding(all) => FieldTargetView::Padding(*all),
            FieldTarget::LibraryQuery => FieldTargetView::LibraryQuery,
            FieldTarget::Word(i, f) => FieldTargetView::Word(*i, f@),
            FieldTarget::PresetName(i) => FieldTargetView::PresetName(i@),
            FieldTarget::Shortcut(a) => FieldTargetView::Shortcut(a@),
            FieldTarget::Language => FieldTargetView::Language,
            FieldTarget::Appearance => FieldTargetView::Appearance,
            FieldTarget::AutoApplyZooms => FieldTargetView::AutoApplyZooms,
            FieldTarget::Preference => FieldTargetView::Preference,
            FieldTarget::Export(n) => FieldTargetView::Export(n@),
            FieldTarget::Region(k) => FieldTargetView::Region(k@),
            FieldTarget::Project(b, r) => FieldTargetView::Project(b@, r@),
        }
    }
}

/// Why a field's edit was refused.
#[derive(Clone, Copy, Debug, PartialEq, Eq, Structural)]
pub enum FieldError {
    /// A `word.` key without the word's field.
    InvalidWordEdit,
    /// A word's index that is not a number `usize` holds, for the reason
    /// given.
    BadIndex(NumberError),
    /// A number that is not one `u32` holds, for the reason given.
    BadNumber(NumberError),
}

impl FieldError {
    /// What the editor's status line says of the refusal.
    pub fn message(&self) -> (r: &'static str)
        ensures
            *self == FieldError::InvalidWordEdit ==> r@ == "Invalid word edit"@,
            *self matches FieldError::BadIndex(e) ==> r@ == number_message(e),
            *self matches FieldError::BadNumber(e) ==> r@ == number_message(e),
    {
        match self {
            FieldError::InvalidWordEdit => "Invalid word edit",
            FieldError::BadIndex(e) => e.message(),
            FieldError::BadNumber(e) => e.message(),
        }
    }
}

/// The word edit that `rest` (after `word.`) names: an index, a `.`, and
/// the word's field.
pub open spec fn word_edit(rest: Seq<char>) -> Result<FieldTargetView, FieldError> {
    match rest.index_of_first('.') {
        Some(i) => match unsigned_read(rest.take(i), usize::MAX as nat) {
            Ok(n) => Ok(FieldTargetView::Word(n as usize, rest.skip(i + 1))),
            Err(e) => Err(FieldError::BadIndex(e)),
        },
        None => Err(FieldError::InvalidWordEdit),
    }
}

/// A project setting's key split at its first `.`.
pub open spec fn project_key(key: Seq<char>) -> FieldTargetView {
    match key.index_of_first('.') {
        Some(i) => FieldTargetView::Project(key.take(i), key.skip(i + 1)),
        None => FieldTargetView::Project(key, seq![]),
    }
}

/// What `key` names, checked in this order.
pub open spec fn field_of(key: Seq<char>) -> Result<FieldTargetView, FieldError> {
    if key == "padding.all"@ {
        Ok(FieldTargetView::Padding(true))
    } else if key == "padding.linked"@ {
        Ok(FieldTargetView::Padding(false))
    } else if key == "library.query"@ {
        Ok(FieldTargetView::LibraryQuery)
    } else if "word."@.is_prefix_of(key) {
        word_edit(after(key, "word."@))
    } else if "preset."@.is_prefix_of(key) && ".name"@.is_suffix_of(after(key, "preset."@)) {
        Ok(FieldTargetView::PresetName(
            after(key, "preset."@).take(after(key, "preset."@).len() - ".name"@.len()),
        ))
    } else if "shortcut."@.is_prefix_of(key) {
        Ok(FieldTargetView::Shortcut(after(key, "shortcut."@)))
    } else if key == "prefs.language"@ {
        Ok(FieldTargetView::Language)
    } else if key == "prefs.appearance"@ {
        Ok(FieldTargetView::Appearance)
    } else if key == "prefs.auto_apply_zooms"@ {
        Ok(FieldTargetView::AutoApplyZooms)
    } else if "prefs."@.is_prefix_of(key) {
        Ok(FieldTargetView::Preference)
    } else if "export."@.is_prefix_of(key) {
        Ok(FieldTargetView::Export(after(key, "export."@)))
    } else if "region."@.is_prefix_of(key) {
        Ok(FieldTargetView::Region(after(key, "region."@)))
    } else {
        Ok(project_key(key))
    }
}


proof fn lemma_split_first(s: Seq<char>, c: char, before: Seq<char>, rest: Seq<char>)
    requires
        s == before + seq![c] + rest,
        !before.contains(c),
    ensures
        s.index_of_first(c) == Some(before.len() as int),
        s.take(before.len() as int) == before,
        s.skip(before.len() as int + 1) == rest,
{
    let k = before.len() as int;
    assert(s[k] == c);
    assert(s.contains(c));
    s.index_of_first_ensures(c);
    let i = s.index_of_first(c).unwrap();
    if i < k {
        assert(before[i] == s[i]);
    }
    assert(s.take(k) =~= before);
    assert(s.skip(k + 1) =~= rest);
}

impl FieldTarget {
    /// What the inspector field `key` names: `field_of`.
    pub fn parse(key: &str) -> (r: Result<FieldTarget, FieldError>)
        ensures
            match r {
                Ok(t) => field_of(key@) == Ok::<FieldTargetView, FieldError>(t@),
                Err(e) => field_of(key@) == Err::<FieldTargetView, FieldError>(e),
            },
    {
        if str_eq(key, "padding.all") {
            return Ok(FieldTarget::Padding(true));
        }
        if str_eq(key, "padding.linked") {
            return Ok(FieldTarget::Padding(false));
        }
        if str_eq(key, "library.query") {
            return Ok(FieldTarget::LibraryQuery);
        }
        if let Some(rest) = strip_prefix(key, "word.") {
            return match split_once(rest, '.') {
                Some((index, field)) => {
                    proof {
                        lemma_split_first(rest@, '.', index@, field@);
                    }
                    match read_unsigned(index, usize::MAX as u128) {
                        Ok(i) => Ok(FieldTarget::Word(i as usize, field.to_owned())),
                        Err(e) => Err(FieldError::BadIndex(e)),
                    }
                },
                None => {
                    proof {
                        rest@.index_of_first_ensures('.');
                    }
                    Err(FieldError::InvalidWordEdit)
                },
            };
        }
        if let Some(rest) = strip_prefix(key, "preset.") {
            if let Some(index) = strip_suffix(rest, ".name") {
                return Ok(FieldTarget::PresetName(index.to_owned()));
            }
        }
        if let Some(action) = strip_prefix(key, "shortcut.") {
            return Ok(FieldTarget::Shortcut(action.to_owned()));
        }
        if str_eq(key, "prefs.language") {
            return Ok(FieldTarget::Language);
        }
        if str_eq(key, "prefs.appearance") {
            return Ok(FieldTarget::Appearance);
        }
        if str_eq(key, "prefs.auto_apply_zooms") {
            return Ok(FieldTarget::AutoApplyZooms);
        }
        if let Some(_) = strip_prefix(key, "prefs.") {
            return Ok(FieldTarget::Preference);
        }
        if let Some(name) = strip_prefix(key, "export.") {
            return Ok(FieldTarget::Export(name.to_owned()));
        }
        if let Some(rest) = strip_prefix(key, "region.") {
            return Ok(FieldTarget::Region(rest.to_owned()));
        }
        match split_once(key, '.') {
            Some((base, rest)) => {
                proof {
                    lemma_split_first(key@, '.', base@, rest@);
                }
                Ok(FieldTarget::Project(base.to_owned(), rest.to_owned()))
            },
            None => {
                proof {
                    key@.index_of_first_ensures('.');
                }
                Ok(FieldTarget::Project(key.to_owned(), String::new()))
            },
        }
    }
}

/// The fields whose text is taken as it stands; any other field's text
/// is read as JSON where it is JSON.
pub open spec fn plain_text_field(key: Seq<char>) -> bool {
    key == "wallpaper"@ || key == "aspectRatio"@ || key == "cursorStyle"@
        || key == "cursorClickEffect"@ || key == "cursorClickEffectColor"@
        || key == "nativeCaptionLanguage"@ || key == "webcam.positionPreset"@
        || key == "autoCaptionSettings.fontFamily"@ || key == "autoCaptionSettings.animationStyle"@
        || key == "autoCaptionSettings.textColor"@ || key == "region.text"@
        || key == "region.textContent"@ || key == "region.style.fontFamily"@
        || key == "region.style.color"@ || key == "region.style.backgroundColor"@
        || key == "region.style.fontWeight"@ || key == "region.style.fontStyle"@
        || key == "region.style.textAlign"@ || key == "region.figureData.arrowDirection"@
        || key == "region.figureData.color"@ || key == "region.blurMode"@ || key == "region.mode"@
}

/// Whether the field `key` takes its text as it stands.
pub fn is_plain_text_field(key: &str) -> (r: bool)
    ensures
        r == plain_text_field(key@),
{
    str_eq(key, "wallpaper") || str_eq(key, "aspectRatio") || str_eq(key, "cursorStyle")
        || str_eq(key, "cursorClickEffect") || str_eq(key, "cursorClickEffectColor")
        || str_eq(key, "nativeCaptionLanguage") || str_eq(key, "webcam.positionPreset")
        || str_eq(key, "autoCaptionSettings.fontFamily")
        || str_eq(key, "autoCaptionSettings.animationStyle")
        || str_eq(key, "autoCaptionSettings.textColor") || str_eq(key, "region.text")
        || str_eq(key, "region.textContent") || str_eq(key, "region.style.fontFamily")
        || str_eq(key, "region.style.color") || str_eq(key, "region.style.backgroundColor")
        || str_eq(key, "region.style.fontWeight") || str_eq(key, "region.style.fontStyle")
        || str_eq(key, "region.style.textAlign") || str_eq(key, "region.figureData.arrowDirection")
        || str_eq(key, "region.figureData.color") || str_eq(key, "region.blurMode")
        || str_eq(key, "region.mode")
}

/// What `str::parse::<u32>` reads from `s`, where it reads a number.
pub open spec fn whole_value(s: Seq<char>) -> Option<u32> {
    match unsigned_read(s, u32::MAX as nat) {
        Ok(v) => Some(v as u32),
        Err(_) => None,
    }
}

/// `text` read as `str::parse::<u32>` reads it: `unsigned_read` up to
/// `u32::MAX`.
pub fn read_whole(text: &str) -> (r: Result<u32, NumberError>)
    ensures
        match unsigned_read(text@, u32::MAX as nat) {
            Ok(v) => r == Ok::<u32, NumberError>(v as u32),
            Err(e) => r == Err::<u32, NumberError>(e),
        },
{
    match read_unsigned(text, 0xffff_ffff) {
        Ok(v) => Ok(v as u32),
        Err(e) => Err(e),
    }
}

/// `text` read as a `u32`, as `str::parse::<u32>` reads it.
pub fn parse_whole(text: &str) -> (r: Option<u32>)
    ensures
        r == whole_value(text@),
{
    match read_whole(text) {
        Ok(v) => Some(v),
        Err(_) => None,
    }
}

/// The appearances the editor offers.
pub open spec fn known_appearance(value: Seq<char>) -> bool {
    value == "light"@ || value == "dark"@ || value == "system"@
}

/// Whether `value` is one of the editor's appearances.
pub fn is_known_appearance(value: &str) -> (r: bool)
    ensures
        r == known_appearance(value@),
{
    str_eq(value, "light") || str_eq(value, "dark") || str_eq(value, "system")
}

/// What `str::parse::<bool>` reads: `true` or `false`, nothing else.
pub open spec fn flag_value(s: Seq<char>) -> Option<bool> {
    if s == "true"@ {
        Some(true)
    } else if s == "false"@ {
        Some(false)
    } else {
        None
    }
}

/// `text` read as `str::parse::<bool>` reads it.
pub fn parse_flag(text: &str) -> (r: Option<bool>)
    ensures
        r == flag_value(text@),
{
    if str_eq(text, "true") {
        Some(true)
    } else if str_eq(text, "false") {
        Some(false)
    } else {
        None
    }
}

/// The recording countdown that the field's text sets: its number of
/// seconds, at most ten; refused, with `str::parse`'s reason, where the
/// text is no `u32`.
pub fn countdown_seconds(text: &str) -> (r: Result<u32, FieldError>)
    ensures
        match unsigned_read(text@, u32::MAX as nat) {
            Ok(v) => r == Ok::<u32, FieldError>(if v < 10 { v as u32 } else { 10 }),
            Err(e) => r == Err::<u32, FieldError>(FieldError::BadNumber(e)),
        },
{
    match read_whole(text) {
        Ok(v) => Ok(if v < 10 { v } else { 10 }),
        Err(e) => Err(FieldError::BadNumber(e)),
    }
}

/// What an export field's edit does beside the settings.
#[derive(Clone, Copy, Debug, PartialEq, Eq, Structural)]
pub enum ExportEdit {
    /// `format` set to `frame`: a still frame is exported, and the
    /// settings stay as they are, unstored.
    StillFrame,
    /// `resolution`: the export preset of that height is applied (the
    /// command `export-preset-` with the field's text); the settings stay.
    Resolution(Option<u32>),
    /// `format` set to anything else: a video is exported, in the format
    /// edited, and the settings are stored.
    Video,
    /// Any other field: the settings as edited are stored.
    Stored,
}

/// An export field `name` (after `export.`) taking the text `value`: the
/// settings after and what else the edit does. `format` as `frame` turns
/// to still-frame export and `resolution` to an export preset, leaving
/// the settings; otherwise the size and frame rate take a number, the
/// switches `true`, the format `gif` (else MP4) and the quality the text,
/// and any other name changes nothing but is stored. A size or rate that
/// is no `u32` is refused, with `str::parse`'s reason.
pub open spec fn export_edited(s: ExportView, name: Seq<char>, value: Seq<char>) -> Result<(ExportView, ExportEdit), FieldError> {
    if name == "format"@ && value == "frame"@ {
        Ok((s, ExportEdit::StillFrame))
    } else if name == "resolution"@ {
        Ok((s, ExportEdit::Resolution(export_limit(value))))
    } else if name == "width"@ || name == "height"@ || name == "fps"@ {
        match unsigned_read(value, u32::MAX as nat) {
            Ok(v) => Ok((
                if name == "width"@ {
                    ExportView { width: v as u32, ..s }
                } else if name == "height"@ {
                    ExportView { height: v as u32, ..s }
                } else {
                    ExportView { fps: v as u32, ..s }
                },
                ExportEdit::Stored,
            )),
            Err(e) => Err(FieldError::BadNumber(e)),
        }
    } else if name == "gif"@ {
        Ok((ExportView { gif: value == "true"@, ..s }, ExportEdit::Stored))
    } else if name == "format"@ {
        Ok((ExportView { gif: value == "gif"@, ..s }, ExportEdit::Video))
    } else if name == "loop"@ {
        Ok((ExportView { gif_loop: value == "true"@, ..s }, ExportEdit::Stored))
    } else if name == "hardware"@ {
        Ok((ExportView { hardware: value == "true"@, ..s }, ExportEdit::Stored))
    } else if name == "quality"@ {
        Ok((ExportView { quality: value, ..s }, ExportEdit::Stored))
    } else {
        Ok((s, ExportEdit::Stored))
    }
}

impl ExportSettings {
    /// The export field `name` (after `export.`) set to `value`:
    /// `export_edited`; nothing changes where it is refused.
    pub fn edit(&mut self, name: &str, value: &str) -> (r: Result<ExportEdit, FieldError>)
        ensures
            match export_edited(old(self)@, name@, value@) {
                Ok((s, effect)) => r == Ok::<ExportEdit, FieldError>(effect) && final(self)@ == s,
                Err(e) => r == Err::<ExportEdit, FieldError>(e) && final(self)@ == old(self)@,
            },
    {
        if str_eq(name, "format") && str_eq(value, "frame") {
            return Ok(ExportEdit::StillFrame);
        }
        if str_eq(name, "resolution") {
            let limit = if str_eq(value, "720") {
                Some(720)
            } else if str_eq(value, "1080") {
                Some(1080)
            } else {
                None
            };
            return Ok(ExportEdit::Resolution(limit));
        }
        if str_eq(name, "width") || str_eq(name, "height") || str_eq(name, "fps") {
            let v = match read_whole(value) {
                Ok(v) => v,
                Err(e) => return Err(FieldError::BadNumber(e)),
            };
            if str_eq(name, "width") {
                self.width = v;
            } else if str_eq(name, "height") {
                self.height = v;
            } else {
                self.fps = v;
            }
            return Ok(ExportEdit::Stored);
        }
        if str_eq(name, "gif") {
            self.gif = str_eq(value, "true");
        } else if str_eq(name, "format") {
            self.gif = str_eq(value, "gif");
            return Ok(ExportEdit::Video);
        } else if str_eq(name, "loop") {
            self.gif_loop = str_eq(value, "true");
        } else if str_eq(name, "hardware") {
            self.hardware = str_eq(value, "true");
        } else if str_eq(name, "quality") {
            self.quality = value.to_owned();
        }
        Ok(ExportEdit::Stored)
    }
}

/// An export field's edit that is stored is what the project then holds:
/// once the edited settings are stored, the settings read back for any
/// media are the edited ones.
pub proof fn law_export_edit_is_kept(
    s: ExportView,
    name: Seq<char>,
    value: Seq<char>,
    e: Seq<(Seq<char>, SettingView)>,
    legacy: (u32, u32),
)
    requires
        export_edited(s, name, value) is Ok,
        export_edited(s, name, value)->Ok_0.1 == ExportEdit::Stored
            || export_edited(s, name, value)->Ok_0.1 == ExportEdit::Video,
    ensures
        media_export(stored(export_edited(s, name, value)->Ok_0.0, e), legacy)
            == export_edited(s, name, value)->Ok_0.0,
{
    law_stored_settings_hold_for_media(export_edited(s, name, value)->Ok_0.0, e, legacy);
}

/// What `str::parse::<i32>` reads from `s`: an optional sign and then one
/// or more digits whose value, with its sign, fits in an `i32`.
pub open spec fn signed_value(s: Seq<char>) -> Option<i32> {
    if s.len() > 0 && s[0] == '-' {
        let d = s.skip(1);
        if d.len() > 0 && d[0] == '+' {
            None
        } else {
            match index_value(d) {
                Some(v) => if v <= 0x8000_0000 { Some((0 - v) as i32) } else { None },
                None => None,
            }
        }
    } else {
        match index_value(s) {
            Some(v) => if v <= 0x7fff_ffff { Some(v as i32) } else { None },
            None => None,
        }
    }
}

/// `text` read as an `i32`, as `str::parse::<i32>` reads it.
pub fn parse_signed(text: &str) -> (r: Option<i32>)
    ensures
        r == signed_value(text@),
{
    proof {
        reveal_strlit("-");
        reveal_strlit("+");
        if text@.len() > 0 && text@[0] == '-' {
            assert(text@.subrange(0, 1) =~= "-"@);
        }
    }
    match strip_prefix(text, "-") {
        Some(digits) => {
            assert(text@[0] == "-"@[0]);
            proof {
                if digits@.len() > 0 && digits@[0] == '+' {
                    assert(digits@.subrange(0, 1) =~= "+"@);
                }
            }
            if strip_prefix(digits, "+").is_some() {
                assert(digits@[0] == "+"@[0]);
                return None;
            }
            match parse_index(digits) {
                Some(v) => if v <= 0x8000_0000 {
                    let w = v as i64;
                    Some((0 - w) as i32)
                } else {
                    None
                },
                None => None,
            }
        },
        None => {
            match parse_index(text) {
                Some(v) => if v <= 0x7fff_ffff { Some(v as i32) } else { None },
                None => None,
            }
        },
    }
}

/// What a recorder option's key and text set.
#[derive(Clone, Copy, Debug, PartialEq, Eq, Structural)]
pub enum LauncherOption {
    /// `source`: the source at that place among the sources.
    Source(usize),
    /// `camera`: the camera on or off.
    Camera(bool),
    /// `microphone`: the microphone on or off.
    Microphone(bool),
    /// `system-audio`: the system's sound on or off.
    SystemAudio(bool),
    /// `camera-device`: the camera chosen, 0 for the system's default.
    CameraDevice(i32),
    /// `microphone-device`: the microphone chosen, 0 for the default.
    MicrophoneDevice(i32),
    /// `countdown`: seconds before capture, at most ten.
    Countdown(u32),
    /// Any other key: a recorder setting kept by name.
    Setting,
    /// A source or countdown that is not a number in range: nothing.
    Ignored,
}

/// What the recorder option `key` set to `value` does, with `sources`
/// sources to choose from.
pub open spec fn launcher_option(key: Seq<char>, value: Seq<char>, sources: nat) -> LauncherOption {
    if key == "source"@ {
        match signed_value(value) {
            Some(i) => if 0 <= i && i < sources { LauncherOption::Source(i as usize) } else { LauncherOption::Ignored },
            None => LauncherOption::Ignored,
        }
    } else if key == "camera"@ {
        LauncherOption::Camera(value == "true"@)
    } else if key == "microphone"@ {
        LauncherOption::Microphone(value == "true"@)
    } else if key == "system-audio"@ {
        LauncherOption::SystemAudio(value == "true"@)
    } else if key == "camera-device"@ {
        LauncherOption::CameraDevice(match signed_value(value) { Some(i) => i, None => 0 })
    } else if key == "microphone-device"@ {
        LauncherOption::MicrophoneDevice(match signed_value(value) { Some(i) => i, None => 0 })
    } else if key == "countdown"@ {
        match whole_value(value) {
            Some(v) => LauncherOption::Countdown(if v < 10 { v } else { 10 }),
            None => LauncherOption::Ignored,
        }
    } else {
        LauncherOption::Setting
    }
}

impl LauncherOption {
    /// `launcher_option` of the key, the text and the number of sources.
    pub fn parse(key: &str, value: &str, sources: usize) -> (r: LauncherOption)
        ensures
            r == launcher_option(key@, value@, sources as nat),
    {
        if str_eq(key, "source") {
            match parse_signed(value) {
                Some(i) => if i >= 0 && (i as usize) < sources {
                    LauncherOption::Source(i as usize)
                } else {
                    LauncherOption::Ignored
                },
                None => LauncherOption::Ignored,
            }
        } else if str_eq(key, "camera") {
            LauncherOption::Camera(str_eq(value, "true"))
        } else if str_eq(key, "microphone") {
            LauncherOption::Microphone(str_eq(value, "true"))
        } else if str_eq(key, "system-audio") {
            LauncherOption::SystemAudio(str_eq(value, "true"))
        } else if str_eq(key, "camera-device") {
            LauncherOption::CameraDevice(match parse_signed(value) { Some(i) => i, None => 0 })
        } else if str_eq(key, "microphone-device") {
            LauncherOption::MicrophoneDevice(match parse_signed(value) { Some(i) => i, None => 0 })
        } else if str_eq(key, "countdown") {
            match parse_whole(value) {
                Some(v) => LauncherOption::Countdown(if v < 10 { v } else { 10 }),
                None => LauncherOption::Ignored,
            }
        } else {
            LauncherOption::Setting
        }
    }
}

/// The field a caption word's row writes, `word.n.field`, edits that
/// field of word `n`.
pub proof fn law_word_field_reads_back(n: nat, field: Seq<char>)
    requires
        n <= usize::MAX,
    ensures
        field_of("word."@ + decimal(n) + seq!['.'] + field) == Ok::<FieldTargetView, FieldError>(
            FieldTargetView::Word(n as usize, field),
        ),
{
    reveal_strlit("word.");
    reveal_strlit("padding.all");
    reveal_strlit("padding.linked");
    reveal_strlit("library.query");
    law_written_index_reads_back(n);
    lemma_index_read(decimal(n));
    let d = decimal(n);
    let key = "word."@ + d + seq!['.'] + field;
    assert(key.subrange(0, 5) =~= "word."@);
    let rest = after(key, "word."@);
    assert(rest =~= d + seq!['.'] + field);
    lemma_decimal_reads_back(n);
    assert(!d.contains('.')) by {
        if d.contains('.') {
            let i = choose|i: int| 0 <= i < d.len() && d[i] == '.';
            assert(is_digit(d[i]));
        }
    }
    lemma_split_first(rest, '.', d, field);
    assert(key[0] == 'w');
    if key == "padding.all"@ || key == "padding.linked"@ || key == "library.query"@ {
        assert(key[0] != 'w');
    }
}

} // verus!
