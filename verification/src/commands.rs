//! The editor's commands: the names its controls fire, such as
//! `apply-preset-2` or `toggle-lane-Zoom`, read into what they ask for.

use vstd::prelude::*;
use crate::text::{str_eq, strip_prefix, split_once, decimal, digit, push_str, push_count};

verus! {

/// Whether `c` is one of the ASCII digits `0` to `9`.
pub open spec fn is_digit(c: char) -> bool {
    '0' as u32 <= c as u32 && c as u32 <= '9' as u32
}

/// The value of the digit `c`.
pub open spec fn digit_value(c: char) -> nat {
    (c as u32 - '0' as u32) as nat
}

/// Whether every character of `s` is a digit.
pub open spec fn all_digits(s: Seq<char>) -> bool {
    forall|i: int| 0 <= i < s.len() ==> is_digit(#[trigger] s[i])
}

/// The number that the digits `s` write, most significant first.
pub open spec fn digits_value(s: Seq<char>) -> nat
    decreases s.len(),
{
    if s.len() == 0 {
        0
    } else {
        digits_value(s.drop_last()) * 10 + digit_value(s.last())
    }
}

/// The digits of an unsigned number as `str::parse` reads them: all of
/// `s` but one leading `+`, where it has one.
pub open spec fn unsigned_digits(s: Seq<char>) -> Seq<char> {
    if s.len() > 0 && s[0] == '+' {
        s.skip(1)
    } else {
        s
    }
}

/// What `str::parse::<usize>` reads from `s`: the number, where `s` is an
/// optional `+` and then one or more digits whose value fits in a `usize`;
/// nothing otherwise.
pub open spec fn index_value(s: Seq<char>) -> Option<nat> {
    let d = unsigned_digits(s);
    if d.len() > 0 && all_digits(d) && digits_value(d) <= usize::MAX {
        Some(digits_value(d))
    } else {
        None
    }
}

/// Why `str::parse` refuses a whole number, as `ParseIntError` tells it.
#[derive(Clone, Copy, Debug, PartialEq, Eq, Structural)]
pub enum NumberError {
    /// The text is empty.
    Empty,
    /// A character is not a digit (a lone sign included).
    InvalidDigit,
    /// The number is larger than the type holds.
    TooLarge,
}

/// What `ParseIntError` says of a refusal.
pub open spec fn number_message(e: NumberError) -> Seq<char> {
    match e {
        NumberError::Empty => "cannot parse integer from empty string"@,
        NumberError::InvalidDigit => "invalid digit found in string"@,
        NumberError::TooLarge => "number too large to fit in target type"@,
    }
}

impl NumberError {
    /// `number_message` of the refusal.
    pub fn message(&self) -> (r: &'static str)
        ensures
            r@ == number_message(*self),
    {
        match self {
            NumberError::Empty => "cannot parse integer from empty string",
            NumberError::InvalidDigit => "invalid digit found in string",
            NumberError::TooLarge => "number too large to fit in target type",
        }
    }
}

/// The digits `d` read from the left while their value stays at most
/// `max`: the value, or the first problem met, a character that is not a
/// digit or a value past `max`.
pub open spec fn digits_read(d: Seq<char>, max: nat) -> Result<nat, NumberError>
    decreases d.len(),
{
    if d.len() == 0 {
        Ok(0)
    } else {
        match digits_read(d.drop_last(), max) {
            Err(e) => Err(e),
            Ok(v) => if !is_digit(d.last()) {
                Err(NumberError::InvalidDigit)
            } else if v * 10 + digit_value(d.last()) > max {
                Err(NumberError::TooLarge)
            } else {
                Ok(v * 10 + digit_value(d.last()))
            },
        }
    }
}

/// What `str::parse` reads from `s` for an unsigned type whose largest
/// value is `max`: nothing from an empty text; after one leading `+`, the
/// digits read from the left.
pub open spec fn unsigned_read(s: Seq<char>, max: nat) -> Result<nat, NumberError> {
    if s.len() == 0 {
        Err(NumberError::Empty)
    } else if unsigned_digits(s).len() == 0 {
        Err(NumberError::InvalidDigit)
    } else {
        digits_read(unsigned_digits(s), max)
    }
}

/// Reading succeeds just where the digits are all digits and their value
/// is at most `max`, and then gives that value.
pub proof fn lemma_digits_read(d: Seq<char>, max: nat)
    ensures
        (digits_read(d, max) is Ok) == (all_digits(d) && digits_value(d) <= max),
        digits_read(d, max) is Ok ==> digits_read(d, max)->Ok_0 == digits_value(d),
    decreases d.len(),
{
    if d.len() > 0 {
        let p = d.drop_last();
        lemma_digits_read(p, max);
        if all_digits(d) {
            assert forall|i: int| 0 <= i < p.len() implies is_digit(#[trigger] p[i]) by {
                assert(p[i] == d[i]);
            }
        }
        if !all_digits(p) {
            let i = choose|i: int| 0 <= i < p.len() && !is_digit(#[trigger] p[i]);
            assert(d[i] == p[i]);
        }
        if all_digits(p) && is_digit(d.last()) {
            assert forall|i: int| 0 <= i < d.len() implies is_digit(#[trigger] d[i]) by {
                if i < p.len() {
                    assert(d[i] == p[i]);
                }
            }
        }
    }
}

/// Where `str::parse::<usize>` succeeds: `index_value`.
pub proof fn lemma_index_read(s: Seq<char>)
    ensures
        match unsigned_read(s, usize::MAX as nat) {
            Ok(v) => index_value(s) == Some(v),
            Err(_) => index_value(s) is None,
        },
{
    lemma_digits_read(unsigned_digits(s), usize::MAX as nat);
    if s.len() == 0 {
        assert(unsigned_digits(s).len() == 0);
    }
}

/// An error met in the first digits is the error of them all.
proof fn lemma_digits_read_prefix(d: Seq<char>, m: int, max: nat)
    requires
        0 <= m <= d.len(),
        digits_read(d.take(m), max) is Err,
    ensures
        digits_read(d, max) == digits_read(d.take(m), max),
    decreases d.len() - m,
{
    if m < d.len() {
        let q = d.take(m + 1);
        assert(q.drop_last() =~= d.take(m));
        lemma_digits_read_prefix(d, m + 1, max);
    } else {
        assert(d.take(m) =~= d);
    }
}

/// `text` read as `str::parse` reads an unsigned type whose largest value
/// is `max`: `unsigned_read`.
pub fn read_unsigned(text: &str, max: u128) -> (r: Result<u128, NumberError>)
    requires
        max <= u64::MAX,
    ensures
        match r {
            Ok(v) => unsigned_read(text@, max as nat) == Ok::<nat, NumberError>(v as nat),
            Err(e) => unsigned_read(text@, max as nat) == Err::<nat, NumberError>(e),
        },
{
    let ghost s = text@;
    let ghost start: int = if s.len() > 0 && s[0] == '+' { 1 } else { 0 };
    let ghost d = unsigned_digits(s);
    let mut value: u128 = 0;
    let mut first = true;
    let mut any = false;
    let ghost mut n: int = 0;
    for c in it: text.chars()
        invariant
            s == text@,
            it.seq() == s,
            n == it.index(),
            max <= u64::MAX,
            start == (if s.len() > 0 && s[0] == '+' { 1int } else { 0int }),
            d == unsigned_digits(s),
            first == (n == 0),
            first ==> value == 0,
            first || n >= start,
            n >= start ==> digits_read(s.subrange(start, n), max as nat) == Ok::<nat, NumberError>(value as nat),
            value <= max,
            any == (n > start),
    {
        let ghost k = n;
        if first && c == '+' {
            first = false;
        } else {
            first = false;
            let ghost before = s.subrange(start, k);
            let ghost after = s.subrange(start, k + 1);
            assert(after.drop_last() =~= before);
            assert(after =~= d.take(k + 1 - start));
            let code = c as u32;
            if code < 48 || code > 57 {
                proof {
                    lemma_digits_read_prefix(d, k + 1 - start, max as nat);
                }
                return Err(NumberError::InvalidDigit);
            }
            let next = value * 10 + (code - 48) as u128;
            if next > max {
                proof {
                    lemma_digits_read_prefix(d, k + 1 - start, max as nat);
                }
                return Err(NumberError::TooLarge);
            }
            value = next;
            any = true;
        }
        proof {
            n = n + 1;
        }
    }
    proof {
        assert(n == s.len());
        if s.len() > 0 {
            assert(d =~= s.subrange(start, s.len() as int));
        }
    }
    if first {
        Err(NumberError::Empty)
    } else if !any {
        Err(NumberError::InvalidDigit)
    } else {
        Ok(value)
    }
}

/// `text` read as an index, as `str::parse::<usize>` reads it.
pub fn parse_index(text: &str) -> (r: Option<usize>)
    ensures
        match r {
            Some(v) => index_value(text@) == Some(v as nat),
            None => index_value(text@) is None,
        },
{
    proof {
        lemma_index_read(text@);
    }
    match read_unsigned(text, usize::MAX as u128) {
        Ok(v) => Some(v as usize),
        Err(_) => None,
    }
}

/// The saved things that a command picks by their place in a list.
#[derive(Clone, Copy, Debug, PartialEq, Eq, Structural)]
pub enum Target {
    /// `duplicate-preset-N`: a copy of preset N.
    DuplicatePreset,
    /// `update-preset-N`: preset N takes the project's settings.
    UpdatePreset,
    /// `share-preset-N`: preset N written out elsewhere.
    SharePreset,
    /// `default-preset-N`: preset N made, or no longer, the default.
    DefaultPreset,
    /// `apply-preset-N`: preset N applied to the project.
    ApplyPreset,
    /// `recent-open-N`: library item N opened from a Recent tile, and the
    /// editor brought forward.
    RecentTile,
    /// `library-open-N`: library item N opened.
    Library,
    /// `remove-preset-N`: preset N removed.
    RemovePreset,
    /// `wallpaper-N`: wallpaper N made the background.
    Wallpaper,
    /// `recovery-N`: recovered project N opened.
    Recovery,
    /// `recent-N`: recent project N opened.
    Recent,
}

/// What a command asks for.
#[derive(Clone, Debug, PartialEq, Eq)]
pub enum Command {
    /// `new-preset`.
    NewPreset,
    /// `import-preset`.
    ImportPreset,
    /// A command on the `N`th of a list.
    Indexed(Target, usize),
    /// `preset-part-N-part`: that part of preset N turned over.
    PresetPart(usize, String),
    /// `toggle-lane-label`: the lane of that label hidden, muted or shown.
    ToggleLane(String),
    /// `export-preset-720`, `export-preset-1080`, or another size: the
    /// export's height limited to that many lines, or to the source's
    /// (`None`).
    ExportPreset(Option<u32>),
    /// `add-kind` (but `add-marker`): a region of that kind added.
    AddRegion(String),
    /// Any other name, which stands for itself.
    Named,
}

/// A `Command` with its texts as character sequences.
pub enum CommandView {
    NewPreset,
    ImportPreset,
    Indexed(Target, usize),
    PresetPart(usize, Seq<char>),
    ToggleLane(Seq<char>),
    ExportPreset(Option<u32>),
    AddRegion(Seq<char>),
    Named,
}

impl View for Command {
    type V = CommandView;

    open spec fn view(&self) -> CommandView {
        match self {
            Command::NewPreset => CommandView::NewPreset,
            Command::ImportPreset => CommandView::ImportPreset,
            Command::Indexed(t, i) => CommandView::Indexed(*t, *i),
            Command::PresetPart(i, part) => CommandView::PresetPart(*i, part@),
            Command::ToggleLane(label) => CommandView::ToggleLane(label@),
            Command::ExportPreset(limit) => CommandView::ExportPreset(*limit),
            Command::AddRegion(kind) => CommandView::AddRegion(kind@),
            Command::Named => CommandView::Named,
        }
    }
}

/// Why a command was refused.
#[derive(Clone, Copy, Debug, PartialEq, Eq, Structural)]
pub enum CommandError {
    /// Another operation runs, and the command is not one that may come
    /// meanwhile.
    Busy,
    /// The command's index is not a number that `usize` holds, for the
    /// reason given.
    BadIndex(NumberError),
    /// A `preset-part-` command names no part.
    MissingPart,
}

impl CommandError {
    /// What the editor's status line says of the refusal.
    pub fn message(&self) -> (r: &'static str)
        ensures
            *self == CommandError::Busy ==> r@ == "Wait for the current operation or cancel it first"@,
            *self matches CommandError::BadIndex(e) ==> r@ == number_message(e),
            *self == CommandError::MissingPart ==> r@ == "Preset part missing"@,
    {
        match self {
            CommandError::Busy => "Wait for the current operation or cancel it first",
            CommandError::BadIndex(e) => e.message(),
            CommandError::MissingPart => "Preset part missing",
        }
    }
}

/// The commands that may run while another operation is under way: those
/// that cancel it, or only move or show windows.
pub open spec fn allowed_while_busy(a: Seq<char>) -> bool {
    a == "cancel"@ || a == "show"@ || a == "drag-window"@ || a == "drag-launcher"@
        || a == "hide-launcher"@ || a == "open-settings"@
}

/// While an operation runs, every command is refused as busy except
/// cancel, show, drag-window, drag-launcher, hide-launcher and
/// open-settings, and those few are read just as they are when nothing runs.
pub proof fn law_busy_refuses_all_but_window_commands(a: Seq<char>)
    ensures
        !(a == "cancel"@ || a == "show"@ || a == "drag-window"@ || a == "drag-launcher"@
            || a == "hide-launcher"@ || a == "open-settings"@)
            ==> command_of(a, true) == Err::<CommandView, CommandError>(CommandError::Busy),
        (a == "cancel"@ || a == "show"@ || a == "drag-window"@ || a == "drag-launcher"@
            || a == "hide-launcher"@ || a == "open-settings"@)
            ==> command_of(a, true) == command_of(a, false),
{
}

/// `a` without its first `prefix.len()` characters.
pub open spec fn after(a: Seq<char>, prefix: Seq<char>) -> Seq<char> {
    a.skip(prefix.len() as int)
}

/// A command on item `rest` of a list, `rest` read as an index.
pub open spec fn indexed(rest: Seq<char>, t: Target) -> Result<CommandView, CommandError> {
    match unsigned_read(rest, usize::MAX as nat) {
        Ok(i) => Ok(CommandView::Indexed(t, i as usize)),
        Err(e) => Err(CommandError::BadIndex(e)),
    }
}

/// `N-part` read as a preset's index and one of its parts, split at the
/// first `-`.
pub open spec fn preset_part(rest: Seq<char>) -> Result<CommandView, CommandError> {
    match rest.index_of_first('-') {
        Some(i) => match unsigned_read(rest.take(i), usize::MAX as nat) {
            Ok(n) => Ok(CommandView::PresetPart(n as usize, rest.skip(i + 1))),
            Err(e) => Err(CommandError::BadIndex(e)),
        },
        None => Err(CommandError::MissingPart),
    }
}

/// The height an export preset names: 720 or 1080 lines, or the source's.
pub open spec fn export_limit(rest: Seq<char>) -> Option<u32> {
    if rest == "720"@ {
        Some(720)
    } else if rest == "1080"@ {
        Some(1080)
    } else {
        None
    }
}

/// What the command `a` asks for, or why it is refused, while an
/// operation runs (`busy`) or not. The preset commands are read first,
/// then the commands on list items, in this order; `add-marker` stands
/// for itself.
pub open spec fn command_of(a: Seq<char>, busy: bool) -> Result<CommandView, CommandError> {
    if busy && !allowed_while_busy(a) {
        Err(CommandError::Busy)
    } else if a == "new-preset"@ {
        Ok(CommandView::NewPreset)
    } else if a == "import-preset"@ {
        Ok(CommandView::ImportPreset)
    } else if "duplicate-preset-"@.is_prefix_of(a) {
        indexed(after(a, "duplicate-preset-"@), Target::DuplicatePreset)
    } else if "update-preset-"@.is_prefix_of(a) {
        indexed(after(a, "update-preset-"@), Target::UpdatePreset)
    } else if "share-preset-"@.is_prefix_of(a) {
        indexed(after(a, "share-preset-"@), Target::SharePreset)
    } else if "default-preset-"@.is_prefix_of(a) {
        indexed(after(a, "default-preset-"@), Target::DefaultPreset)
    } else if "preset-part-"@.is_prefix_of(a) {
        preset_part(after(a, "preset-part-"@))
    } else if "apply-preset-"@.is_prefix_of(a) {
        indexed(after(a, "apply-preset-"@), Target::ApplyPreset)
    } else if "toggle-lane-"@.is_prefix_of(a) {
        Ok(CommandView::ToggleLane(after(a, "toggle-lane-"@)))
    } else if "recent-open-"@.is_prefix_of(a) {
        indexed(after(a, "recent-open-"@), Target::RecentTile)
    } else if "library-open-"@.is_prefix_of(a) {
        indexed(after(a, "library-open-"@), Target::Library)
    } else if "remove-preset-"@.is_prefix_of(a) {
        indexed(after(a, "remove-preset-"@), Target::RemovePreset)
    } else if "wallpaper-"@.is_prefix_of(a) {
        indexed(after(a, "wallpaper-"@), Target::Wallpaper)
    } else if "export-preset-"@.is_prefix_of(a) {
        Ok(CommandView::ExportPreset(export_limit(after(a, "export-preset-"@))))
    } else if "recovery-"@.is_prefix_of(a) {
        indexed(after(a, "recovery-"@), Target::Recovery)
    } else if "recent-"@.is_prefix_of(a) {
        indexed(after(a, "recent-"@), Target::Recent)
    } else if "add-"@.is_prefix_of(a) && a != "add-marker"@ {
        Ok(CommandView::AddRegion(after(a, "add-"@)))
    } else {
        Ok(CommandView::Named)
    }
}

/// Whether `action` may run while another operation is under way.
pub fn allowed_while_busy_now(action: &str) -> (r: bool)
    ensures
        r == allowed_while_busy(action@),
{
    str_eq(action, "cancel") || str_eq(action, "show") || str_eq(action, "drag-window")
        || str_eq(action, "drag-launcher") || str_eq(action, "hide-launcher")
        || str_eq(action, "open-settings")
}

fn on_item(rest: &str, t: Target) -> (r: Result<Command, CommandError>)
    ensures
        match r {
            Ok(c) => indexed(rest@, t) == Ok::<CommandView, CommandError>(c@),
            Err(e) => indexed(rest@, t) == Err::<CommandView, CommandError>(e),
        },
{
    match read_unsigned(rest, usize::MAX as u128) {
        Ok(i) => Ok(Command::Indexed(t, i as usize)),
        Err(e) => Err(CommandError::BadIndex(e)),
    }
}

fn on_part(rest: &str) -> (r: Result<Command, CommandError>)
    ensures
        match r {
            Ok(c) => preset_part(rest@) == Ok::<CommandView, CommandError>(c@),
            Err(e) => preset_part(rest@) == Err::<CommandView, CommandError>(e),
        },
{
    match split_once(rest, '-') {
        Some((index, part)) => {
            proof {
                let s = rest@;
                let k = index@.len() as int;
                assert(s[k] == '-');
                assert(s.contains('-'));
                s.index_of_first_ensures('-');
                let i = s.index_of_first('-').unwrap();
                if i < k {
                    assert(index@[i] == s[i]);
                }
                assert(s.take(k) =~= index@);
                assert(s.skip(k + 1) =~= part@);
            }
            match read_unsigned(index, usize::MAX as u128) {
                Ok(i) => Ok(Command::PresetPart(i as usize, part.to_owned())),
                Err(e) => Err(CommandError::BadIndex(e)),
            }
        },
        None => {
            proof {
                rest@.index_of_first_ensures('-');
            }
            Err(CommandError::MissingPart)
        },
    }
}

impl Command {
    /// What `action` asks for, or why it is refused, while an operation
    /// runs (`busy`) or not.
    pub fn parse(action: &str, busy: bool) -> (r: Result<Command, CommandError>)
        ensures
            match r {
                Ok(c) => command_of(action@, busy) == Ok::<CommandView, CommandError>(c@),
                Err(e) => command_of(action@, busy) == Err::<CommandView, CommandError>(e),
            },
    {
        if busy && !allowed_while_busy_now(action) {
            return Err(CommandError::Busy);
        }
        if str_eq(action, "new-preset") {
            return Ok(Command::NewPreset);
        }
        if str_eq(action, "import-preset") {
            return Ok(Command::ImportPreset);
        }
        if let Some(rest) = strip_prefix(action, "duplicate-preset-") {
            return on_item(rest, Target::DuplicatePreset);
        }
        if let Some(rest) = strip_prefix(action, "update-preset-") {
            return on_item(rest, Target::UpdatePreset);
        }
        if let Some(rest) = strip_prefix(action, "share-preset-") {
            return on_item(rest, Target::SharePreset);
        }
        if let Some(rest) = strip_prefix(action, "default-preset-") {
            return on_item(rest, Target::DefaultPreset);
        }
        if let Some(rest) = strip_prefix(action, "preset-part-") {
            return on_part(rest);
        }
        if let Some(rest) = strip_prefix(action, "apply-preset-") {
            return on_item(rest, Target::ApplyPreset);
        }
        if let Some(rest) = strip_prefix(action, "toggle-lane-") {
            return Ok(Command::ToggleLane(rest.to_owned()));
        }
        if let Some(rest) = strip_prefix(action, "recent-open-") {
            return on_item(rest, Target::RecentTile);
        }
        if let Some(rest) = strip_prefix(action, "library-open-") {
            return on_item(rest, Target::Library);
        }
        if let Some(rest) = strip_prefix(action, "remove-preset-") {
            return on_item(rest, Target::RemovePreset);
        }
        if let Some(rest) = strip_prefix(action, "wallpaper-") {
            return on_item(rest, Target::Wallpaper);
        }
        if let Some(rest) = strip_prefix(action, "export-preset-") {
            let limit = if str_eq(rest, "720") {
                Some(720)
            } else if str_eq(rest, "1080") {
                Some(1080)
            } else {
                None
            };
            return Ok(Command::ExportPreset(limit));
        }
        if let Some(rest) = strip_prefix(action, "recovery-") {
            return on_item(rest, Target::Recovery);
        }
        if let Some(rest) = strip_prefix(action, "recent-") {
            return on_item(rest, Target::Recent);
        }
        if let Some(rest) = strip_prefix(action, "add-") {
            if !str_eq(action, "add-marker") {
                return Ok(Command::AddRegion(rest.to_owned()));
            }
        }
        Ok(Command::Named)
    }
}

/// The text in front of a list item's index in a command on it.
pub open spec fn item_prefix(t: Target) -> Seq<char> {
    match t {
        Target::DuplicatePreset => "duplicate-preset-"@,
        Target::UpdatePreset => "update-preset-"@,
        Target::SharePreset => "share-preset-"@,
        Target::DefaultPreset => "default-preset-"@,
        Target::ApplyPreset => "apply-preset-"@,
        Target::RecentTile => "recent-open-"@,
        Target::Library => "library-open-"@,
        Target::RemovePreset => "remove-preset-"@,
        Target::Wallpaper => "wallpaper-"@,
        Target::Recovery => "recovery-"@,
        Target::Recent => "recent-"@,
    }
}

/// The command on item `index` of a list, as the interface writes it:
/// `item_prefix(t)` and the index.
pub fn item_command(t: Target, index: usize) -> (r: String)
    ensures
        r@ == item_prefix(t) + decimal(index as nat),
{
    let mut s = String::new();
    let prefix = match t {
        Target::DuplicatePreset => "duplicate-preset-",
        Target::UpdatePreset => "update-preset-",
        Target::SharePreset => "share-preset-",
        Target::DefaultPreset => "default-preset-",
        Target::ApplyPreset => "apply-preset-",
        Target::RecentTile => "recent-open-",
        Target::Library => "library-open-",
        Target::RemovePreset => "remove-preset-",
        Target::Wallpaper => "wallpaper-",
        Target::Recovery => "recovery-",
        Target::Recent => "recent-",
    };
    push_str(&mut s, prefix);
    push_count(&mut s, index as u128);
    s
}

/// A digit's character reads back as the digit.
proof fn lemma_digit_reads_back(d: nat)
    requires
        d < 10,
    ensures
        is_digit(digit(d)),
        digit_value(digit(d)) == d,
{
    assert('0' as u32 == 48);
    assert('9' as u32 == 57);
    if d == 0 { assert('0' as u32 == 48); }
    else if d == 1 { assert('1' as u32 == 49); }
    else if d == 2 { assert('2' as u32 == 50); }
    else if d == 3 { assert('3' as u32 == 51); }
    else if d == 4 { assert('4' as u32 == 52); }
    else if d == 5 { assert('5' as u32 == 53); }
    else if d == 6 { assert('6' as u32 == 54); }
    else if d == 7 { assert('7' as u32 == 55); }
    else if d == 8 { assert('8' as u32 == 56); }
    else { assert('9' as u32 == 57); }
}

/// The digits of `n` are digits, and read back as `n`.
pub proof fn lemma_decimal_reads_back(n: nat)
    ensures
        decimal(n).len() > 0,
        all_digits(decimal(n)),
        digits_value(decimal(n)) == n,
    decreases n,
{
    lemma_digit_reads_back(n % 10);
    if n >= 10 {
        lemma_decimal_reads_back(n / 10);
        assert(decimal(n).drop_last() =~= decimal(n / 10));
        assert(decimal(n).last() == digit(n % 10));
        assert(digits_value(decimal(n)) == digits_value(decimal(n / 10)) * 10 + digit_value(digit(n % 10)));
        assert(n == (n / 10) * 10 + n % 10);
        assert forall|i: int| 0 <= i < decimal(n).len() implies is_digit(#[trigger] decimal(n)[i]) by {
            if i < decimal(n).len() - 1 {
                assert(decimal(n)[i] == decimal(n / 10)[i]);
            }
        }
    } else {
        assert(decimal(n) =~= seq![digit(n)]);
        assert(decimal(n).drop_last() =~= Seq::<char>::empty());
        assert(digits_value(decimal(n)) == digits_value(Seq::<char>::empty()) * 10 + digit_value(digit(n)));
    }
}

/// An index written in decimal is read back as itself.
pub proof fn law_written_index_reads_back(n: nat)
    requires
        n <= usize::MAX,
    ensures
        index_value(decimal(n)) == Some(n),
{
    lemma_decimal_reads_back(n);
    lemma_digit_reads_back(0);
    assert(is_digit(decimal(n)[0]));
    assert(unsigned_digits(decimal(n)) == decimal(n));
}

/// `q` is no prefix of `a`, nor `a` itself, where they differ at `i`.
proof fn lemma_differs_at(q: Seq<char>, a: Seq<char>, i: int)
    requires
        0 <= i < q.len(),
        i < a.len() ==> q[i] != a[i],
    ensures
        !q.is_prefix_of(a),
        q != a,
{
    if q.is_prefix_of(a) {
        assert(q[i] == a.subrange(0, q.len() as int)[i]);
    }
}

/// A command that the interface writes for item `n` of a list, its
/// prefix and then the index, names that item of that list.
pub proof fn law_item_command_reads_back(t: Target, n: nat)
    requires
        n <= usize::MAX,
    ensures
        command_of(item_prefix(t) + decimal(n), false) == Ok::<CommandView, CommandError>(
            CommandView::Indexed(t, n as usize),
        ),
{
    law_written_index_reads_back(n);
    lemma_decimal_reads_back(n);
    lemma_index_read(decimal(n));
    let p = item_prefix(t);
    let d = decimal(n);
    let a = p + d;
    assert(after(a, p) =~= d);
    assert(is_digit(d[0]));
    reveal_strlit("new-preset");
    reveal_strlit("import-preset");
    reveal_strlit("duplicate-preset-");
    reveal_strlit("update-preset-");
    reveal_strlit("share-preset-");
    reveal_strlit("default-preset-");
    reveal_strlit("preset-part-");
    reveal_strlit("apply-preset-");
    reveal_strlit("toggle-lane-");
    reveal_strlit("recent-open-");
    reveal_strlit("library-open-");
    reveal_strlit("remove-preset-");
    reveal_strlit("wallpaper-");
    reveal_strlit("export-preset-");
    reveal_strlit("recovery-");
    reveal_strlit("recent-");
    reveal_strlit("add-");
    assert(a[0] == p[0]);
    assert(a.subrange(0, p.len() as int) =~= p);
    lemma_differs_at("new-preset"@, a, 0);
    lemma_differs_at("import-preset"@, a, 0);
    if t != Target::DuplicatePreset {
        if t == Target::DefaultPreset {
            assert(a[1] == p[1]);
            lemma_differs_at("duplicate-preset-"@, a, 1);
        } else {
            lemma_differs_at("duplicate-preset-"@, a, 0);
        }
    }
    if t != Target::UpdatePreset {
        lemma_differs_at("update-preset-"@, a, 0);
    }
    if t != Target::SharePreset {
        lemma_differs_at("share-preset-"@, a, 0);
    }
    if t != Target::DefaultPreset && t != Target::DuplicatePreset {
        lemma_differs_at("default-preset-"@, a, 0);
    }
    lemma_differs_at("preset-part-"@, a, 0);
    if t != Target::ApplyPreset {
        lemma_differs_at("apply-preset-"@, a, 0);
    }
    lemma_differs_at("toggle-lane-"@, a, 0);
    if t == Target::RemovePreset {
        assert(a[2] == p[2]);
        lemma_differs_at("recent-open-"@, a, 2);
    } else if t == Target::Recovery {
        assert(a[3] == p[3]);
        lemma_differs_at("recent-open-"@, a, 3);
        assert(a[2] == p[2]);
        lemma_differs_at("remove-preset-"@, a, 2);
    } else if t == Target::Recent {
        assert(a[7] == d[0]);
        lemma_differs_at("recent-open-"@, a, 7);
        assert(a[2] == p[2]);
        lemma_differs_at("remove-preset-"@, a, 2);
        assert(a[3] == p[3]);
        lemma_differs_at("recovery-"@, a, 3);
    } else if t != Target::RecentTile {
        lemma_differs_at("recent-open-"@, a, 0);
    }
    if t != Target::Library {
        lemma_differs_at("library-open-"@, a, 0);
    }
    if t != Target::RemovePreset && t != Target::Recovery && t != Target::Recent && t != Target::RecentTile {
        lemma_differs_at("remove-preset-"@, a, 0);
    }
    if t != Target::Wallpaper {
        lemma_differs_at("wallpaper-"@, a, 0);
    }
    lemma_differs_at("export-preset-"@, a, 0);
    if t != Target::Recovery && t != Target::Recent && t != Target::RecentTile && t != Target::RemovePreset {
        lemma_differs_at("recovery-"@, a, 0);
    }
}

} // verus!
