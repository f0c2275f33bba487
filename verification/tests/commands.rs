use subtake::commands::{
    allowed_while_busy_now, item_command, parse_index, read_unsigned, Command, CommandError, NumberError, Target,
};

#[test]
fn an_index_reads_as_str_parse_reads_it() {
    assert_eq!(parse_index("0"), Some(0));
    assert_eq!(parse_index("42"), Some(42));
    assert_eq!(parse_index("+7"), Some(7));
    assert_eq!(parse_index("007"), Some(7));
    assert_eq!(parse_index(""), None);
    assert_eq!(parse_index("+"), None);
    assert_eq!(parse_index("-1"), None);
    assert_eq!(parse_index("1a"), None);
    assert_eq!(parse_index(" 1"), None);
    assert_eq!(parse_index("++1"), None);
    assert_eq!(parse_index("٣"), None);
    let max = usize::MAX.to_string();
    assert_eq!(parse_index(&max), Some(usize::MAX));
    assert_eq!(parse_index(&format!("{max}0")), None);
    for text in ["", "+", "-3", "12", "+12", "1_0", "99999999999999999999999"] {
        assert_eq!(parse_index(text), text.parse::<usize>().ok(), "{text:?}");
    }
}

#[test]
fn commands_on_list_items_take_their_index() {
    let item = |a: &str| Command::parse(a, false);
    assert_eq!(item("apply-preset-3"), Ok(Command::Indexed(Target::ApplyPreset, 3)));
    assert_eq!(item("duplicate-preset-0"), Ok(Command::Indexed(Target::DuplicatePreset, 0)));
    assert_eq!(item("update-preset-1"), Ok(Command::Indexed(Target::UpdatePreset, 1)));
    assert_eq!(item("share-preset-2"), Ok(Command::Indexed(Target::SharePreset, 2)));
    assert_eq!(item("default-preset-4"), Ok(Command::Indexed(Target::DefaultPreset, 4)));
    assert_eq!(item("remove-preset-5"), Ok(Command::Indexed(Target::RemovePreset, 5)));
    assert_eq!(item("recent-open-6"), Ok(Command::Indexed(Target::RecentTile, 6)));
    assert_eq!(item("library-open-7"), Ok(Command::Indexed(Target::Library, 7)));
    assert_eq!(item("wallpaper-8"), Ok(Command::Indexed(Target::Wallpaper, 8)));
    assert_eq!(item("recovery-9"), Ok(Command::Indexed(Target::Recovery, 9)));
    assert_eq!(item("recent-10"), Ok(Command::Indexed(Target::Recent, 10)));
    assert_eq!(item("apply-preset-x"), Err(CommandError::BadIndex(NumberError::InvalidDigit)));
    assert_eq!(item("recent-"), Err(CommandError::BadIndex(NumberError::Empty)));
    assert_eq!(item("recent-99999999999999999999999"), Err(CommandError::BadIndex(NumberError::TooLarge)));
}

#[test]
fn other_commands_carry_their_text() {
    let parse = |a: &str| Command::parse(a, false);
    assert_eq!(parse("new-preset"), Ok(Command::NewPreset));
    assert_eq!(parse("import-preset"), Ok(Command::ImportPreset));
    assert_eq!(parse("toggle-lane-Zoom"), Ok(Command::ToggleLane("Zoom".into())));
    assert_eq!(parse("preset-part-2-camera"), Ok(Command::PresetPart(2, "camera".into())));
    assert_eq!(parse("preset-part-2-a-b"), Ok(Command::PresetPart(2, "a-b".into())));
    assert_eq!(parse("preset-part-2"), Err(CommandError::MissingPart));
    assert_eq!(parse("preset-part-x-camera"), Err(CommandError::BadIndex(NumberError::InvalidDigit)));
    assert_eq!(parse("export-preset-720"), Ok(Command::ExportPreset(Some(720))));
    assert_eq!(parse("export-preset-1080"), Ok(Command::ExportPreset(Some(1080))));
    assert_eq!(parse("export-preset-source"), Ok(Command::ExportPreset(None)));
    assert_eq!(parse("add-zoom"), Ok(Command::AddRegion("zoom".into())));
    assert_eq!(parse("add-marker"), Ok(Command::Named));
    assert_eq!(parse("wallpapers"), Ok(Command::Named));
    assert_eq!(parse("export"), Ok(Command::Named));
    assert_eq!(parse("no-such-command"), Ok(Command::Named));
}

#[test]
fn a_busy_editor_takes_only_cancel_and_window_commands() {
    for action in ["cancel", "show", "drag-window", "drag-launcher", "hide-launcher", "open-settings"] {
        assert!(allowed_while_busy_now(action));
        assert_eq!(Command::parse(action, true), Ok(Command::Named));
    }
    assert!(!allowed_while_busy_now("export"));
    assert_eq!(Command::parse("export", true), Err(CommandError::Busy));
    assert_eq!(Command::parse("apply-preset-1", true), Err(CommandError::Busy));
    assert_eq!(
        CommandError::Busy.message(),
        "Wait for the current operation or cancel it first"
    );
    assert_eq!(CommandError::MissingPart.message(), "Preset part missing");
}

#[test]
fn what_the_interface_writes_reads_back() {
    let targets = [
        ("duplicate-preset-", Target::DuplicatePreset),
        ("update-preset-", Target::UpdatePreset),
        ("share-preset-", Target::SharePreset),
        ("default-preset-", Target::DefaultPreset),
        ("apply-preset-", Target::ApplyPreset),
        ("recent-open-", Target::RecentTile),
        ("library-open-", Target::Library),
        ("remove-preset-", Target::RemovePreset),
        ("wallpaper-", Target::Wallpaper),
        ("recovery-", Target::Recovery),
        ("recent-", Target::Recent),
    ];
    for (prefix, target) in targets {
        for index in [0usize, 1, 9, 10, 42, 1_000_007, usize::MAX] {
            let action = format!("{prefix}{index}");
            assert_eq!(Command::parse(&action, false), Ok(Command::Indexed(target, index)), "{action}");
        }
    }
}

#[test]
fn the_interface_writes_commands_on_items() {
    assert_eq!(item_command(Target::Library, 3), "library-open-3");
    assert_eq!(item_command(Target::RecentTile, 0), "recent-open-0");
    assert_eq!(item_command(Target::ApplyPreset, 12), "apply-preset-12");
    for target in [Target::Wallpaper, Target::Recovery, Target::Recent, Target::DefaultPreset] {
        for index in [0usize, 7, 100, usize::MAX] {
            assert_eq!(Command::parse(&item_command(target, index), false), Ok(Command::Indexed(target, index)));
        }
    }
}

#[test]
fn a_refused_number_says_why_as_std_does() {
    let samples = ["", "+", "-", "-1", "12a", "a12", "99999999999999999999999", "99999999999999999999999x", "+42", "4294967296"];
    for text in samples {
        let std_usize = text.parse::<usize>().map_err(|e| e.to_string());
        let ours = read_unsigned(text, usize::MAX as u128).map(|v| v as usize).map_err(|e| e.message().to_string());
        assert_eq!(ours, std_usize, "{text:?}");
        let std_u32 = text.parse::<u32>().map_err(|e| e.to_string());
        let ours = read_unsigned(text, u32::MAX as u128).map(|v| v as u32).map_err(|e| e.message().to_string());
        assert_eq!(ours, std_u32, "{text:?}");
    }
    let error = Command::parse("apply-preset-x", false).unwrap_err();
    assert_eq!(error.message(), "invalid digit found in string");
}
