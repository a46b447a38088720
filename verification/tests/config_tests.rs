use hypede::action::{Action, Direction, ScreenshotTarget};
use hypede::anim::{Phase, Stagger};
use hypede::config::{
    action_for, apply_status, default_keybinds, keybind_warnings, ApplyOutcome, Binding, LayoutMode,
    PanelConfig, PanelPosition,
};
use hypede::ipc::{
    frame_message, is_blank_line, parse, parse_u8, window_list_text, workspace_list_text, Command, EventKind, ParseError, Request, WindowInfo,
    WorkspaceInfo, HELP,
};
use hypede::paths::{
    application_dirs_from, asset_dirs_from, cache_dir_from, config_dir_from, config_file,
    control_socket_from, default_wallpaper, find_asset, generated_css_file, APP_DIR,
};
use hypede::shortcut::{Key, Mods, Shortcut, ShortcutParseError};
use std::time::Duration;

fn spawn(command: &str) -> Action {
    Action::Spawn { command: command.to_string() }
}

// --- actions ---

#[test]
fn directions_have_opposites() {
    assert_eq!(Direction::Left.opposite(), Direction::Right);
    assert_eq!(Direction::Up.opposite().opposite(), Direction::Up);
    for d in [Direction::Left, Direction::Right, Direction::Up, Direction::Down] {
        assert_ne!(d.opposite(), d);
        assert_eq!(d.opposite().opposite(), d);
    }
}

#[test]
fn splits_a_plain_command() {
    let action = spawn("foot -e htop");
    assert_eq!(action.command_line().unwrap(), vec!["foot", "-e", "htop"]);
}

#[test]
fn splits_quoted_arguments_as_one() {
    let action = spawn("foot -e 'htop -d 5'");
    assert_eq!(action.command_line().unwrap(), vec!["foot", "-e", "htop -d 5"]);
}

#[test]
fn collapses_repeated_whitespace() {
    let action = spawn("  foot   -e    htop  ");
    assert_eq!(action.command_line().unwrap(), vec!["foot", "-e", "htop"]);
}

#[test]
fn keeps_an_explicitly_empty_argument() {
    let action = spawn("prog \"\" tail");
    assert_eq!(action.command_line().unwrap(), vec!["prog", "", "tail"]);
}

#[test]
fn rejects_an_unterminated_quote() {
    let action = spawn("foot -e 'htop");
    assert_eq!(action.command_line(), None);
}

#[test]
fn empty_command_yields_nothing() {
    assert_eq!(spawn("   ").command_line(), None);
}

#[test]
fn non_spawn_actions_have_no_command_line() {
    assert_eq!(Action::Quit.command_line(), None);
}

#[test]
fn every_action_describes_itself() {
    assert_eq!(Action::CloseWindow.description(), "Закрыть окно");
    assert!(Action::Workspace { index: 2 }.description().contains('2'));
}

// --- shortcuts ---

#[test]
fn parses_a_plain_combination() {
    let s: Shortcut = "Super+Q".parse().unwrap();
    assert_eq!(s.mods, Mods::logo_only());
    assert_eq!(s.key, Key::Char('q'));
}

#[test]
fn parses_every_modifier_and_its_synonyms() {
    let a: Shortcut = "Super+Ctrl+Alt+Shift+K".parse().unwrap();
    assert_eq!(a.mods, Mods::none().with_logo().with_ctrl().with_alt().with_shift());
    let b: Shortcut = "mod4+control+mod1+shift+k".parse().unwrap();
    assert_eq!(a, b);
}

#[test]
fn modifier_order_does_not_matter() {
    let a: Shortcut = "Shift+Super+D".parse().unwrap();
    let b: Shortcut = "Super+Shift+D".parse().unwrap();
    assert_eq!(a, b);
}

#[test]
fn is_case_insensitive_and_tolerates_spaces() {
    let a: Shortcut = "  super + shift + q  ".parse().unwrap();
    assert_eq!(a, "Super+Shift+Q".parse().unwrap());
}

#[test]
fn parses_named_and_media_keys() {
    assert_eq!("Super+Return".parse::<Shortcut>().unwrap().key, Key::Named("Return".into()));
    assert_eq!("F5".parse::<Shortcut>().unwrap().key, Key::Named("F5".into()));
    assert_eq!(
        "XF86AudioRaiseVolume".parse::<Shortcut>().unwrap().key,
        Key::Named("XF86AudioRaiseVolume".into())
    );
}

#[test]
fn a_shortcut_without_modifiers_is_allowed() {
    let s: Shortcut = "Print".parse().unwrap();
    assert!(s.mods.is_empty());
}

#[test]
fn rejects_typos_instead_of_ignoring_them() {
    assert_eq!(
        "Super+Retrun".parse::<Shortcut>(),
        Err(ShortcutParseError::UnknownKey("Retrun".into()))
    );
    assert_eq!(
        "Hyper+Q".parse::<Shortcut>(),
        Err(ShortcutParseError::UnknownModifier("hyper".into()))
    );
}

#[test]
fn rejects_empty_and_modifier_only_input() {
    assert_eq!("".parse::<Shortcut>(), Err(ShortcutParseError::Empty));
    assert_eq!("   ".parse::<Shortcut>(), Err(ShortcutParseError::Empty));
    assert_eq!(
        "Super+Shift".parse::<Shortcut>(),
        Err(ShortcutParseError::ModifiersOnly("Super+Shift".into()))
    );
}

#[test]
fn display_is_canonical_and_reparses() {
    for input in ["shift+super+q", "ctrl+alt+Delete", "F11", "Super+space"] {
        let s: Shortcut = input.parse().unwrap();
        let shown = s.to_string();
        assert_eq!(shown.parse::<Shortcut>().unwrap(), s, "{shown}");
    }
    assert_eq!("shift+super+q".parse::<Shortcut>().unwrap().to_string(), "Super+Shift+Q");
}

#[test]
fn key_names_from_xkb_are_understood() {
    assert_eq!(Key::from_name("q").unwrap(), Key::Char('q'));
    assert_eq!(Key::from_name("Q").unwrap(), Key::Char('q'));
    assert_eq!(Key::from_name("space").unwrap(), Key::Named("Space".into()));
    assert_eq!(Key::from_name("Return").unwrap(), Key::Named("Return".into()));
    assert_eq!(Key::from_name("XF86AudioMute").unwrap(), Key::Named("XF86AudioMute".into()));
    assert!(Key::from_name("NoSymbol").is_err());
}

#[test]
fn xkb_name_maps_space_correctly() {
    let s: Shortcut = "Super+Space".parse().unwrap();
    assert_eq!(s.key.xkb_name(), "Space");
    assert_eq!(Key::Char(' ').xkb_name(), "space");
    assert_eq!(Key::Char('q').xkb_name(), "q");
}

#[test]
fn parse_errors_explain_themselves() {
    let err = "Super+Nope".parse::<Shortcut>().unwrap_err();
    assert!(err.to_string().contains("Nope"), "{}", err.to_string());
    assert_eq!(err.to_string(), "неизвестная клавиша: \"Nope\"");
    assert_eq!(ShortcutParseError::Empty.to_string(), "пустое сочетание клавиш");
    assert_eq!(
        ShortcutParseError::ModifiersOnly("Super+Shift".into()).to_string(),
        "в сочетании \"Super+Shift\" нет самой клавиши, только модификаторы"
    );
}

// --- settings ---

#[test]
fn layout_and_panel_defaults() {
    assert_eq!(LayoutMode::default(), LayoutMode::Tiling);
    assert_eq!(PanelPosition::default(), PanelPosition::Top);
    let panel = PanelConfig::default();
    assert!(panel.enabled);
    assert_eq!(panel.height, 36);
    assert_eq!(panel.modules_left, vec!["logo", "workspaces", "window-title"]);
    assert_eq!(panel.modules_center, vec!["clock"]);
    assert_eq!(panel.modules_right, vec!["tray", "network", "volume", "battery", "power"]);
    assert_eq!(panel.warning(), None);
}

#[test]
fn a_panel_without_height_is_reported() {
    let panel = PanelConfig { height: 0, ..PanelConfig::default() };
    assert_eq!(panel.warning().unwrap(), "высота панели 0 — панель не будет видна");
    let hidden = PanelConfig { height: 0, enabled: false, ..PanelConfig::default() };
    assert_eq!(hidden.warning(), None);
}

#[test]
fn a_binding_is_made_from_text() {
    let b = Binding::new("Super+Shift+Q", Action::Quit);
    assert_eq!(b.keys, "Super+Shift+Q".parse().unwrap());
    assert_eq!(b.action, Action::Quit);
}

#[test]
fn default_keybinds_have_no_duplicates() {
    let binds = default_keybinds();
    let mut seen: Vec<Shortcut> = Vec::new();
    for b in &binds {
        assert!(!seen.contains(&b.keys), "{} twice", b.keys.to_string());
        seen.push(b.keys.clone());
    }
    assert_eq!(binds.len(), 55);
}

#[test]
fn default_keybinds_are_what_their_text_says() {
    let binds = default_keybinds();
    let expect = |keys: &str, action: Action| {
        let shortcut: Shortcut = keys.parse().unwrap();
        assert_eq!(action_for(&binds, &shortcut), Some(&action), "{keys}");
    };
    expect("Super+Return", spawn("foot"));
    expect("Super+E", spawn("hype-files"));
    expect("Super+I", spawn("hype-settings"));
    expect("Super+Q", Action::CloseWindow);
    expect("Super+Space", Action::ToggleLauncher);
    expect("Super+Tab", Action::ToggleOverview);
    expect("Super+Shift+R", Action::ReloadConfig);
    expect("Super+Shift+E", Action::Quit);
    expect("Print", Action::Screenshot { target: ScreenshotTarget::Screen });
    expect("Shift+Print", Action::Screenshot { target: ScreenshotTarget::Region });
    expect("Super+Ctrl+K", Action::ResizeWindow { direction: Direction::Up, delta: 40 });
    expect("Super+Shift+Right", Action::MoveWindow { direction: Direction::Right });
    expect("Super+7", Action::Workspace { index: 7 });
    expect("Super+Shift+9", Action::MoveToWorkspace { index: 9 });
}

#[test]
fn both_vim_and_arrow_navigation_work_out_of_the_box() {
    let binds = default_keybinds();
    let by_arrow = action_for(&binds, &"Super+Left".parse().unwrap());
    let by_letter = action_for(&binds, &"Super+H".parse().unwrap());
    assert_eq!(by_arrow, by_letter);
    assert!(by_arrow.is_some());
}

#[test]
fn action_lookup_finds_the_binding() {
    let binds = default_keybinds();
    assert_eq!(action_for(&binds, &"Super+Q".parse().unwrap()), Some(&Action::CloseWindow));
    assert_eq!(action_for(&binds, &"Super+Z".parse().unwrap()), None);
}

#[test]
fn the_first_of_two_bindings_wins() {
    let binds = vec![
        Binding::new("Super+Q", Action::CloseWindow),
        Binding::new("Super+Q", Action::Quit),
    ];
    assert_eq!(action_for(&binds, &"Super+Q".parse().unwrap()), Some(&Action::CloseWindow));
}

#[test]
fn default_keybinds_raise_no_warnings() {
    assert!(keybind_warnings(&default_keybinds(), 9).is_empty());
}

#[test]
fn validation_spots_duplicate_bindings() {
    let binds = vec![
        Binding::new("Super+Q", Action::CloseWindow),
        Binding::new("Super+Q", Action::Quit),
    ];
    let warnings = keybind_warnings(&binds, 9);
    assert_eq!(warnings.len(), 1);
    assert!(warnings[0].contains("Super+Q"));
    assert_eq!(warnings[0], "сочетание Super+Q привязано несколько раз, сработает только первое");
}

#[test]
fn validation_spots_a_workspace_that_does_not_exist() {
    let warnings = keybind_warnings(&default_keybinds(), 4);
    assert!(warnings.iter().any(|w| w.contains("рабочего стола 9")), "{warnings:?}");
    assert_eq!(warnings.len(), 10);
    assert_eq!(warnings[0], "привязка Super+5: рабочего стола 5 не существует (их 4)");
}

#[test]
fn validation_spots_a_broken_spawn_command() {
    let binds = vec![Binding::new("Super+T", spawn("foot -e 'htop"))];
    let warnings = keybind_warnings(&binds, 9);
    assert!(warnings[0].contains("разобрать"));
    assert_eq!(warnings[0], "привязка Super+T: команду \"foot -e 'htop\" не удалось разобрать");
}

#[test]
fn validation_spots_a_layout_without_workspaces() {
    let warnings = keybind_warnings(&[], 0);
    assert_eq!(warnings, vec!["рабочих столов должно быть хотя бы один".to_string()]);
}

// --- control protocol ---

fn args(input: &[&str]) -> Vec<String> {
    input.iter().map(|s| s.to_string()).collect()
}

fn dispatched(input: &[&str]) -> Action {
    match parse(&args(input)).unwrap() {
        Command::Request(Request::Dispatch { action }) => action,
        other => panic!("{other:?}"),
    }
}

#[test]
fn no_arguments_shows_help() {
    assert_eq!(parse(&[]).unwrap(), Command::Help);
    assert_eq!(parse(&args(&["--help"])).unwrap(), Command::Help);
}

#[test]
fn simple_queries_map_to_requests() {
    assert_eq!(parse(&args(&["ping"])).unwrap(), Command::Request(Request::Ping));
    assert_eq!(parse(&args(&["windows"])).unwrap(), Command::Request(Request::ListWindows));
    assert_eq!(parse(&args(&["--version"])).unwrap(), Command::Request(Request::Version));
    assert_eq!(parse(&args(&["config"])).unwrap(), Command::Request(Request::GetConfig));
}

#[test]
fn dispatch_parses_every_action_shape() {
    assert_eq!(dispatched(&["dispatch", "close"]), Action::CloseWindow);
    assert_eq!(dispatched(&["dispatch", "workspace", "3"]), Action::Workspace { index: 3 });
    assert_eq!(
        dispatched(&["dispatch", "focus", "left"]),
        Action::FocusDirection { direction: Direction::Left }
    );
    assert_eq!(
        dispatched(&["dispatch", "screenshot"]),
        Action::Screenshot { target: ScreenshotTarget::Screen }
    );
    assert_eq!(
        dispatched(&["dispatch", "screenshot", "area"]),
        Action::Screenshot { target: ScreenshotTarget::Region }
    );
    assert_eq!(dispatched(&["dispatch", "move-to", "+2"]), Action::MoveToWorkspace { index: 2 });
}

#[test]
fn spawn_keeps_the_whole_command_line() {
    assert_eq!(dispatched(&["dispatch", "spawn", "foot", "-e", "htop"]), spawn("foot -e htop"));
}

#[test]
fn direction_shortcuts_work() {
    assert_eq!(
        dispatched(&["dispatch", "move", "r"]),
        Action::MoveWindow { direction: Direction::Right }
    );
}

#[test]
fn subscribe_without_arguments_takes_everything() {
    let Command::Subscribe(kinds) = parse(&args(&["subscribe"])).unwrap() else {
        panic!("a subscription was expected");
    };
    assert_eq!(kinds.len(), 5);
    assert!(!kinds.contains(&EventKind::Shell));
}

#[test]
fn subscribe_filters_by_kind() {
    let Command::Subscribe(kinds) = parse(&args(&["subscribe", "window", "focus"])).unwrap() else {
        panic!("a subscription was expected");
    };
    assert_eq!(kinds, vec![EventKind::Window, EventKind::Focus]);
}

#[test]
fn mistakes_are_explained_rather_than_swallowed() {
    assert!(parse(&args(&["чепуха"])).unwrap_err().0.contains("неизвестная команда"));
    assert!(parse(&args(&["dispatch"])).unwrap_err().0.contains("нужно указать"));
    assert!(parse(&args(&["dispatch", "workspace"])).unwrap_err().0.contains("номер"));
    assert!(parse(&args(&["dispatch", "workspace", "много"]))
        .unwrap_err()
        .0
        .contains("не похоже на номер"));
    assert!(parse(&args(&["dispatch", "focus", "вбок"])).unwrap_err().0.contains("ожидалось left"));
    assert!(parse(&args(&["subscribe", "погода"])).unwrap_err().0.contains("неизвестный вид"));
    assert!(parse(&args(&["dispatch", "spawn"])).unwrap_err().0.contains("нужна команда"));
}

#[test]
fn each_mistake_has_its_exact_message() {
    assert_eq!(
        parse(&args(&["чепуха"])),
        Err(ParseError("неизвестная команда «чепуха». Список: hypectl help".to_string()))
    );
    assert_eq!(
        parse(&args(&["dispatch", "jump"])),
        Err(ParseError("неизвестное действие «jump». Список: hypectl help".to_string()))
    );
    assert_eq!(
        parse(&args(&["dispatch", "move-to"])),
        Err(ParseError("move-to: нужен номер рабочего стола".to_string()))
    );
    assert_eq!(
        parse(&args(&["dispatch", "workspace", "256"])),
        Err(ParseError("«256» не похоже на номер рабочего стола".to_string()))
    );
    assert_eq!(
        parse(&args(&["dispatch", "focus"])),
        Err(ParseError("нужно направление: left, right, up или down".to_string()))
    );
    assert_eq!(
        parse(&args(&["dispatch", "screenshot", "all"])),
        Err(ParseError("screenshot: «all» — ожидалось screen, window или region".to_string()))
    );
    assert_eq!(
        parse(&args(&["subscribe", "window", "shell"])),
        Err(ParseError(
            "неизвестный вид событий «shell». Есть: window, workspace, output, focus, theme".to_string()
        ))
    );
}

#[test]
fn the_help_text_lists_every_command_parse_accepts() {
    for command in ["ping", "version", "state", "windows", "workspaces", "dispatch", "subscribe"] {
        assert!(HELP.contains(command), "{command}");
    }
}

#[test]
fn bytes_are_read_like_u8_from_str() {
    assert_eq!(parse_u8("0"), Some(0));
    assert_eq!(parse_u8("255"), Some(255));
    assert_eq!(parse_u8("007"), Some(7));
    assert_eq!(parse_u8("+9"), Some(9));
    assert_eq!(parse_u8("256"), None);
    assert_eq!(parse_u8("99999999999999999999"), None);
    assert_eq!(parse_u8("-1"), None);
    assert_eq!(parse_u8("+"), None);
    assert_eq!(parse_u8(""), None);
    assert_eq!(parse_u8(" 1"), None);
    for n in 0..=255u8 {
        assert_eq!(parse_u8(&n.to_string()), n.to_string().parse::<u8>().ok());
    }
}

// --- animation ---

#[test]
fn stagger_grows_then_saturates() {
    let stagger = Stagger::new(20, 100);
    assert_eq!(Duration::from_millis(stagger.delay_for(0)), Duration::ZERO);
    assert_eq!(Duration::from_millis(stagger.delay_for(3)), Duration::from_millis(60));
    assert_eq!(Duration::from_millis(stagger.delay_for(50)), Duration::from_millis(100));
}

#[test]
fn the_default_stagger_is_a_short_wave() {
    let stagger = Stagger::default();
    assert_eq!(stagger.step, 20);
    assert_eq!(stagger.max_total, 220);
    assert_eq!(stagger.delay_for(5), 100);
    assert_eq!(stagger.delay_for(1000), 220);
    assert_eq!(Stagger::new(u64::MAX, u64::MAX).delay_for(2), u64::MAX);
}

#[test]
fn phases_are_distinct() {
    assert_ne!(Phase::Opening, Phase::Open);
    assert_ne!(Phase::Open, Phase::Closing);
}

// --- paths ---

#[test]
fn config_path_follows_xdg_config_home() {
    let dir = config_dir_from(Some("/tmp/hype-test-config"), Some("/home/u"));
    assert_eq!(dir.as_deref(), Some("/tmp/hype-test-config/hypede"));
    assert_eq!(
        config_file(dir.as_deref()).as_deref(),
        Some("/tmp/hype-test-config/hypede/config.toml")
    );
}

#[test]
fn empty_xdg_variable_is_treated_as_unset() {
    let dir = config_dir_from(Some(""), Some("/home/u")).unwrap();
    assert!(dir.ends_with(".config/hypede"), "{dir}");
    assert_eq!(config_dir_from(None, None), None);
    assert_eq!(config_file(None), None);
}

#[test]
fn the_theme_css_lives_in_the_cache() {
    let cache = cache_dir_from(None, Some("/home/u"));
    assert_eq!(cache.as_deref(), Some("/home/u/.cache/hypede"));
    assert_eq!(
        generated_css_file(cache.as_deref()).as_deref(),
        Some("/home/u/.cache/hypede/theme.css")
    );
    assert_eq!(APP_DIR, "hypede");
}

#[test]
fn socket_name_includes_the_wayland_display() {
    assert_eq!(
        control_socket_from(Some("/run/user/1000"), Some("wayland-3")).as_deref(),
        Some("/run/user/1000/hypede-wayland-3.sock")
    );
    assert_eq!(
        control_socket_from(Some("/run/user/1000"), None).as_deref(),
        Some("/run/user/1000/hypede-wayland-0.sock")
    );
    assert_eq!(control_socket_from(Some(""), Some("wayland-3")), None);
}

#[test]
fn a_custom_asset_directory_wins() {
    let dirs = asset_dirs_from(Some("/opt/мои-ресурсы"), None, Some("/home/u"), None);
    assert_eq!(dirs[0], "/opt/мои-ресурсы");
    assert_eq!(dirs[1], "/home/u/.local/share/hypede");
}

#[test]
fn asset_dirs_include_the_system_location() {
    let dirs = asset_dirs_from(Some(""), None, None, Some("/build/target/debug/hype-shell"));
    assert_eq!(
        dirs,
        vec![
            "/usr/share/hypede",
            "/usr/local/share/hypede",
            "/build/target/debug/assets",
            "/build/target/assets",
            "/build/assets",
            "/assets",
        ]
    );
}

#[test]
fn a_missing_asset_is_reported_as_missing() {
    let dirs = vec!["/нет/такого/каталога".to_string()];
    assert_eq!(find_asset(&dirs, "wallpapers/нет-таких.png", |_| false), None);
}

#[test]
fn an_asset_is_found_in_the_first_directory_that_has_it() {
    let dirs = vec!["/a".to_string(), "/b".to_string(), "/c".to_string()];
    let found = find_asset(&dirs, "sounds/тест.wav", |p| p.starts_with("/b") || p.starts_with("/c"));
    assert_eq!(found.as_deref(), Some("/b/sounds/тест.wav"));
    assert_eq!(
        default_wallpaper(&dirs, |p| p == "/c/wallpapers/bay.png").as_deref(),
        Some("/c/wallpapers/bay.png")
    );
}

#[test]
fn application_dirs_put_the_user_first_and_include_the_system() {
    let dirs = application_dirs_from(
        Some("/home/test/.local/share"),
        Some("/home/test"),
        Some("/usr/share:/var/lib/flatpak/exports/share"),
    );
    assert_eq!(dirs[0], "/home/test/.local/share/applications");
    assert!(dirs.contains(&"/var/lib/flatpak/exports/share/applications".to_string()));
    assert_eq!(dirs.len(), 3);
}

#[test]
fn application_dirs_fall_back_to_the_standard_system_paths() {
    let dirs = application_dirs_from(None, Some("/home/test"), Some(""));
    assert_eq!(
        dirs,
        vec![
            "/home/test/.local/share/applications",
            "/usr/local/share/applications",
            "/usr/share/applications",
        ]
    );
    let skipped = application_dirs_from(Some(""), None, Some("::/opt/share:"));
    assert_eq!(skipped, vec!["/opt/share/applications"]);
}

fn listed_window(id: u64, app_id: &str, focused: bool) -> WindowInfo {
    WindowInfo {
        id,
        title: "Терминал".to_string(),
        app_id: app_id.to_string(),
        workspace: 2,
        x: 0,
        y: 0,
        width: 800,
        height: 600,
        focused,
        floating: false,
        fullscreen: false,
    }
}

#[test]
fn windows_are_listed_in_aligned_columns() {
    let windows = vec![listed_window(7, "foot", true), listed_window(12345, "org.example.VeryLongName", false)];
    assert_eq!(
        window_list_text(&windows),
        "   7  ▸ foot              800×600  стол 2  Терминал\n12345    org.example.VeryLongName  800×600  стол 2  Терминал"
    );
}

#[test]
fn an_empty_window_list_says_so() {
    assert_eq!(window_list_text(&[]), "окон нет");
}

#[test]
fn workspaces_are_listed_with_their_window_counts() {
    let workspaces = vec![
        WorkspaceInfo { index: 1, name: "1".to_string(), windows: 3, active: true, output: "eDP-1".to_string() },
        WorkspaceInfo { index: 2, name: "2".to_string(), windows: 0, active: false, output: "eDP-1".to_string() },
    ];
    assert_eq!(workspace_list_text(&workspaces), "▸ 1  окон: 3\n  2  окон: 0");
    assert_eq!(workspace_list_text(&[]), "");
}

#[test]
fn the_settings_status_says_how_applying_went() {
    assert_eq!(apply_status(&ApplyOutcome::Applied, 0), "Применено");
    assert_eq!(apply_status(&ApplyOutcome::Applied, 2), "Применено · замечаний: 2");
    assert_eq!(
        apply_status(&ApplyOutcome::Refused, 0),
        "Сохранено, но композитор отказался применять"
    );
    assert_eq!(
        apply_status(&ApplyOutcome::NoAnswer("обрыв связи".to_string()), 1),
        "Сохранено; композитор не ответил: обрыв связи · замечаний: 1"
    );
    assert_eq!(
        apply_status(&ApplyOutcome::NotRunning, 0),
        "Сохранено. Применится при следующем входе в HypeDE"
    );
}

#[test]
fn a_message_is_one_line_on_the_wire() {
    let line = frame_message(br#"{"request":"ping"}"#.to_vec());
    assert_eq!(line, b"{\"request\":\"ping\"}\n".to_vec());
    assert_eq!(frame_message(Vec::new()), b"\n".to_vec());
}

#[test]
fn blank_lines_carry_no_message() {
    assert!(is_blank_line("\n"));
    assert!(is_blank_line("  \t\r\n"));
    assert!(is_blank_line(""));
    assert!(!is_blank_line("{\"request\":\"ping\"}\n"));
}

#[test]
fn stagger_saturates_for_huge_indices() {
    let stagger = Stagger::new(20, 100);
    assert_eq!(stagger.delay_for(usize::MAX), 100);
    assert!(stagger.delay_for(usize::MAX) >= stagger.delay_for(3));
    let uncapped = Stagger::new(1, u64::MAX);
    assert_eq!(uncapped.delay_for(usize::MAX), u32::MAX as u64);
}
