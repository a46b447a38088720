use hypede::action::Action;
use hypede::color::{accent_channels, hex_channels, presets, ColorParseError, Rgba8};
use hypede::desktop::{
    applications_from, clean_exec, desktop_files, launch_command, match_score, parse_desktop_entry, search,
    DesktopApp,
};
use hypede::ipc::{WindowInfo, WorkspaceInfo};
use hypede::palette::Variant;
use hypede::shelf::{matches_app, shelf_button, user_initial, visible_workspaces, ShelfApp, ShelfState};
use hypede::sound::{pick_player, sound_path, Sound};
use hypede::status::{battery_from, pick_battery, shorten_title, Battery};

// --- application entries ---

fn entry(text: &str) -> Option<DesktopApp> {
    parse_desktop_entry(text, "/test.desktop", "ru")
}

#[test]
fn parses_a_normal_application() {
    let app = entry(
        "[Desktop Entry]\n\
         Type=Application\n\
         Name=Text Editor\n\
         Name[ru]=Текстовый редактор\n\
         Comment[ru]=Правка текстовых файлов\n\
         Exec=gedit %U\n\
         Icon=accessories-text-editor\n\
         Keywords=text;editor;\n",
    )
    .unwrap();

    assert_eq!(app.name, "Текстовый редактор");
    assert_eq!(app.command, "gedit", "the %U placeholder must go");
    assert_eq!(app.icon, "accessories-text-editor");
    assert_eq!(app.comment, "Правка текстовых файлов");
    assert_eq!(app.keywords, vec!["text", "editor"]);
    assert!(!app.terminal);
    assert_eq!(app.path, "/test.desktop");
}

#[test]
fn falls_back_to_the_untranslated_name() {
    let app = entry("[Desktop Entry]\nType=Application\nName=Foot\nExec=foot\n").unwrap();
    assert_eq!(app.name, "Foot");
    assert_eq!(app.icon, "application-x-executable", "the default icon");
}

#[test]
fn hidden_entries_are_skipped() {
    assert!(entry("[Desktop Entry]\nType=Application\nName=Скрытое\nExec=x\nNoDisplay=true\n").is_none());
    assert!(entry("[Desktop Entry]\nType=Application\nName=Скрытое\nExec=x\nHidden=TRUE\n").is_none());
}

#[test]
fn non_applications_are_skipped() {
    assert!(entry("[Desktop Entry]\nType=Link\nName=Ссылка\nURL=http://x\n").is_none());
    assert!(entry("[Desktop Entry]\nName=Без типа\nExec=x\n").is_none());
}

#[test]
fn entries_without_a_command_are_skipped() {
    assert!(entry("[Desktop Entry]\nType=Application\nName=Пусто\n").is_none());
}

#[test]
fn extra_sections_do_not_leak_into_the_entry() {
    let app = entry(
        "[Desktop Entry]\n\
         Type=Application\n\
         Name=Браузер\n\
         Exec=browser\n\
         \n\
         [Desktop Action new-window]\n\
         Name=Новое окно\n\
         Exec=browser --new-window\n",
    )
    .unwrap();

    assert_eq!(app.name, "Браузер");
    assert_eq!(app.command, "browser");
}

#[test]
fn exec_placeholders_are_removed_but_percent_signs_survive() {
    assert_eq!(clean_exec("app %U %i %c"), "app");
    assert_eq!(clean_exec("app --opt %f file"), "app --opt file");
    assert_eq!(clean_exec("app 100%%"), "app 100%");
    assert_eq!(clean_exec("app  --много   пробелов"), "app --много пробелов");
}

#[test]
fn desktop_comments_and_blank_lines_are_ignored() {
    let app = entry("# комментарий\n\n[Desktop Entry]\n# ещё один\nType=Application\nName=X\nExec=x\n");
    assert!(app.is_some());
}

#[test]
fn a_terminal_application_is_marked() {
    let app = entry("[Desktop Entry]\nType=Application\nName=Top\nExec=htop\nTerminal=true\n").unwrap();
    assert!(app.terminal);
}

fn app(name: &str, command: &str, comment: &str, keywords: &[&str]) -> DesktopApp {
    DesktopApp {
        name: name.into(),
        command: command.into(),
        icon: String::new(),
        comment: comment.into(),
        keywords: keywords.iter().map(|k| k.to_string()).collect(),
        terminal: false,
        path: String::new(),
    }
}

#[test]
fn search_puts_the_obvious_answer_first() {
    let apps = vec![
        app("Настройки системы", "settings", "", &[]),
        app("Настройки", "hype-settings", "", &[]),
        app("Диспетчер файлов", "files", "Настройки папок", &[]),
    ];

    let found = search(&apps, "настройки");
    assert_eq!(found[0].name, "Настройки", "the exact match comes first");
    assert_eq!(found[1].name, "Настройки системы");
    assert_eq!(found[2].name, "Диспетчер файлов");
}

#[test]
fn search_finds_by_keyword_and_by_command() {
    let apps = vec![app("Foot", "foot", "", &["terminal", "терминал"])];
    assert_eq!(search(&apps, "терминал").len(), 1);
    assert_eq!(search(&apps, "foo").len(), 1);
    assert!(search(&apps, "таблица").is_empty());
}

#[test]
fn search_ignores_case_and_surrounding_spaces() {
    let apps = vec![app("Калькулятор", "calc", "", &[])];
    assert_eq!(search(&apps, "  КАЛЬКУЛЯТОР  ").len(), 1);
}

#[test]
fn an_empty_query_returns_everything() {
    let apps = vec![app("А", "a", "", &[]), app("Б", "b", "", &[])];
    assert_eq!(search(&apps, "").len(), 2);
}

#[test]
fn a_shorter_name_wins_when_both_start_with_the_query() {
    let apps = vec![app("Терминал расширенный", "x", "", &[]), app("Терминал", "y", "", &[])];
    assert_eq!(search(&apps, "терм")[0].name, "Терминал");
}

#[test]
fn scores_rank_exact_above_prefix_above_the_rest() {
    let exact = match_score(&app("Foot", "foot", "", &[]), "foot").unwrap();
    let prefix = match_score(&app("Football", "ball", "", &[]), "foot").unwrap();
    let keyword = match_score(&app("Терминал", "x", "", &["foot"]), "foot").unwrap();
    assert!(exact > prefix && prefix > keyword, "{exact} {prefix} {keyword}");
    assert_eq!(match_score(&app("Foot", "foot", "", &[]), "vim"), None);
}

#[test]
fn a_user_entry_hides_the_system_one_of_the_same_name() {
    let paths: Vec<String> = [
        "/home/u/.local/share/applications/foot.desktop",
        "/home/u/.local/share/applications/notes.txt",
        "/usr/share/applications/foot.desktop",
        "/usr/share/applications/gedit.desktop",
        "/usr/share/applications/README",
        "/usr/share/applications/gedit.desktop",
    ]
    .iter()
    .map(|p| p.to_string())
    .collect();
    assert_eq!(desktop_files(&paths), vec![0, 3]);
}

#[test]
fn applications_come_sorted_by_name_whatever_the_case() {
    let entry_text = |name: &str| format!("[Desktop Entry]\nType=Application\nName={name}\nExec=x\n");
    let files = vec![
        ("/a/zeta.desktop".to_string(), entry_text("zeta")),
        ("/a/broken.desktop".to_string(), "no entry here".to_string()),
        ("/a/alpha.desktop".to_string(), entry_text("Alpha")),
        ("/a/beta.desktop".to_string(), entry_text("beta")),
        ("/a/alpha2.desktop".to_string(), entry_text("alpha")),
    ];
    let apps = applications_from(&files, "ru");
    let names: Vec<&str> = apps.iter().map(|a| a.name.as_str()).collect();
    assert_eq!(names, ["Alpha", "alpha", "beta", "zeta"]);
    assert_eq!(apps[1].path, "/a/alpha2.desktop");
}

// --- sound ---

#[test]
fn every_sound_has_a_file() {
    for sound in [Sound::Startup, Sound::Notification, Sound::Volume, Sound::Error, Sound::Logout] {
        assert!(sound.file_name().ends_with(".wav"), "{sound:?}");
    }
}

#[test]
fn pipewire_is_preferred() {
    assert_eq!(pick_player(|_| true), Some("pw-play"));
}

#[test]
fn the_next_player_is_used_when_the_first_is_missing() {
    assert_eq!(pick_player(|program| program == "paplay"), Some("paplay"));
    assert_eq!(pick_player(|program| program == "aplay"), Some("aplay"));
}

#[test]
fn a_system_without_players_gets_no_sound() {
    assert_eq!(pick_player(|_| false), None);
}

#[test]
fn a_custom_sound_set_wins_over_the_built_in_one() {
    let dirs = vec!["/usr/share/hypede".to_string()];
    assert_eq!(
        sound_path(Some("/home/u/звуки"), Sound::Startup, &dirs, |_| true).as_deref(),
        Some("/home/u/звуки/startup.wav")
    );
}

#[test]
fn a_custom_set_without_the_file_falls_back() {
    let dirs = vec!["/usr/share/hypede".to_string()];
    let found = sound_path(Some("/нет/такого/набора"), Sound::Startup, &dirs, |p| p.starts_with("/usr"));
    assert_eq!(found.as_deref(), Some("/usr/share/hypede/sounds/startup.wav"));
    assert_eq!(sound_path(Some("/нет/такого/набора"), Sound::Error, &dirs, |_| false), None);
}

// --- panel indicators ---

#[test]
fn long_titles_are_shortened_with_an_ellipsis() {
    assert_eq!(shorten_title("короткий", 20), "короткий");
    let short = shorten_title("очень длинный заголовок окна", 10);
    assert_eq!(short, "очень дли…");
    assert_eq!(short.chars().count(), 10);
    assert_eq!(shorten_title("абвгд", 3).chars().count(), 3);
    assert_eq!(shorten_title("абвгд", 0), "");
}

#[test]
fn battery_icons_cover_the_whole_range() {
    let icon = |percent| Battery { percent, charging: false }.icon_name();
    assert_eq!(icon(5), "battery-empty-symbolic");
    assert_eq!(icon(25), "battery-caution-symbolic");
    assert_eq!(icon(50), "battery-low-symbolic");
    assert_eq!(icon(75), "battery-good-symbolic");
    assert_eq!(icon(100), "battery-full-symbolic");
}

#[test]
fn reads_a_discharging_battery() {
    let battery = battery_from("47\n", "Discharging\n").unwrap();
    assert_eq!(battery, Battery { percent: 47, charging: false });
    assert_eq!(battery.label(), "47%");
}

#[test]
fn recognises_charging() {
    let battery = battery_from("80", "Charging").unwrap();
    assert!(battery.charging);
    assert_eq!(battery.icon_name(), "battery-good-charging-symbolic");
}

#[test]
fn the_power_adapter_is_not_mistaken_for_a_battery() {
    assert_eq!(pick_battery(&vec!["AC".to_string(), "ADP1".to_string()]), None);
}

#[test]
fn with_two_batteries_the_first_one_is_used_consistently() {
    let names = vec!["BAT1".to_string(), "AC".to_string(), "BAT0".to_string()];
    assert_eq!(pick_battery(&names), Some(2));
}

#[test]
fn a_machine_without_batteries_shows_nothing() {
    assert_eq!(pick_battery(&Vec::new()), None);
}

#[test]
fn nonsense_capacity_is_ignored_rather_than_shown() {
    assert_eq!(battery_from("неизвестно", "Discharging"), None);
    assert_eq!(battery_from("", ""), None);
}

#[test]
fn capacity_above_a_hundred_is_capped() {
    assert_eq!(battery_from("127", "Full").unwrap().percent, 100);
    assert_eq!(battery_from("300", "Full"), None);
}

// --- the shelf ---

#[test]
fn our_own_windows_match_by_desktop_id() {
    assert!(matches_app("dev.hypede.Files", Some("dev.hypede.Files"), "hype-files"));
}

#[test]
fn plain_programs_match_by_name() {
    assert!(matches_app("foot", Some("foot"), "foot"));
    assert!(matches_app("foot", None, "foot"));
}

#[test]
fn reverse_domain_names_match_by_their_last_part() {
    assert!(matches_app("org.gnome.Foot", None, "foot"));
}

#[test]
fn case_does_not_matter() {
    assert!(matches_app("DEV.HypeDE.Files", Some("dev.hypede.files"), ""));
}

#[test]
fn unrelated_windows_do_not_match() {
    assert!(!matches_app("firefox", Some("dev.hypede.Files"), "hype-files"));
    assert!(!matches_app("", Some("dev.hypede.Files"), "hype-files"));
    assert!(!matches_app("firefox", None, ""));
}

fn window(id: u64, app_id: &str, workspace: u8) -> WindowInfo {
    WindowInfo {
        id,
        title: format!("окно {id}"),
        app_id: app_id.into(),
        workspace,
        x: 0,
        y: 0,
        width: 800,
        height: 600,
        focused: false,
        floating: false,
        fullscreen: false,
    }
}

#[test]
fn the_program_of_a_shelf_entry_drops_arguments_and_directory() {
    assert_eq!(ShelfApp::from_command("/usr/bin/foot -e htop").program(), "foot");
    assert_eq!(ShelfApp::from_command("   ").program(), "");
    let files = ShelfApp::from_desktop(&DesktopApp {
        path: "/usr/share/applications/dev.hypede.Files.desktop".into(),
        ..app("Файлы", "hype-files", "", &[])
    });
    assert_eq!(files.desktop_id.as_deref(), Some("dev.hypede.Files"));
}

#[test]
fn a_running_application_is_focused_and_a_stopped_one_started() {
    let windows = vec![window(4, "firefox", 1), window(9, "org.gnome.Foot", 2)];
    let foot = ShelfApp::from_command("foot");
    let button = shelf_button(&foot, &windows);
    assert!(button.running);
    assert_eq!(button.action, Action::FocusWindow { id: 9 });
    assert_eq!(button.tooltip, "foot — окно 9");

    let htop = ShelfApp { terminal: true, ..ShelfApp::from_command("htop") };
    let button = shelf_button(&htop, &windows);
    assert!(!button.running);
    assert_eq!(button.action, Action::Spawn { command: "foot -e htop".into() });
    assert_eq!(button.tooltip, "htop");
}

#[test]
fn empty_workspaces_are_hidden_but_one_free_is_offered() {
    let state = ShelfState { active_workspace: 1, workspaces: 9, windows: vec![window(1, "a", 4), window(2, "b", 1)] };
    assert_eq!(visible_workspaces(&state), vec![1, 2, 4]);

    let full = ShelfState { active_workspace: 2, workspaces: 2, windows: vec![window(1, "a", 1)] };
    assert_eq!(visible_workspaces(&full), vec![1, 2]);

    let none = ShelfState { active_workspace: 1, workspaces: 0, windows: Vec::new() };
    assert_eq!(visible_workspaces(&none), vec![1]);
}

// --- colours ---

#[test]
fn parses_all_hex_forms() {
    let white = Rgba8 { r: 255, g: 255, b: 255, a: 255 };
    assert_eq!(hex_channels("#fff").unwrap(), white);
    assert_eq!(hex_channels("#ffffff").unwrap(), white);
    assert_eq!(hex_channels("#000000").unwrap(), Rgba8 { r: 0, g: 0, b: 0, a: 255 });
    assert_eq!(hex_channels("#ffffff80").unwrap().a, 128);
    assert_eq!(hex_channels("#f00f").unwrap(), Rgba8 { r: 255, g: 0, b: 0, a: 255 });
    assert_eq!(hex_channels("#7C3aed").unwrap(), Rgba8 { r: 0x7c, g: 0x3a, b: 0xed, a: 255 });
}

#[test]
fn rejects_malformed_input() {
    assert_eq!(hex_channels("ffffff"), Err(ColorParseError::MissingHash("ffffff".into())));
    assert_eq!(hex_channels("#ff"), Err(ColorParseError::BadLength(2)));
    assert_eq!(hex_channels("#gggggg"), Err(ColorParseError::BadDigit('g')));
    assert_eq!(hex_channels(""), Err(ColorParseError::MissingHash(String::new())));
}

#[test]
fn colour_errors_explain_themselves() {
    assert_eq!(
        ColorParseError::MissingHash("fff".into()).to_string(),
        "цвет должен начинаться с '#', получено: \"fff\""
    );
    assert_eq!(
        ColorParseError::BadLength(5).to_string(),
        "неверная длина: ожидалось 3, 4, 6 или 8 шестнадцатеричных цифр, получено 5"
    );
    assert_eq!(ColorParseError::BadDigit('x').to_string(), "не шестнадцатеричная цифра: 'x'");
}

#[test]
fn every_preset_is_a_valid_colour() {
    let all = presets();
    assert_eq!(all.len(), 8);
    for preset in &all {
        assert!(hex_channels(preset.hex).is_ok(), "{}", preset.name);
    }
    assert_eq!(all[0].name, "Фиолетовый");
}

#[test]
fn a_colour_without_a_hash_is_accepted() {
    assert_eq!(accent_channels("7c3aed").unwrap(), hex_channels("#7c3aed").unwrap());
    assert_eq!(accent_channels("  #7c3aed  ").unwrap(), hex_channels("#7c3aed").unwrap());
}

#[test]
fn a_bad_colour_explains_itself_in_plain_words() {
    assert!(accent_channels("").unwrap_err().contains("например"));
    assert!(accent_channels("#12345").unwrap_err().contains("цифр"));
    assert!(accent_channels("#gg0000").unwrap_err().contains("«g»"));
    assert_eq!(accent_channels("#12345").unwrap_err(), "Нужно 6 шестнадцатеричных цифр, а их 5");
}

// --- palette ---

#[test]
fn variant_toggles_both_ways() {
    assert_eq!(Variant::Dark.toggled(), Variant::Light);
    assert_eq!(Variant::Light.toggled().toggled(), Variant::Light);
}

#[test]
fn the_dark_variant_is_the_default() {
    assert_eq!(Variant::Light.toggled(), Variant::Dark);
    assert!(Variant::Dark.is_dark());
    assert!(!Variant::Light.is_dark());
    assert_eq!(Variant::default(), Variant::Dark);
}

#[test]
fn the_user_initial_is_the_first_letter_in_upper_case() {
    assert_eq!(user_initial(Some("anna")), "A");
    assert_eq!(user_initial(Some("ёжик")), "Ё");
    assert_eq!(user_initial(Some("ßtraße")), "SS");
    assert_eq!(user_initial(Some("")), "?");
    assert_eq!(user_initial(None), "?");
}

fn reported(index: u8, active: bool) -> WorkspaceInfo {
    WorkspaceInfo { index, name: index.to_string(), windows: 0, active, output: String::new() }
}

#[test]
fn the_shelf_takes_in_what_the_compositor_reports() {
    let mut state = ShelfState { active_workspace: 1, workspaces: 4, windows: Vec::new() };
    state.refresh_from(&[reported(1, false), reported(2, true), reported(3, false)], Vec::new());
    assert_eq!(state.workspaces, 3);
    assert_eq!(state.active_workspace, 2);

    state.refresh_from(&[reported(1, false), reported(2, false)], Vec::new());
    assert_eq!(state.active_workspace, 1, "without an active workspace the first one is taken");

    let many: Vec<WorkspaceInfo> = (0..300).map(|i| reported((i % 256) as u8, false)).collect();
    state.refresh_from(&many, Vec::new());
    assert_eq!(state.workspaces, 44, "the count is kept in a byte");
}

fn strings(words: &[&str]) -> Vec<String> {
    words.iter().map(|w| w.to_string()).collect()
}

#[test]
fn an_application_starts_with_its_words() {
    let editor = app("Editor", "  gedit   --new-window  ", "", &[]);
    assert_eq!(launch_command(&editor), Some(("gedit".to_string(), strings(&["--new-window"]))));
}

#[test]
fn a_terminal_application_starts_inside_a_terminal() {
    let mut top = app("Top", "htop -d 10", "", &[]);
    top.terminal = true;
    assert_eq!(launch_command(&top), Some(("foot".to_string(), strings(&["-e", "htop", "-d", "10"]))));
}

#[test]
fn an_empty_command_starts_nothing() {
    assert_eq!(launch_command(&app("Nothing", " \t ", "", &[])), None);
}

#[test]
fn a_long_name_starting_with_the_query_still_beats_a_short_one_containing_it() {
    let long = app(&format!("term{}", "x".repeat(296)), "", "", &[]);
    let short = app("my terminal", "", "", &[]);
    assert_eq!(match_score(&long, "term"), Some(301));
    assert_eq!(match_score(&short, "term"), Some(289));
    let inside = app(&format!("a term{}", "x".repeat(300)), "", "", &[]);
    assert_eq!(match_score(&inside, "term"), Some(201), "still above a keyword hit");
    assert_eq!(match_score(&app("Foot", "", "", &[]), "fo"), Some(496));
}
