use hypede::browser::{BrowserKey, BrowserState, KeyOutcome};
use hypede::fs::{
    arrange_entries, entry_of, natural_cmp, sort_entries, Entry, Kind, Sort, SortBy, TargetFacts,
};
use hypede::history::{breadcrumbs, History, LIMIT};
use hypede::listing::{count_listing, plural, summary, window_title};
use hypede::places::{parse_user_dirs, standard_places};
use std::cmp::Ordering;

fn file(name: &str) -> Entry {
    Entry {
        name: name.into(),
        path: name.into(),
        kind: Kind::File,
        size: 0,
        modified: None,
        hidden: name.starts_with('.'),
        symlink: false,
    }
}

fn dir(name: &str) -> Entry {
    Entry { kind: Kind::Directory, ..file(name) }
}

fn names(entries: &[Entry]) -> Vec<&str> {
    entries.iter().map(|e| e.name.as_str()).collect()
}

// --- listing ---

#[test]
fn sorting_by_name_is_natural() {
    let mut entries: Vec<Entry> = ["файл10", "файл2", "файл1"].iter().map(|n| file(n)).collect();
    sort_entries(&mut entries, Sort::default());
    assert_eq!(names(&entries), ["файл1", "файл2", "файл10"]);
}

#[test]
fn natural_comparison_handles_the_awkward_cases() {
    assert_eq!(natural_cmp("a2", "a10"), Ordering::Less);
    assert_eq!(natural_cmp("a", "a1"), Ordering::Less);
    assert_eq!(natural_cmp("A", "a"), Ordering::Equal, "case does not matter");
    assert_eq!(natural_cmp("2", "10"), Ordering::Less);
    assert_eq!(natural_cmp("x", "x"), Ordering::Equal);
    let huge = "9".repeat(80);
    assert_ne!(natural_cmp(&huge, "1"), Ordering::Less);
}

#[test]
fn natural_comparison_is_antisymmetric() {
    let samples = ["a2", "a10", "A", "a", "файл1", "файл01", "", "2b", "2a", "x9y", "x10y"];
    for a in samples {
        for b in samples {
            assert_eq!(natural_cmp(a, b), natural_cmp(b, a).reverse(), "{a} {b}");
        }
    }
}

#[test]
fn sorting_by_size_puts_directories_first_anyway() {
    let mut entries = vec![
        Entry { size: 1000, ..file("большой") },
        Entry { size: 1, ..file("маленький") },
        dir("каталог"),
    ];
    sort_entries(&mut entries, Sort::by_field(SortBy::Size));
    assert_eq!(names(&entries), ["каталог", "маленький", "большой"]);
}

#[test]
fn descending_sort_reverses_files_but_not_the_directory_rule() {
    let mut entries = vec![file("а"), file("б"), dir("каталог")];
    sort_entries(&mut entries, Sort { by: SortBy::Name, descending: true });
    assert_eq!(names(&entries), ["каталог", "б", "а"]);
}

#[test]
fn sorting_by_time_puts_unknown_times_first() {
    let mut entries = vec![
        Entry { modified: Some(20), ..file("новый") },
        Entry { modified: None, ..file("неизвестный") },
        Entry { modified: Some(10), ..file("старый") },
    ];
    sort_entries(&mut entries, Sort::by_field(SortBy::Modified));
    assert_eq!(names(&entries), ["неизвестный", "старый", "новый"]);
}

#[test]
fn sorting_by_kind_groups_extensions_then_names() {
    let mut entries = vec![file("b.txt"), file("a.rs"), file("c"), file("a.txt")];
    sort_entries(&mut entries, Sort::by_field(SortBy::Kind));
    assert_eq!(names(&entries), ["c", "a.rs", "a.txt", "b.txt"]);
}

#[test]
fn equal_entries_keep_their_order() {
    let mut entries = vec![
        Entry { size: 5, ..file("один") },
        Entry { size: 5, ..file("два") },
        Entry { size: 1, ..file("три") },
    ];
    sort_entries(&mut entries, Sort::by_field(SortBy::Size));
    assert_eq!(names(&entries), ["три", "один", "два"]);
}

#[test]
fn hidden_entries_are_left_out_unless_asked_for() {
    let entries = vec![file(".скрытый"), file("б"), dir("каталог"), file("а")];
    let shown = arrange_entries(entries.clone(), false, Sort::default());
    assert_eq!(names(&shown), ["каталог", "а", "б"]);
    let all = arrange_entries(entries, true, Sort::default());
    assert_eq!(names(&all), ["каталог", ".скрытый", "а", "б"]);
}

#[test]
fn an_entry_is_built_from_what_the_file_system_says() {
    let facts = TargetFacts { is_dir: false, size: 12, modified: Some(5) };
    let e = entry_of("/tmp/заметки.txt", false, Some(facts)).unwrap();
    assert_eq!(e.name, "заметки.txt");
    assert_eq!(e.kind, Kind::File);
    assert_eq!(e.size, 12);
    assert!(!e.hidden);

    let d = entry_of("/tmp/.config", true, Some(TargetFacts { is_dir: true, size: 0, modified: None })).unwrap();
    assert_eq!(d.kind, Kind::Directory);
    assert!(d.hidden);
    assert!(d.symlink);

    let broken = entry_of("/tmp/ссылка", true, None).unwrap();
    assert_eq!(broken.kind, Kind::BrokenLink);
    assert_eq!(broken.size, 0);

    assert_eq!(entry_of("/tmp/пропал", false, None), None);
    assert_eq!(entry_of("/", false, Some(facts)), None);
}

#[test]
fn toggling_the_same_column_flips_the_direction() {
    let sort = Sort::default();
    assert!(!sort.descending);

    let flipped = sort.toggle(SortBy::Name);
    assert!(flipped.descending);

    let other = flipped.toggle(SortBy::Size);
    assert_eq!(other.by, SortBy::Size);
    assert!(!other.descending);
    assert_eq!(flipped.toggle(SortBy::Name), sort);
}

#[test]
fn icons_match_the_file_type() {
    let icon_for = |name: &str| file(name).icon_name();
    assert_eq!(icon_for("фото.JPG"), "image-x-generic", "case does not matter");
    assert_eq!(icon_for("клип.mkv"), "video-x-generic");
    assert_eq!(icon_for("песня.flac"), "audio-x-generic");
    assert_eq!(icon_for("архив.tar"), "package-x-generic");
    assert_eq!(icon_for("main.rs"), "text-x-script");
    assert_eq!(icon_for("config.toml"), "text-x-generic-template");
    assert_eq!(icon_for("безымянный"), "text-x-generic");
    assert_eq!(dir("фото.jpg").icon_name(), "folder");
    assert_eq!(Entry { kind: Kind::BrokenLink, ..file("x.png") }.icon_name(), "dialog-warning");
}

#[test]
fn an_entry_knows_its_extension() {
    assert_eq!(file("фото.JPG").extension().as_deref(), Some("jpg"));
    assert_eq!(file("README").extension(), None);
    assert_eq!(dir("каталог.d").extension(), None);
    assert!(dir("каталог.d").is_dir());
}

// --- history ---

#[test]
fn a_fresh_history_cannot_move_anywhere() {
    let history = History::new("/home/user");
    assert_eq!(history.current(), "/home/user");
    assert!(!history.can_go_back());
    assert!(!history.can_go_forward());
}

#[test]
fn walking_back_and_forth_returns_the_right_directories() {
    let mut history = History::new("/a");
    history.push("/a/b");
    history.push("/a/b/c");

    assert_eq!(history.back().unwrap(), "/a/b");
    assert_eq!(history.back().unwrap(), "/a");
    assert!(history.back().is_none());

    assert_eq!(history.forward().unwrap(), "/a/b");
    assert_eq!(history.forward().unwrap(), "/a/b/c");
    assert!(history.forward().is_none());
}

#[test]
fn a_new_direction_discards_the_forward_branch() {
    let mut history = History::new("/a");
    history.push("/a/b");
    history.back();
    history.push("/a/другой");

    assert_eq!(history.current(), "/a/другой");
    assert!(!history.can_go_forward());
    assert_eq!(history.back().unwrap(), "/a");
}

#[test]
fn revisiting_the_same_directory_does_not_pile_up() {
    let mut history = History::new("/a");
    history.push("/a");
    history.push("/a");
    assert!(!history.can_go_back());
}

#[test]
fn the_history_stops_growing_forever() {
    let mut history = History::new("/0");
    for i in 1..(LIMIT * 2) {
        history.push(&format!("/{i}"));
    }
    assert_eq!(history.current(), format!("/{}", LIMIT * 2 - 1));
    let mut entries = 1;
    while history.back().is_some() {
        entries += 1;
    }
    assert!(entries <= LIMIT);
    assert_eq!(entries, LIMIT);
}

#[test]
fn back_after_push_returns_to_where_one_was() {
    let mut history = History::new("/a");
    history.push("/b");
    history.push("/c");
    history.back();
    history.push("/d");
    assert_eq!(history.back().unwrap(), "/b");
    assert_eq!(history.forward().unwrap(), "/d");
}

#[test]
fn breadcrumbs_shorten_the_home_directory() {
    let home = "/home/максим";
    let crumbs = breadcrumbs("/home/максим/Загрузки/архив", Some(home));
    let labels: Vec<&str> = crumbs.iter().map(|(label, _)| label.as_str()).collect();
    assert_eq!(labels, ["~", "Загрузки", "архив"]);
    assert_eq!(crumbs[0].1, home);
    assert_eq!(crumbs[2].1, "/home/максим/Загрузки/архив");
}

#[test]
fn breadcrumbs_outside_home_start_from_the_root() {
    let crumbs = breadcrumbs("/usr/share", Some("/home/user"));
    let labels: Vec<&str> = crumbs.iter().map(|(label, _)| label.as_str()).collect();
    assert_eq!(labels, ["/", "usr", "share"]);
    assert_eq!(crumbs[1].1, "/usr");
}

#[test]
fn the_root_itself_is_a_single_crumb() {
    let crumbs = breadcrumbs("/", None);
    assert_eq!(crumbs.len(), 1);
    assert_eq!(crumbs[0].0, "/");
}

#[test]
fn the_home_directory_itself_is_a_single_crumb() {
    let home = "/home/user";
    let crumbs = breadcrumbs(home, Some(home));
    assert_eq!(crumbs.len(), 1);
    assert_eq!(crumbs[0].0, "~");
}

// --- places ---

#[test]
fn user_dirs_are_parsed_and_expanded() {
    let home = "/home/максим";
    let text = r#"
        # Создано xdg-user-dirs-update
        XDG_DOWNLOAD_DIR="$HOME/Загрузки"
        XDG_MUSIC_DIR="$HOME/Музыка"
        XDG_DESKTOP_DIR="$HOME"
        XDG_PUBLICSHARE_DIR="/srv/общее"
    "#;

    let dirs = parse_user_dirs(text, home);
    assert_eq!(dirs.len(), 4);
    let find = |key: &str| dirs.iter().find(|(k, _)| k == key).unwrap().1.clone();
    assert_eq!(find("XDG_DOWNLOAD_DIR"), "/home/максим/Загрузки");
    assert_eq!(find("XDG_DESKTOP_DIR"), home);
    assert_eq!(find("XDG_PUBLICSHARE_DIR"), "/srv/общее");
}

#[test]
fn places_comments_and_blank_lines_are_ignored() {
    assert!(parse_user_dirs("# только комментарий\n\n   \n", "/home/u").is_empty());
}

#[test]
fn a_malformed_line_does_not_break_the_rest() {
    let dirs = parse_user_dirs("мусор без равно\nXDG_MUSIC_DIR=\"$HOME/Музыка\"", "/home/u");
    assert_eq!(dirs.len(), 1);
}

#[test]
fn the_list_always_has_home_and_the_filesystem_root() {
    let places = standard_places("/home/несуществующий", &Vec::new(), |_| false);
    assert_eq!(places.first().unwrap().path, "/home/несуществующий");
    assert_eq!(places.last().unwrap().path, "/");
}

#[test]
fn existing_user_folders_are_listed_between_home_and_root() {
    let home = "/home/u";
    let dirs = parse_user_dirs(
        "XDG_DOWNLOAD_DIR=\"$HOME/Загрузки\"\nXDG_DESKTOP_DIR=\"$HOME\"\nXDG_MUSIC_DIR=\"$HOME/Музыка\"\n",
        home,
    );
    let places = standard_places(home, &dirs, |p| p != "/home/u/Музыка");
    let labels: Vec<&str> = places.iter().map(|p| p.label.as_str()).collect();
    assert_eq!(labels, ["Домашняя папка", "Загрузки", "Файловая система"]);
    assert_eq!(places[1].path, "/home/u/Загрузки");
    assert_eq!(places[1].icon, "folder-download");
}

// --- the words around a listing ---

#[test]
fn russian_plurals_follow_the_rules() {
    let word = |n| plural(n, "файл", "файла", "файлов");
    assert_eq!(word(1), "файл");
    assert_eq!(word(2), "файла");
    assert_eq!(word(5), "файлов");
    assert_eq!(word(11), "файлов", "eleven is the exception");
    assert_eq!(word(21), "файл");
    assert_eq!(word(112), "файлов");
    assert_eq!(word(0), "файлов");
    assert_eq!(word(1004), "файла");
}

#[test]
fn the_summary_counts_both_kinds_and_the_total_size() {
    let entries = vec![dir("папка"), Entry { size: 1000, ..file("а.txt") }, Entry { size: 500, ..file("б.txt") }];
    let counts = count_listing(&entries);
    assert_eq!((counts.dirs, counts.files, counts.bytes), (1, 2, 1500));
    assert_eq!(summary(&entries, "1.5 КБ"), "1 папка, 2 файла · 1.5 КБ");
}

#[test]
fn an_empty_directory_says_so() {
    assert_eq!(summary(&[], "0 Б"), "Пусто");
}

#[test]
fn the_window_title_is_the_directory_name() {
    assert_eq!(window_title("/home/user/Загрузки"), "Загрузки");
    assert_eq!(window_title("/"), "/");
}

fn show(path: &str) -> KeyOutcome {
    KeyOutcome::Show(path.to_string())
}

#[test]
fn alt_arrows_walk_up_back_and_forward() {
    let mut window = BrowserState::new("/home/user", Sort::default(), false);
    assert_eq!(window.press_key(BrowserKey::Up, false, true), show("/home"));
    assert_eq!(window.history.current(), "/home");
    assert_eq!(window.press_key(BrowserKey::Left, false, true), show("/home/user"));
    assert_eq!(window.press_key(BrowserKey::Left, false, true), KeyOutcome::Stay, "nothing further back");
    assert_eq!(window.press_key(BrowserKey::Right, false, true), show("/home"));
    assert_eq!(window.press_key(BrowserKey::Right, false, true), KeyOutcome::Stay, "nothing further forward");
    assert_eq!(window.history.current(), "/home");
}

#[test]
fn the_root_has_no_parent_to_go_up_to() {
    let mut window = BrowserState::new("/", Sort::default(), false);
    assert_eq!(window.press_key(BrowserKey::Up, false, true), KeyOutcome::Stay);
    assert!(!window.history.can_go_back());
}

#[test]
fn ctrl_h_toggles_hidden_entries_and_rereads() {
    let mut window = BrowserState::new("/tmp", Sort::default(), false);
    assert_eq!(window.press_key(BrowserKey::H, true, false), show("/tmp"));
    assert!(window.show_hidden);
    assert_eq!(window.press_key(BrowserKey::H, true, false), show("/tmp"));
    assert!(!window.show_hidden);
    assert_eq!(window.press_key(BrowserKey::H, false, false), KeyOutcome::Pass, "a plain h is typed");
    assert!(!window.show_hidden);
}

#[test]
fn f5_rereads_and_other_keys_pass_on() {
    let mut window = BrowserState::new("/tmp", Sort::default(), true);
    assert_eq!(window.press_key(BrowserKey::F5, false, false), show("/tmp"));
    assert_eq!(window.press_key(BrowserKey::Left, false, false), KeyOutcome::Pass, "an arrow alone moves the selection");
    assert_eq!(window.press_key(BrowserKey::Other, true, true), KeyOutcome::Pass);
    assert!(window.show_hidden);
    assert!(!window.history.can_go_back());
}

#[test]
fn the_sort_button_goes_round_name_size_date() {
    let mut window = BrowserState::new("/tmp", Sort::default(), false);
    assert_eq!(window.click_sort(), "/tmp");
    assert_eq!(window.sort, Sort::by_field(SortBy::Size));
    window.click_sort();
    assert_eq!(window.sort, Sort::by_field(SortBy::Modified));
    window.click_sort();
    assert_eq!(window.sort, Sort::by_field(SortBy::Name));
    window.sort = Sort { by: SortBy::Kind, descending: true };
    window.click_sort();
    assert_eq!(window.sort, Sort::by_field(SortBy::Name));
}
