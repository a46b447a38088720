use hypede::cursor::{fallback_image, frame_index, nearest_frames, theme_frames, usable_frames, Cursor, CursorImage, FrameInfo};
use hypede::wallpaper::{draw_picture, lay_picture, scaled_picture, solid_canvas};
use hypede::action::Action;
use hypede::config::default_keybinds;
use hypede::input::{is_emergency_exit, key_action, shortcut_from, vt_from_keysym, KeyAction, KEYSYM_BACKSPACE};
use hypede::roles::{role_for, Role, LAUNCHER_APP_ID, PANEL_APP_ID};
use hypede::shortcut::{Mods, Shortcut};
use hypede::ipc::WorkspaceInfo;
use hypede::workspace::{workspace_infos, Workspaces};

fn modifiers(logo: bool, ctrl: bool, alt: bool, shift: bool) -> Mods {
    Mods { logo, ctrl, alt, shift }
}

// --- keyboard ---

#[test]
fn console_switch_keys_are_recognised() {
    assert_eq!(vt_from_keysym(0x1008_FE01), Some(1));
    assert_eq!(vt_from_keysym(0x1008_FE02), Some(2));
    assert_eq!(vt_from_keysym(0x1008_FE0C), Some(12));
}

#[test]
fn other_keys_are_not_mistaken_for_console_switches() {
    assert_eq!(vt_from_keysym(0x1008_FE00), None);
    assert_eq!(vt_from_keysym(0x1008_FE0D), None);
    assert_eq!(vt_from_keysym(0x0071), None);
    assert_eq!(vt_from_keysym(0x1008_FF11), None);
}

#[test]
fn the_emergency_exit_needs_both_modifiers() {
    let both = modifiers(false, true, true, false);
    assert!(is_emergency_exit(&both, KEYSYM_BACKSPACE));
    assert!(!is_emergency_exit(&modifiers(false, true, false, false), KEYSYM_BACKSPACE));
    assert!(!is_emergency_exit(&modifiers(false, false, true, false), KEYSYM_BACKSPACE));
    assert!(!is_emergency_exit(&both, 0x0071));
}

#[test]
fn a_plain_letter_becomes_a_shortcut() {
    let shortcut = shortcut_from(&modifiers(true, false, false, false), "q").unwrap();
    assert_eq!(shortcut, "Super+Q".parse::<Shortcut>().unwrap());
}

#[test]
fn every_modifier_is_carried_over() {
    let shortcut = shortcut_from(&modifiers(true, true, true, true), "k").unwrap();
    assert_eq!(shortcut, "Super+Ctrl+Alt+Shift+K".parse::<Shortcut>().unwrap());
}

#[test]
fn named_keys_from_xkb_are_recognised() {
    assert_eq!(
        shortcut_from(&modifiers(true, false, false, false), "Return").unwrap(),
        "Super+Return".parse::<Shortcut>().unwrap()
    );
    assert_eq!(
        shortcut_from(&modifiers(false, false, false, false), "Print").unwrap(),
        "Print".parse::<Shortcut>().unwrap()
    );
}

#[test]
fn a_modifier_press_alone_is_not_a_shortcut() {
    assert!(shortcut_from(&modifiers(true, false, false, false), "Super_L").is_none());
    assert!(shortcut_from(&modifiers(false, false, false, false), "NoSymbol").is_none());
}

#[test]
fn a_bound_key_press_performs_its_action() {
    let binds = default_keybinds();
    let logo = modifiers(true, false, false, false);
    assert_eq!(key_action(true, &logo, &[0x0071], "q", &binds), Some(KeyAction::Bound(&Action::CloseWindow)));
    assert_eq!(key_action(false, &logo, &[0x0071], "q", &binds), None, "a release does nothing");
    assert_eq!(key_action(true, &logo, &[0x007a], "z", &binds), None, "an unbound key goes on");
    assert_eq!(key_action(true, &logo, &[0], "NoSymbol", &binds), None);
}

#[test]
fn the_way_out_works_whatever_the_settings_say() {
    let ctrl_alt = modifiers(false, true, true, false);
    assert_eq!(key_action(true, &ctrl_alt, &[0x1008_FE03], "XF86Switch_VT_3", &[]), Some(KeyAction::SwitchVt(3)));
    assert_eq!(key_action(true, &ctrl_alt, &[KEYSYM_BACKSPACE], "BackSpace", &[]), Some(KeyAction::EmergencyExit));
    assert_eq!(
        key_action(true, &ctrl_alt, &[KEYSYM_BACKSPACE, 0x1008_FE01], "BackSpace", &[]),
        Some(KeyAction::EmergencyExit),
        "the symbols are checked in order"
    );
    assert_eq!(key_action(true, &modifiers(false, true, false, false), &[KEYSYM_BACKSPACE], "BackSpace", &[]), None);
}

// --- roles ---

#[test]
fn the_shell_windows_get_their_roles() {
    assert_eq!(role_for(PANEL_APP_ID), Role::Panel);
    assert_eq!(role_for(LAUNCHER_APP_ID), Role::Launcher);
}

#[test]
fn ordinary_applications_stay_ordinary() {
    for app_id in ["foot", "firefox", "hype-files", ""] {
        assert_eq!(role_for(app_id), Role::Normal, "{app_id}");
    }
}

#[test]
fn a_lookalike_identifier_does_not_get_special_treatment() {
    assert_eq!(role_for("dev.hypede.Shell.Evil"), Role::Normal);
    assert_eq!(role_for("dev.hypede.shell"), Role::Normal);
}

// --- workspaces ---

/// Workspaces with the windows on the first one, in this order, the first
/// of them focused.
fn with_windows(ids: &[u64]) -> Workspaces {
    let mut spaces = Workspaces::new(4);
    for id in ids.iter().rev() {
        spaces.add_window(*id);
    }
    if let Some(first) = ids.first() {
        spaces.focus_window(*first);
    }
    spaces
}

#[test]
fn a_fresh_session_starts_on_the_first_workspace() {
    let spaces = Workspaces::new(9);
    assert_eq!(spaces.count(), 9);
    assert_eq!(spaces.active_index(), 1);
    assert_eq!(spaces.focused(), None);
    assert!(spaces.visible_windows().is_empty());
}

#[test]
fn there_is_always_at_least_one_workspace() {
    assert_eq!(Workspaces::new(0).count(), 1);
}

#[test]
fn a_new_window_becomes_the_master_and_takes_focus() {
    let mut spaces = Workspaces::new(4);
    spaces.add_window(1);
    spaces.add_window(2);
    assert_eq!(spaces.visible_windows(), &[2, 1]);
    assert_eq!(spaces.focused(), Some(2));
}

#[test]
fn closing_a_window_passes_focus_to_a_neighbour() {
    let mut spaces = with_windows(&[1, 2, 3]);
    assert_eq!(spaces.focused(), Some(1));
    spaces.remove_window(1);
    assert_eq!(spaces.visible_windows(), &[2, 3]);
    assert_eq!(spaces.focused(), Some(2));
}

#[test]
fn closing_the_last_window_leaves_no_focus() {
    let mut spaces = with_windows(&[1]);
    spaces.remove_window(1);
    assert_eq!(spaces.focused(), None);
    assert!(spaces.visible_windows().is_empty());
}

#[test]
fn closing_an_unfocused_window_does_not_move_focus() {
    let mut spaces = with_windows(&[1, 2, 3]);
    spaces.remove_window(3);
    assert_eq!(spaces.focused(), Some(1));
}

#[test]
fn closing_the_last_in_the_list_falls_back_to_the_previous_one() {
    let mut spaces = with_windows(&[1, 2, 3]);
    spaces.focus_window(3);
    spaces.remove_window(3);
    assert_eq!(spaces.focused(), Some(2));
}

#[test]
fn switching_workspaces_hides_the_other_windows() {
    let mut spaces = with_windows(&[1, 2]);
    assert!(spaces.activate(2));
    assert!(spaces.visible_windows().is_empty());
    assert_eq!(spaces.focused(), None);

    assert!(spaces.activate(1));
    assert_eq!(spaces.visible_windows(), &[1, 2]);
    assert_eq!(spaces.focused(), Some(1));
}

#[test]
fn a_workspace_that_does_not_exist_is_refused() {
    let mut spaces = Workspaces::new(4);
    assert!(!spaces.activate(0));
    assert!(!spaces.activate(5));
    assert_eq!(spaces.active_index(), 1);
}

#[test]
fn next_and_previous_wrap_around() {
    let mut spaces = Workspaces::new(3);
    spaces.activate_prev();
    assert_eq!(spaces.active_index(), 3);
    spaces.activate_next();
    assert_eq!(spaces.active_index(), 1);
}

#[test]
fn moving_a_window_takes_it_to_the_other_workspace_and_follows_it() {
    let mut spaces = with_windows(&[1, 2]);
    assert!(spaces.move_focused_to(3));

    assert_eq!(spaces.active_index(), 3);
    assert_eq!(spaces.visible_windows(), &[1]);
    assert_eq!(spaces.focused(), Some(1));
    assert_eq!(spaces.get(1).unwrap().windows, vec![2]);
    assert_eq!(spaces.workspace_of(1), Some(3));
}

#[test]
fn moving_a_window_to_its_own_workspace_does_nothing() {
    let mut spaces = with_windows(&[1]);
    assert!(!spaces.move_focused_to(1));
    assert_eq!(spaces.visible_windows(), &[1]);
}

#[test]
fn moving_without_a_focused_window_does_nothing() {
    let mut spaces = Workspaces::new(4);
    assert!(!spaces.move_focused_to(2));
    assert_eq!(spaces.active_index(), 1);
}

#[test]
fn focusing_a_window_from_another_workspace_is_refused() {
    let mut spaces = with_windows(&[1, 2]);
    spaces.move_focused_to(2);
    spaces.activate(1);
    assert!(!spaces.focus_window(1));
    assert_eq!(spaces.focused(), Some(2));
}

#[test]
fn swapping_two_windows_keeps_the_focus_on_the_same_window() {
    let mut spaces = with_windows(&[1, 2, 3, 4]);
    assert!(spaces.swap_windows(1, 3));
    assert_eq!(spaces.visible_windows(), &[3, 2, 1, 4]);
    assert_eq!(spaces.focused(), Some(1));
    assert!(!spaces.swap_windows(1, 9));
    assert_eq!(spaces.visible_windows(), &[3, 2, 1, 4]);
}

#[test]
fn opening_and_closing_a_window_restores_the_layout() {
    let mut spaces = with_windows(&[1, 2, 3]);
    let before: Vec<u64> = spaces.visible_windows().to_vec();
    spaces.add_window(7);
    spaces.remove_window(7);
    assert_eq!(spaces.visible_windows(), before.as_slice());
}

#[test]
fn next_then_previous_returns_to_the_same_workspace() {
    let mut spaces = Workspaces::new(5);
    for start in 1..=5u8 {
        spaces.activate(start);
        spaces.activate_next();
        spaces.activate_prev();
        assert_eq!(spaces.active_index(), start);
    }
}

// --- the pointer ---

#[test]
fn the_fallback_arrow_is_a_valid_image() {
    let image = fallback_image(24);
    assert_eq!(image.pixels_rgba.len() as u32, image.width * image.height * 4);
    assert!(image.width > 0 && image.height > 0);
}

#[test]
fn the_fallback_arrow_has_a_visible_tip() {
    let image = fallback_image(24);
    assert_eq!(image.pixels_rgba[3], 255, "the tip must be opaque");
    assert_eq!(&image.pixels_rgba[0..4], &[0, 0, 0, 255]);
}

#[test]
fn the_fallback_arrow_has_transparent_corners() {
    let image = fallback_image(24);
    let index = ((image.width - 1) * 4 + 3) as usize;
    assert_eq!(image.pixels_rgba[index], 0, "the corner must be transparent");
}

#[test]
fn the_fallback_arrow_scales_up() {
    let small = fallback_image(24);
    let large = fallback_image(48);
    assert!(large.width > small.width);
    // Every symbol becomes a square of pixels: the white fill of the second
    // row of symbols sits at the same place, twice as far.
    let at = |image: &hypede::cursor::CursorImage, x: u32, y: u32| {
        let i = ((y * image.width + x) * 4) as usize;
        image.pixels_rgba[i..i + 4].to_vec()
    };
    assert_eq!(at(&small, 1, 2), vec![255, 255, 255, 255]);
    assert_eq!(at(&large, 2, 4), vec![255, 255, 255, 255]);
    assert_eq!(at(&large, 3, 5), vec![255, 255, 255, 255]);
}

#[test]
fn an_absurd_size_does_not_break_the_arrow() {
    for size in [0, 1, 512] {
        let image = fallback_image(size);
        assert!(image.width > 0 && image.height > 0, "size {size}");
        assert_eq!(image.size, size);
    }
}

fn frame(size: u32, width: u32, delay: u32) -> FrameInfo {
    FrameInfo { size, width, height: width, delay }
}

#[test]
fn a_still_cursor_always_returns_the_same_frame() {
    // A theme that is not installed offers no frames.
    let cursor = Cursor::from_theme(None, 24);
    let first = cursor.frame(0).width;
    let later = cursor.frame(5000).width;
    assert_eq!(first, later);
}

#[test]
fn a_missing_theme_falls_back_instead_of_failing() {
    let cursor = Cursor::from_theme(None, 24);
    assert!(!cursor.frames.is_empty());
    assert_eq!(cursor.frames[0], fallback_image(24));
}

#[test]
fn a_zero_size_is_shown_as_one_pixel() {
    let cursor = Cursor::from_theme(None, 0);
    assert_eq!(cursor.size, 1);
    assert_eq!(cursor.frames[0].width, 24);
}

fn image(xhot: u32, delay: u32) -> CursorImage {
    CursorImage {
        size: 24,
        width: 24,
        height: 24,
        xhot,
        yhot: xhot,
        delay,
        pixels_rgba: vec![0; 24 * 24 * 4],
    }
}

#[test]
fn animated_frames_follow_their_delays() {
    let cursor = Cursor { frames: vec![image(0, 100), image(1, 100)], size: 24 };
    assert_eq!(cursor.frame(50).xhot, 0);
    assert_eq!(cursor.frame(150).xhot, 1);
    assert_eq!(cursor.frame(250).xhot, 0, "after a full round it starts over");
}

#[test]
fn frame_indices_follow_the_delays() {
    let frames = vec![frame(24, 24, 100), frame(24, 24, 100)];
    assert_eq!(frame_index(24, &frames, 50), 0);
    assert_eq!(frame_index(24, &frames, 150), 1);
    assert_eq!(frame_index(24, &frames, 250), 0);
}

#[test]
fn theme_frames_keep_what_the_theme_offers() {
    let theme = vec![image(0, 100), image(1, 100)];
    let cursor = Cursor::from_theme(Some(theme.clone()), 24);
    assert_eq!(cursor.frames, theme);
    assert_eq!(cursor.size, 24);
}

/// A cursor file with one image of four by four pixels, its point at (1, 1),
/// shown for a millisecond.
const CURSOR_FILE: [u8; 128] = [
    0x58, 0x63, 0x75, 0x72, 0x10, 0x00, 0x00, 0x00, 0x00, 0x00, 0x01, 0x00, 0x01, 0x00, 0x00,
    0x00, 0x02, 0x00, 0xFD, 0xFF, 0x04, 0x00, 0x00, 0x00, 0x1C, 0x00, 0x00, 0x00, 0x24, 0x00,
    0x00, 0x00, 0x02, 0x00, 0xFD, 0xFF, 0x04, 0x00, 0x00, 0x00, 0x01, 0x00, 0x00, 0x00, 0x04,
    0x00, 0x00, 0x00, 0x04, 0x00, 0x00, 0x00, 0x01, 0x00, 0x00, 0x00, 0x01, 0x00, 0x00, 0x00,
    0x01, 0x00, 0x00, 0x00, 0x00, 0x00, 0x00, 0x80, 0x00, 0x00, 0x00, 0x80, 0x00, 0x00, 0x00,
    0x80, 0x00, 0x00, 0x00, 0x80, 0x00, 0x00, 0x00, 0x80, 0x00, 0x00, 0x00, 0x80, 0x00, 0x00,
    0x00, 0x80, 0x00, 0x00, 0x00, 0x80, 0x00, 0x00, 0x00, 0x80, 0x00, 0x00, 0x00, 0x80, 0x00,
    0x00, 0x00, 0x80, 0x00, 0x00, 0x00, 0x80, 0x00, 0x00, 0x00, 0x80, 0x00, 0x00, 0x00, 0x80,
    0x00, 0x00, 0x00, 0x80, 0x00, 0x00, 0x00, 0x80,
];

#[test]
fn a_cursor_file_gives_its_frames() {
    let frames = theme_frames(&CURSOR_FILE).expect("the file holds an image");
    assert_eq!(frames.len(), 1);
    let frame = &frames[0];
    assert_eq!((frame.size, frame.width, frame.height), (4, 4, 4));
    assert_eq!((frame.xhot, frame.yhot, frame.delay), (1, 1, 1));
    let mut pixels = Vec::new();
    for _ in 0..16 {
        pixels.extend_from_slice(&[0, 0, 0, 0x80]);
    }
    assert_eq!(frame.pixels_rgba, pixels);
}

#[test]
fn bytes_that_are_no_cursor_file_give_no_frames() {
    assert_eq!(theme_frames(&[]), None);
    assert_eq!(theme_frames(b"not a cursor"), None);
    assert_eq!(theme_frames(&CURSOR_FILE[..100]), None, "a cut file is refused");
}

#[test]
fn a_cursor_file_without_images_gives_no_frames() {
    let empty = [0x58, 0x63, 0x75, 0x72, 0x10, 0x00, 0x00, 0x00, 0x00, 0x00, 0x01, 0x00, 0x00, 0x00, 0x00, 0x00];
    assert_eq!(theme_frames(&empty), None);
    assert_eq!(usable_frames(Some(Vec::new())), None);
    assert_eq!(usable_frames(Some(vec![image(0, 0)])), Some(vec![image(0, 0)]));
}

// --- the wallpaper ---

#[test]
fn solid_canvas_has_the_requested_colour_everywhere() {
    // `#ff8000`, opaque.
    let canvas = solid_canvas(3, 2, [255, 128, 0, 255]);
    assert_eq!(canvas.len(), 3 * 2 * 4);
    for pixel in canvas.chunks(4) {
        assert_eq!(pixel, [255, 128, 0, 255]);
    }
    assert!(solid_canvas(0, 5, [1, 2, 3, 4]).is_empty());
}

#[test]
fn drawing_respects_the_screen_bounds() {
    // A picture larger than the screen must not spill past the canvas. Centred
    // at its own size, a 10×10 picture on a 4×4 screen starts at (-3, -3).
    let mut canvas = solid_canvas(4, 4, [0, 0, 0, 255]);
    let picture = vec![255u8; 10 * 10 * 4];
    let shown = draw_picture(&mut canvas, 4, 4, &picture, 10, 10, 10, 10, -3, -3);
    assert_eq!(shown, picture, "at its own size the picture is not resampled");
    assert_eq!(canvas.len(), 4 * 4 * 4);
    assert!(canvas.iter().all(|byte| *byte == 255));
}

#[test]
fn a_picture_is_laid_where_its_corner_is() {
    // A 2×2 picture with its corner at (2, -1) on a 3×2 canvas: only its lower
    // left pixel lands, at (2, 0).
    let mut canvas = solid_canvas(3, 2, [0, 0, 0, 0]);
    let picture = vec![1, 1, 1, 1, 2, 2, 2, 2, 3, 3, 3, 3, 4, 4, 4, 4];
    lay_picture(&mut canvas, 3, 2, &picture, 2, 2, 2, -1);
    let mut expected = vec![0u8; 3 * 2 * 4];
    expected[8..12].copy_from_slice(&[3, 3, 3, 3]);
    assert_eq!(canvas, expected);
}

#[test]
fn a_picture_at_its_own_size_is_not_resampled() {
    let picture = vec![9u8, 8, 7, 6, 5, 4, 3, 2];
    assert_eq!(scaled_picture(&picture, 2, 1, 2, 1), picture);
}

#[test]
fn a_resampled_picture_has_the_new_size() {
    let picture = vec![200u8; 2 * 2 * 4];
    let scaled = scaled_picture(&picture, 2, 2, 4, 3);
    assert_eq!(scaled.len(), 4 * 3 * 4);
    // A picture of one colour stays that colour.
    assert!(scaled.iter().all(|byte| *byte == 200));
}

#[test]
fn the_frames_of_the_nearest_size_are_used() {
    let frames = vec![
        frame(32, 32, 10),
        frame(24, 24, 10),
        frame(48, 48, 10),
        frame(24, 24, 30),
    ];
    assert_eq!(nearest_frames(22, &frames), vec![1, 3]);
    assert_eq!(nearest_frames(40, &frames), vec![0], "the first of two equally near sizes wins");
    assert_eq!(frame_index(24, &frames, 15), 3);
    assert_eq!(frame_index(24, &frames, 45), 1);
}

#[test]
fn workspaces_are_reported_with_their_windows_and_the_active_one() {
    let mut spaces = Workspaces::new(3);
    spaces.add_window(1);
    spaces.add_window(2);
    spaces.activate(2);
    let info = |index: u8, windows: usize, active: bool| WorkspaceInfo {
        index,
        name: index.to_string(),
        windows,
        active,
        output: "eDP-1".to_string(),
    };
    assert_eq!(
        workspace_infos(&spaces, "eDP-1"),
        vec![info(1, 2, false), info(2, 0, true), info(3, 0, false)]
    );
}

#[test]
fn a_scaled_picture_is_drawn_as_returned() {
    let mut canvas = solid_canvas(3, 3, [0, 0, 0, 0]);
    let picture = vec![90u8; 2 * 2 * 4];
    let shown = draw_picture(&mut canvas, 3, 3, &picture, 2, 2, 3, 3, 0, 0);
    assert_eq!(shown.len(), 3 * 3 * 4);
    assert_eq!(canvas, shown, "a picture scaled to the whole canvas covers it exactly");
}

#[test]
fn a_picture_without_pixels_scales_to_zeros() {
    let scaled = scaled_picture(&Vec::new(), 0, 5, 2, 2);
    assert_eq!(scaled, vec![0u8; 2 * 2 * 4]);
}
