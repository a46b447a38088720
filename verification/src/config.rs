//! Settings of the desktop that hold no fractional numbers: the layout mode,
//! the panel, and the key bindings with their defaults and their checks.
//!
//! The settings file itself is TOML; reading and writing it happens next to
//! the file. A missing section takes its default, so a user keeps in the file
//! only what was changed.

use vstd::prelude::*;

use crate::action::{split_command_spec, Action, ActionView, Direction, ScreenshotTarget};
use crate::ipc::texts;
use crate::shortcut::{parse_shortcut, Key, KeyView, Mods, Shortcut, ShortcutParseErrorView, ShortcutView};
use crate::text::{debug_quoted, decimal, decimal_string, digit_char, is_digit, quoted};

verus! {

/// How windows are laid out.
#[derive(Debug, Clone, Copy, PartialEq, Eq, Structural)]
pub enum LayoutMode {
    /// Windows share the screen without overlapping.
    Tiling,
    /// Windows float freely.
    Floating,
}

impl Default for LayoutMode {
    fn default() -> (r: Self)
        ensures
            r == LayoutMode::Tiling,
    {
        LayoutMode::Tiling
    }
}

/// Where the panel hangs.
#[derive(Debug, Clone, Copy, PartialEq, Eq, Structural)]
pub enum PanelPosition {
    Top,
    Bottom,
}

impl Default for PanelPosition {
    fn default() -> (r: Self)
        ensures
            r == PanelPosition::Top,
    {
        PanelPosition::Top
    }
}

/// The panel and what it shows.
#[derive(Debug, Clone, PartialEq)]
pub struct PanelConfig {
    pub enabled: bool,
    pub position: PanelPosition,
    pub height: u32,
    /// Modules from left to right. Unknown names are skipped with a warning.
    pub modules_left: Vec<String>,
    pub modules_center: Vec<String>,
    pub modules_right: Vec<String>,
}

impl Default for PanelConfig {
    fn default() -> (r: Self)
        ensures
            r.enabled,
            r.position == PanelPosition::Top,
            r.height == 36,
            texts(r.modules_left@) == seq!["logo"@, "workspaces"@, "window-title"@],
            texts(r.modules_center@) == seq!["clock"@],
            texts(r.modules_right@) == seq!["tray"@, "network"@, "volume"@, "battery"@, "power"@],
    {
        let r = PanelConfig {
            enabled: true,
            position: PanelPosition::Top,
            height: 36,
            modules_left: vec!["logo".to_owned(), "workspaces".to_owned(), "window-title".to_owned()],
            modules_center: vec!["clock".to_owned()],
            modules_right: vec![
                "tray".to_owned(),
                "network".to_owned(),
                "volume".to_owned(),
                "battery".to_owned(),
                "power".to_owned(),
            ],
        };
        assert(texts(r.modules_left@) =~= seq!["logo"@, "workspaces"@, "window-title"@]);
        assert(texts(r.modules_center@) =~= seq!["clock"@]);
        assert(texts(r.modules_right@) =~= seq!["tray"@, "network"@, "volume"@, "battery"@, "power"@]);
        r
    }
}

impl PanelConfig {
    /// The complaint about a panel that is switched on but has no height.
    pub fn warning(&self) -> (r: Option<String>)
        ensures
            match r {
                Some(w) => self.enabled && self.height == 0 && w@ == "высота панели 0 — панель не будет видна"@,
                None => !(self.enabled && self.height == 0),
            },
    {
        if self.enabled && self.height == 0 {
            Some("высота панели 0 — панель не будет видна".to_owned())
        } else {
            None
        }
    }
}

/// A key combination bound to an action.
#[derive(Debug, Clone, PartialEq)]
pub struct Binding {
    pub keys: Shortcut,
    pub action: Action,
}

/// The mathematical picture of a binding.
pub struct BindingView {
    pub keys: ShortcutView,
    pub action: ActionView,
}

impl View for Binding {
    type V = BindingView;

    open spec fn view(&self) -> BindingView {
        BindingView { keys: self.keys@, action: self.action@ }
    }
}

/// The pictures of a list of bindings.
pub open spec fn binding_views(bs: Seq<Binding>) -> Seq<BindingView> {
    Seq::new(bs.len(), |i: int| bs[i]@)
}

impl Binding {
    /// A binding from the text of its keys. The text must be a valid
    /// shortcut: the bindings written into the program are.
    pub fn new(keys: &str, action: Action) -> (r: Self)
        requires
            parse_shortcut(keys@) is Ok,
        ensures
            parse_shortcut(keys@) == Ok::<ShortcutView, ShortcutParseErrorView>(r.keys@),
            r.action == action,
    {
        match Shortcut::parse(keys) {
            Ok(k) => Binding { keys: k, action },
            Err(_) => {
                proof {
                    assert(false);
                }
                Binding { keys: Shortcut { mods: Mods::none(), key: Key::Char(' ') }, action }
            },
        }
    }
}

/// The logo key alone.
pub open spec fn logo() -> Mods {
    Mods { logo: true, ctrl: false, alt: false, shift: false }
}

/// The logo and shift keys.
pub open spec fn logo_shift() -> Mods {
    Mods { logo: true, ctrl: false, alt: false, shift: true }
}

/// The logo and control keys.
pub open spec fn logo_ctrl() -> Mods {
    Mods { logo: true, ctrl: true, alt: false, shift: false }
}

/// The shift key alone.
pub open spec fn shift_only() -> Mods {
    Mods { logo: false, ctrl: false, alt: false, shift: true }
}

/// A binding picture.
pub open spec fn bound(mods: Mods, key: KeyView, action: ActionView) -> BindingView {
    BindingView { keys: ShortcutView { mods, key }, action }
}

/// The bindings of the desktop as a whole: the logo key for the desktop,
/// logo and shift for the same thing done to the window, and nothing without
/// a modifier but `Print`.
pub open spec fn fixed_bindings() -> Seq<BindingView> {
    seq![
        bound(logo(), KeyView::Named("Return"@), ActionView::Spawn { command: "foot"@ }),
        bound(logo(), KeyView::Char('e'), ActionView::Spawn { command: "hype-files"@ }),
        bound(logo(), KeyView::Char('i'), ActionView::Spawn { command: "hype-settings"@ }),
        bound(logo(), KeyView::Char('q'), ActionView::CloseWindow),
        bound(logo(), KeyView::Char('f'), ActionView::ToggleFullscreen),
        bound(logo(), KeyView::Char('m'), ActionView::ToggleMaximized),
        bound(logo(), KeyView::Char('v'), ActionView::ToggleFloating),
        bound(logo(), KeyView::Named("Space"@), ActionView::ToggleLauncher),
        bound(logo(), KeyView::Named("Tab"@), ActionView::ToggleOverview),
        bound(logo_shift(), KeyView::Char('r'), ActionView::ReloadConfig),
        bound(logo_shift(), KeyView::Char('e'), ActionView::Quit),
        bound(Mods::no_mods(), KeyView::Named("Print"@), ActionView::Screenshot { target: ScreenshotTarget::Screen }),
        bound(shift_only(), KeyView::Named("Print"@), ActionView::Screenshot { target: ScreenshotTarget::Region }),
    ]
}

/// The direction of the `d`-th group of navigation bindings.
pub open spec fn nav_direction(d: int) -> Direction {
    if d == 0 {
        Direction::Left
    } else if d == 1 {
        Direction::Down
    } else if d == 2 {
        Direction::Up
    } else {
        Direction::Right
    }
}

/// The arrow key or the vim letter of the `d`-th direction: arrows and hjkl
/// both work out of the box.
pub open spec fn nav_key(d: int, letter: bool) -> KeyView {
    if letter {
        KeyView::Char(if d == 0 { 'h' } else if d == 1 { 'j' } else if d == 2 { 'k' } else { 'l' })
    } else {
        KeyView::Named(if d == 0 { "Left"@ } else if d == 1 { "Down"@ } else if d == 2 { "Up"@ } else { "Right"@ })
    }
}

/// The `i`-th navigation binding: per direction, per key, focus, move and
/// resize by 40 pixels.
pub open spec fn nav_binding(i: int) -> BindingView {
    let d = i / 6;
    let key = nav_key(d, (i % 6) / 3 == 1);
    let dir = nav_direction(d);
    if i % 3 == 0 {
        bound(logo(), key, ActionView::FocusDirection { direction: dir })
    } else if i % 3 == 1 {
        bound(logo_shift(), key, ActionView::MoveWindow { direction: dir })
    } else {
        bound(logo_ctrl(), key, ActionView::ResizeWindow { direction: dir, delta: 40 })
    }
}

/// The navigation bindings.
pub open spec fn nav_bindings() -> Seq<BindingView> {
    Seq::new(24, |i: int| nav_binding(i))
}

/// The `i`-th workspace binding: go to workspace `i / 2 + 1`, or send the
/// window there.
pub open spec fn workspace_binding(i: int) -> BindingView {
    let n = i / 2 + 1;
    let key = KeyView::Char(digit_char(n as nat));
    if i % 2 == 0 {
        bound(logo(), key, ActionView::Workspace { index: n as u8 })
    } else {
        bound(logo_shift(), key, ActionView::MoveToWorkspace { index: n as u8 })
    }
}

/// The workspace bindings, for workspaces one to nine.
pub open spec fn workspace_bindings() -> Seq<BindingView> {
    Seq::new(18, |i: int| workspace_binding(i))
}

/// The default key bindings.
pub open spec fn default_bindings() -> Seq<BindingView> {
    fixed_bindings() + nav_bindings() + workspace_bindings()
}

/// The logo key with a letter.
pub open spec fn logo_letter(c: char) -> ShortcutView {
    ShortcutView { mods: logo(), key: KeyView::Char(c) }
}

/// Among the default bindings each window command sits on its initial with
/// the logo key, and on no other key: fullscreen on Super+F, maximise on
/// Super+M, floating on Super+V, closing on Super+Q.
pub proof fn law_window_commands_sit_on_their_initials(i: int)
    requires
        0 <= i < default_bindings().len(),
    ensures
        default_bindings()[i].action == ActionView::ToggleFullscreen <==> default_bindings()[i].keys == logo_letter('f'),
        default_bindings()[i].action == ActionView::ToggleMaximized <==> default_bindings()[i].keys == logo_letter('m'),
        default_bindings()[i].action == ActionView::ToggleFloating <==> default_bindings()[i].keys == logo_letter('v'),
        default_bindings()[i].action == ActionView::CloseWindow <==> default_bindings()[i].keys == logo_letter('q'),
{
    let f = fixed_bindings();
    let n = nav_bindings();
    let w = workspace_bindings();
    assert(default_bindings() == f + n + w);
    if i < 13 {
        assert(default_bindings()[i] == f[i]);
    } else if i < 37 {
        assert(default_bindings()[i] == n[i - 13]);
        assert(n[i - 13] == nav_binding(i - 13));
    } else {
        assert(default_bindings()[i] == w[i - 37]);
        assert(w[i - 37] == workspace_binding(i - 37));
        let m = (i - 37) / 2 + 1;
        assert(1 <= m <= 9);
        assert(is_digit(digit_char(m as nat)));
    }
}

fn binding(mods: Mods, key: Key, action: Action) -> (r: Binding)
    ensures
        r.keys.mods == mods,
        r.keys.key == key,
        r.action == action,
{
    Binding { keys: Shortcut { mods, key }, action }
}

fn named(name: &str) -> (r: Key)
    ensures
        r@ == KeyView::Named(name@),
{
    Key::Named(name.to_owned())
}

fn spawn(command: &str) -> (r: Action)
    ensures
        r@ == (ActionView::Spawn { command: command@ }),
{
    Action::Spawn { command: command.to_owned() }
}

fn logo_mods() -> (r: Mods)
    ensures
        r == logo(),
{
    Mods { logo: true, ctrl: false, alt: false, shift: false }
}

fn logo_shift_mods() -> (r: Mods)
    ensures
        r == logo_shift(),
{
    Mods { logo: true, ctrl: false, alt: false, shift: true }
}

fn fixed_list() -> (r: Vec<Binding>)
    ensures
        binding_views(r@) == fixed_bindings(),
{
    let shift = Mods { logo: false, ctrl: false, alt: false, shift: true };
    let r = vec![
        binding(logo_mods(), named("Return"), spawn("foot")),
        binding(logo_mods(), Key::Char('e'), spawn("hype-files")),
        binding(logo_mods(), Key::Char('i'), spawn("hype-settings")),
        binding(logo_mods(), Key::Char('q'), Action::CloseWindow),
        binding(logo_mods(), Key::Char('f'), Action::ToggleFullscreen),
        binding(logo_mods(), Key::Char('m'), Action::ToggleMaximized),
        binding(logo_mods(), Key::Char('v'), Action::ToggleFloating),
        binding(logo_mods(), named("Space"), Action::ToggleLauncher),
        binding(logo_mods(), named("Tab"), Action::ToggleOverview),
        binding(logo_shift_mods(), Key::Char('r'), Action::ReloadConfig),
        binding(logo_shift_mods(), Key::Char('e'), Action::Quit),
        binding(Mods::none(), named("Print"), Action::Screenshot { target: ScreenshotTarget::Screen }),
        binding(shift, named("Print"), Action::Screenshot { target: ScreenshotTarget::Region }),
    ];
    assert(binding_views(r@) =~= fixed_bindings());
    r
}

fn nav_direction_of(d: usize) -> (r: Direction)
    requires
        d < 4,
    ensures
        r == nav_direction(d as int),
{
    if d == 0 {
        Direction::Left
    } else if d == 1 {
        Direction::Down
    } else if d == 2 {
        Direction::Up
    } else {
        Direction::Right
    }
}

fn nav_key_of(d: usize, letter: bool) -> (r: Key)
    requires
        d < 4,
    ensures
        r@ == nav_key(d as int, letter),
{
    if letter {
        Key::Char(if d == 0 { 'h' } else if d == 1 { 'j' } else if d == 2 { 'k' } else { 'l' })
    } else {
        named(if d == 0 { "Left" } else if d == 1 { "Down" } else if d == 2 { "Up" } else { "Right" })
    }
}

fn nav_binding_at(i: usize) -> (r: Binding)
    requires
        i < 24,
    ensures
        r@ == nav_binding(i as int),
{
    let d = i / 6;
    let key = nav_key_of(d, (i % 6) / 3 == 1);
    let dir = nav_direction_of(d);
    if i % 3 == 0 {
        binding(logo_mods(), key, Action::FocusDirection { direction: dir })
    } else if i % 3 == 1 {
        binding(logo_shift_mods(), key, Action::MoveWindow { direction: dir })
    } else {
        let ctrl = Mods { logo: true, ctrl: true, alt: false, shift: false };
        binding(ctrl, key, Action::ResizeWindow { direction: dir, delta: 40 })
    }
}

fn workspace_binding_at(i: usize) -> (r: Binding)
    requires
        i < 18,
    ensures
        r@ == workspace_binding(i as int),
{
    let n: u8 = (i / 2 + 1) as u8;
    let digit = ((48 + n) as u8) as char;
    if i % 2 == 0 {
        binding(logo_mods(), Key::Char(digit), Action::Workspace { index: n })
    } else {
        binding(logo_shift_mods(), Key::Char(digit), Action::MoveToWorkspace { index: n })
    }
}

/// The default key bindings.
pub fn default_keybinds() -> (r: Vec<Binding>)
    ensures
        binding_views(r@) == default_bindings(),
{
    let mut binds = fixed_list();
    let mut i: usize = 0;
    while i < 24
        invariant
            i <= 24,
            binding_views(binds@) == fixed_bindings() + nav_bindings().take(i as int),
        decreases 24 - i,
    {
        let b = nav_binding_at(i);
        let ghost before = binding_views(binds@);
        binds.push(b);
        assert(binding_views(binds@) =~= before.push(b@));
        assert(fixed_bindings() + nav_bindings().take(i + 1) =~= (fixed_bindings() + nav_bindings().take(i as int)).push(nav_bindings()[i as int]));
        i = i + 1;
    }
    assert(nav_bindings().take(24) =~= nav_bindings());
    let mut j: usize = 0;
    while j < 18
        invariant
            j <= 18,
            binding_views(binds@) == fixed_bindings() + nav_bindings() + workspace_bindings().take(j as int),
        decreases 18 - j,
    {
        let b = workspace_binding_at(j);
        let ghost before = binding_views(binds@);
        binds.push(b);
        assert(binding_views(binds@) =~= before.push(b@));
        assert(fixed_bindings() + nav_bindings() + workspace_bindings().take(j + 1) =~= (fixed_bindings() + nav_bindings() + workspace_bindings().take(j as int)).push(workspace_bindings()[j as int]));
        j = j + 1;
    }
    assert(workspace_bindings().take(18) =~= workspace_bindings());
    binds
}

/// The action bound to the keys: that of the first binding with them.
pub open spec fn is_first_binding(bs: Seq<BindingView>, keys: ShortcutView, i: int) -> bool {
    &&& 0 <= i < bs.len()
    &&& bs[i].keys == keys
    &&& forall|j: int| 0 <= j < i ==> bs[j].keys != keys
}

/// Looks up the action bound to a key combination; the first binding wins.
pub fn action_for<'a>(keybinds: &'a [Binding], shortcut: &Shortcut) -> (r: Option<&'a Action>)
    ensures
        match r {
            Some(a) => exists|i: int| is_first_binding(binding_views(keybinds@), shortcut@, i) && *a == keybinds@[i].action,
            None => forall|i: int| 0 <= i < keybinds@.len() ==> keybinds@[i].keys@ != shortcut@,
        },
{
    let ghost bs = binding_views(keybinds@);
    let mut i: usize = 0;
    while i < keybinds.len()
        invariant
            i <= keybinds@.len(),
            bs == binding_views(keybinds@),
            forall|j: int| 0 <= j < i ==> keybinds@[j].keys@ != shortcut@,
        decreases keybinds@.len() - i,
    {
        if keybinds[i].keys.same_as(shortcut) {
            assert(is_first_binding(bs, shortcut@, i as int));
            return Some(&keybinds[i].action);
        }
        i = i + 1;
    }
    None
}

/// The complaint about a key combination bound more than once.
pub open spec fn duplicate_message(keys: ShortcutView) -> Seq<char> {
    "сочетание "@ + keys.text() + " привязано несколько раз, сработает только первое"@
}

/// The complaint about a command that cannot be split into arguments.
pub open spec fn spawn_message(keys: ShortcutView, command: Seq<char>) -> Seq<char> {
    "привязка "@ + keys.text() + ": команду "@ + debug_quoted(command) + " не удалось разобрать"@
}

/// The complaint about a workspace beyond the configured ones.
pub open spec fn workspace_message(keys: ShortcutView, index: u8, workspaces: u8) -> Seq<char> {
    "привязка "@ + keys.text() + ": рабочего стола "@ + decimal(index as nat) + " не существует (их "@
        + decimal(workspaces as nat) + ")"@
}

/// The complaints about repeated combinations: one for each binding whose
/// keys an earlier binding already has.
pub open spec fn duplicate_warnings(bs: Seq<BindingView>) -> Seq<Seq<char>>
    decreases bs.len(),
{
    if bs.len() == 0 {
        Seq::empty()
    } else {
        let rest = duplicate_warnings(bs.drop_last());
        if exists|j: int| 0 <= j < bs.len() - 1 && bs[j].keys == bs.last().keys {
            rest.push(duplicate_message(bs.last().keys))
        } else {
            rest
        }
    }
}

/// The complaint about one binding's action, if it has one.
pub open spec fn action_warning(b: BindingView, workspaces: u8) -> Seq<Seq<char>> {
    match b.action {
        ActionView::Spawn { command } => if split_command_spec(command) is None {
            seq![spawn_message(b.keys, command)]
        } else {
            Seq::empty()
        },
        ActionView::Workspace { index } => if index == 0 || index > workspaces {
            seq![workspace_message(b.keys, index, workspaces)]
        } else {
            Seq::empty()
        },
        ActionView::MoveToWorkspace { index } => if index == 0 || index > workspaces {
            seq![workspace_message(b.keys, index, workspaces)]
        } else {
            Seq::empty()
        },
        _ => Seq::empty(),
    }
}

/// The complaints about the bindings' actions, in order.
pub open spec fn action_warnings(bs: Seq<BindingView>, workspaces: u8) -> Seq<Seq<char>>
    decreases bs.len(),
{
    if bs.len() == 0 {
        Seq::empty()
    } else {
        action_warnings(bs.drop_last(), workspaces) + action_warning(bs.last(), workspaces)
    }
}

/// The warnings about a set of bindings: repeated combinations first, then
/// broken commands and missing workspaces, then a layout without workspaces.
pub open spec fn keybind_warnings_spec(bs: Seq<BindingView>, workspaces: u8) -> Seq<Seq<char>> {
    duplicate_warnings(bs) + action_warnings(bs, workspaces) + if workspaces == 0 {
        seq!["рабочих столов должно быть хотя бы один"@]
    } else {
        Seq::empty()
    }
}

fn concat3(a: &str, b: &str, c: &str) -> (r: String)
    ensures
        r@ == a@ + b@ + c@,
{
    let mut r = a.to_owned();
    r.append(b);
    r.append(c);
    r
}

/// The complaint about one binding's action, if it has one.
fn action_warning_of(b: &Binding, workspaces: u8) -> (r: Option<String>)
    ensures
        match r {
            Some(w) => action_warning(b@, workspaces) == seq![w@],
            None => action_warning(b@, workspaces) == Seq::<Seq<char>>::empty(),
        },
{
    match &b.action {
        Action::Spawn { command } => {
            if b.action.command_line().is_none() {
                let keys = b.keys.to_string();
                let q = quoted(command.as_str());
                let mut w = concat3("привязка ", keys.as_str(), ": команду ");
                w.append(q.as_str());
                w.append(" не удалось разобрать");
                Some(w)
            } else {
                None
            }
        },
        Action::Workspace { index } | Action::MoveToWorkspace { index } => {
            if *index == 0 || *index > workspaces {
                let keys = b.keys.to_string();
                let n = decimal_string(*index as u64);
                let total = decimal_string(workspaces as u64);
                let mut w = concat3("привязка ", keys.as_str(), ": рабочего стола ");
                w.append(n.as_str());
                w.append(" не существует (их ");
                w.append(total.as_str());
                w.append(")");
                Some(w)
            } else {
                None
            }
        },
        _ => None,
    }
}

/// Checks the key bindings against each other and against the number of
/// workspaces. Nothing here stops the desktop: a doubtful setting is
/// reported, not refused.
pub fn keybind_warnings(keybinds: &[Binding], workspaces: u8) -> (r: Vec<String>)
    ensures
        texts(r@) == keybind_warnings_spec(binding_views(keybinds@), workspaces),
{
    let ghost bs = binding_views(keybinds@);
    let mut out: Vec<String> = Vec::new();
    let mut i: usize = 0;
    while i < keybinds.len()
        invariant
            i <= keybinds@.len(),
            bs == binding_views(keybinds@),
            texts(out@) == duplicate_warnings(bs.take(i as int)),
        decreases keybinds@.len() - i,
    {
        let ghost pre = bs.take(i + 1);
        assert(pre.drop_last() =~= bs.take(i as int));
        let mut seen = false;
        let mut j: usize = 0;
        while j < i
            invariant
                j <= i < keybinds@.len(),
                bs == binding_views(keybinds@),
                pre == bs.take(i + 1),
                seen == exists|k: int| 0 <= k < j && pre[k].keys == pre.last().keys,
            decreases i - j,
        {
            assert(pre[j as int] == keybinds@[j as int]@);
            assert(pre.last() == keybinds@[i as int]@);
            if keybinds[j].keys.same_as(&keybinds[i].keys) {
                seen = true;
            }
            proof {
                if !seen {
                    assert forall|k: int| 0 <= k < j + 1 implies !(pre[k].keys == pre.last().keys) by {
                        if k < j {
                        }
                    }
                }
            }
            j = j + 1;
        }
        assert(pre.last() == keybinds@[i as int]@);
        let ghost before = texts(out@);
        if seen {
            let keys = keybinds[i].keys.to_string();
            let w = concat3("сочетание ", keys.as_str(), " привязано несколько раз, сработает только первое");
            out.push(w);
            assert(texts(out@) =~= before.push(w@));
        }
        assert(texts(out@) =~= duplicate_warnings(pre));
        i = i + 1;
    }
    assert(bs.take(bs.len() as int) =~= bs);
    let ghost dup = texts(out@);
    let mut k: usize = 0;
    while k < keybinds.len()
        invariant
            k <= keybinds@.len(),
            bs == binding_views(keybinds@),
            dup == duplicate_warnings(bs),
            texts(out@) == dup + action_warnings(bs.take(k as int), workspaces),
        decreases keybinds@.len() - k,
    {
        assert(bs.take(k + 1).drop_last() =~= bs.take(k as int));
        assert(bs.take(k + 1).last() == keybinds@[k as int]@);
        let ghost before = texts(out@);
        match action_warning_of(&keybinds[k], workspaces) {
            Some(w) => {
                out.push(w);
                assert(texts(out@) =~= before.push(w@));
            },
            None => {},
        }
        assert(texts(out@) =~= dup + action_warnings(bs.take(k + 1), workspaces));
        k = k + 1;
    }
    let ghost before = texts(out@);
    if workspaces == 0 {
        let w = "рабочих столов должно быть хотя бы один".to_owned();
        out.push(w);
        assert(texts(out@) =~= before.push(w@));
    }
    assert(texts(out@) =~= keybind_warnings_spec(bs, workspaces));
    out
}


/// How an attempt to hand saved settings to the running compositor ended.
#[derive(Debug, Clone, PartialEq, Eq)]
pub enum ApplyOutcome {
    /// The compositor took the settings.
    Applied,
    /// The compositor answered with an error.
    Refused,
    /// The connection failed before an answer came; the failure as text.
    NoAnswer(String),
    /// No compositor is running: the settings apply at the next login.
    NotRunning,
}

/// The status line of the settings window after saving: how applying went,
/// and how many remarks the check of the settings made, if any.
pub open spec fn apply_status_text(outcome: ApplyOutcome, warnings: nat) -> Seq<char> {
    let message = match outcome {
        ApplyOutcome::Applied => "Применено"@,
        ApplyOutcome::Refused => "Сохранено, но композитор отказался применять"@,
        ApplyOutcome::NoAnswer(error) => "Сохранено; композитор не ответил: "@ + error@,
        ApplyOutcome::NotRunning => "Сохранено. Применится при следующем входе в HypeDE"@,
    };
    if warnings == 0 {
        message
    } else {
        message + " · замечаний: "@ + decimal(warnings)
    }
}

/// The status line of the settings window after saving.
pub fn apply_status(outcome: &ApplyOutcome, warnings: usize) -> (r: String)
    ensures
        r@ == apply_status_text(*outcome, warnings as nat),
{
    let mut text = match outcome {
        ApplyOutcome::Applied => "Применено".to_owned(),
        ApplyOutcome::Refused => "Сохранено, но композитор отказался применять".to_owned(),
        ApplyOutcome::NoAnswer(error) => {
            let mut t = "Сохранено; композитор не ответил: ".to_owned();
            t.append(error.as_str());
            t
        },
        ApplyOutcome::NotRunning => "Сохранено. Применится при следующем входе в HypeDE".to_owned(),
    };
    if warnings > 0 {
        text.append(" · замечаний: ");
        let count = decimal_string(warnings as u64);
        text.append(count.as_str());
    }
    text
}

} // verus!
