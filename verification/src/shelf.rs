//! The decisions of the shelf: which pinned application a window belongs to,
//! what a click on an application does, and which workspaces get a button.

use vstd::prelude::*;

use crate::action::{Action, ActionView};
use crate::desktop::DesktopApp;
use crate::ipc::{WindowInfo, WorkspaceInfo};
use crate::path_ops::{file_name_of, file_stem_of, path_file_name, path_stem};
use crate::paths::{opt_string, opt_view};
use crate::text::{
    chars_of, is_white_space, is_whitespace, lowercase, same_chars, string_from, to_lowercase,
    trim, trimmed, uppercase_mapping, uppercase_of,
};

verus! {

/// A pinned application with its icon.
#[derive(Debug, Clone)]
pub struct ShelfApp {
    pub name: String,
    pub icon: String,
    pub command: String,
    pub terminal: bool,
    /// The name of the `.desktop` file without its extension, which is also
    /// the `app_id` of the application's windows.
    pub desktop_id: Option<String>,
}

/// The length of the word that starts `t`.
pub open spec fn word_len(t: Seq<char>) -> nat
    decreases t.len(),
{
    if t.len() == 0 || is_white_space(t[0]) {
        0
    } else {
        1 + word_len(t.drop_first())
    }
}

/// The first word, as `split_whitespace().next()` gives it.
pub open spec fn first_word(s: Seq<char>) -> Option<Seq<char>>
    decreases s.len(),
{
    if s.len() == 0 {
        None
    } else if is_white_space(s[0]) {
        first_word(s.drop_first())
    } else {
        Some(s.take(word_len(s) as int))
    }
}

/// The program of a command line, without its directory: by it a running
/// window is tied to its icon on the shelf.
pub open spec fn program_of(command: Seq<char>) -> Seq<char> {
    match first_word(command) {
        Some(w) => match path_file_name(w) {
            Some(n) => n,
            None => w,
        },
        None => Seq::empty(),
    }
}

fn first_word_of(v: &Vec<char>) -> (r: Option<Vec<char>>)
    ensures
        match r {
            Some(w) => first_word(v@) == Some(w@),
            None => first_word(v@) is None,
        },
{
    let mut i: usize = 0;
    assert(v@.skip(0) =~= v@);
    while i < v.len() && is_whitespace(v[i])
        invariant
            i <= v@.len(),
            first_word(v@) == first_word(v@.skip(i as int)),
        decreases v@.len() - i,
    {
        assert(v@.skip(i as int).drop_first() =~= v@.skip(i + 1));
        i = i + 1;
    }
    if i == v.len() {
        return None;
    }
    let start = i;
    let ghost t = v@.skip(start as int);
    while i < v.len() && !is_whitespace(v[i])
        invariant
            start <= i <= v@.len(),
            t == v@.skip(start as int),
            forall|k: int| start <= k < i ==> !is_white_space(#[trigger] v@[k]),
            word_len(t) == (i - start) + word_len(v@.skip(i as int)),
        decreases v@.len() - i,
    {
        assert(v@.skip(i as int).drop_first() =~= v@.skip(i + 1));
        i = i + 1;
    }
    assert(word_len(v@.skip(i as int)) == 0);
    let mut w: Vec<char> = Vec::new();
    let mut k = start;
    while k < i
        invariant
            start <= k <= i <= v@.len(),
            w@ == v@.subrange(start as int, k as int),
        decreases i - k,
    {
        w.push(v[k]);
        assert(w@ =~= v@.subrange(start as int, k + 1));
        k = k + 1;
    }
    assert(t.take(word_len(t) as int) =~= w@);
    Some(w)
}

impl ShelfApp {
    /// The shelf entry of an installed application.
    pub fn from_desktop(app: &DesktopApp) -> (r: Self)
        ensures
            r.name@ == app.name@,
            r.icon@ == app.icon@,
            r.command@ == app.command@,
            r.terminal == app.terminal,
            opt_string(r.desktop_id) == path_stem(app.path@),
    {
        ShelfApp {
            name: app.name.clone(),
            icon: app.icon.clone(),
            command: app.command.clone(),
            terminal: app.terminal,
            desktop_id: file_stem_of(app.path.as_str()),
        }
    }

    /// An entry for which no `.desktop` file was found: the command as it is.
    pub fn from_command(command: &str) -> (r: Self)
        ensures
            r.name@ == command@,
            r.icon@ == "application-x-executable"@,
            r.command@ == command@,
            !r.terminal,
            r.desktop_id is None,
    {
        ShelfApp {
            name: command.to_owned(),
            icon: "application-x-executable".to_owned(),
            command: command.to_owned(),
            terminal: false,
            desktop_id: None,
        }
    }

    /// The program name without arguments and directory.
    pub fn program(&self) -> (r: String)
        ensures
            r@ == program_of(self.command@),
    {
        let v = chars_of(self.command.as_str());
        match first_word_of(&v) {
            Some(w) => {
                let word = string_from(&w);
                match file_name_of(word.as_str()) {
                    Some(n) => n,
                    None => word,
                }
            },
            None => String::new(),
        }
    }
}

/// What follows the last `c` of `s`, or all of `s` when there is none
/// (`rsplit(c).next()`).
pub open spec fn after_last(s: Seq<char>, c: char) -> Seq<char>
    decreases s.len(),
{
    if s.len() == 0 {
        s
    } else if s.last() == c {
        Seq::empty()
    } else {
        after_last(s.drop_last(), c).push(s.last())
    }
}

/// Does a window with `app_id` belong to the application. Three forms are
/// accepted, with case ignored: the id of the `.desktop` file (the desktop's
/// own programs), the bare program name (`foot`), and a reverse domain name
/// whose last part is the program (`org.gnome.Foot`). An empty id or program
/// matches nothing.
pub open spec fn app_matches(app_id: Seq<char>, desktop_id: Option<Seq<char>>, program: Seq<char>) -> bool {
    let a = lowercase(trim(app_id));
    let p = lowercase(trim(program));
    &&& a.len() > 0
    &&& {
        ||| (desktop_id matches Some(d) && a == lowercase(d))
        ||| (p.len() > 0 && a == p)
        ||| (p.len() > 0 && after_last(a, '.') == p)
    }
}

fn after_last_dot(v: &Vec<char>) -> (r: Vec<char>)
    ensures
        r@ == after_last(v@, '.'),
{
    let mut i = v.len();
    assert(v@.take(i as int) =~= v@);
    assert(v@.subrange(i as int, v@.len() as int) =~= Seq::<char>::empty());
    while i > 0 && v[i - 1] != '.'
        invariant
            i <= v@.len(),
            after_last(v@, '.') == after_last(v@.take(i as int), '.') + v@.subrange(i as int, v@.len() as int),
        decreases i,
    {
        let ghost pre = v@.take(i as int);
        assert(pre.drop_last() =~= v@.take(i - 1));
        assert(v@.subrange(i - 1, v@.len() as int) =~= seq![v@[i - 1]] + v@.subrange(i as int, v@.len() as int));
        i = i - 1;
    }
    proof {
        if i > 0 {
            assert(v@.take(i as int).last() == '.');
        }
    }
    let mut r: Vec<char> = Vec::new();
    let mut k = i;
    while k < v.len()
        invariant
            i <= k <= v@.len(),
            r@ == v@.subrange(i as int, k as int),
        decreases v@.len() - k,
    {
        r.push(v[k]);
        assert(r@ =~= v@.subrange(i as int, k + 1));
        k = k + 1;
    }
    r
}

fn lower_trimmed(s: &str) -> (r: Vec<char>)
    ensures
        r@ == lowercase(trim(s@)),
{
    let all = chars_of(s);
    let t = string_from(&trimmed(&all));
    let low = to_lowercase(t.as_str());
    chars_of(low.as_str())
}

/// Does the window with `app_id` belong to the application.
pub fn matches_app(app_id: &str, desktop_id: Option<&str>, program: &str) -> (r: bool)
    ensures
        r == app_matches(app_id@, opt_view(desktop_id), program@),
{
    let a = lower_trimmed(app_id);
    if a.len() == 0 {
        return false;
    }
    let p = lower_trimmed(program);
    match desktop_id {
        Some(d) => {
            let low = to_lowercase(d);
            let dl = chars_of(low.as_str());
            if same_chars(&a, &dl) {
                return true;
            }
        },
        None => {},
    }
    if p.len() > 0 && same_chars(&a, &p) {
        return true;
    }
    let tail = after_last_dot(&a);
    p.len() > 0 && same_chars(&tail, &p)
}

/// Which window of the list belongs to the application: the first that
/// matches.
pub open spec fn is_first_match(app: &ShelfApp, windows: Seq<WindowInfo>, i: int) -> bool {
    &&& 0 <= i < windows.len()
    &&& app_matches(windows[i].app_id@, opt_string(app.desktop_id), program_of(app.command@))
    &&& forall|j: int| 0 <= j < i ==> !app_matches(#[trigger] windows[j].app_id@, opt_string(app.desktop_id), program_of(app.command@))
}

/// What a shelf button shows and does.
#[derive(Debug, Clone, PartialEq)]
pub struct ShelfButton {
    /// The application has a window.
    pub running: bool,
    pub tooltip: String,
    /// What a click does: focus the window, or start the application (in a
    /// terminal when it asks for one).
    pub action: Action,
}

/// The button of a pinned application, given the windows of the desktop.
pub fn shelf_button(app: &ShelfApp, windows: &[WindowInfo]) -> (r: ShelfButton)
    ensures
        match r.action@ {
            ActionView::FocusWindow { id } => {
                &&& r.running
                &&& exists|i: int| #[trigger] is_first_match(app, windows@, i) && windows@[i].id == id
                    && r.tooltip@ == app.name@ + " — "@ + windows@[i].title@
            },
            ActionView::Spawn { command } => {
                &&& !r.running
                &&& forall|j: int| 0 <= j < windows@.len() ==> !app_matches(#[trigger] windows@[j].app_id@, opt_string(app.desktop_id), program_of(app.command@))
                &&& r.tooltip@ == app.name@
                &&& command == if app.terminal { "foot -e "@ + app.command@ } else { app.command@ }
            },
            _ => false,
        },
{
    let program = app.program();
    let id: Option<&str> = match &app.desktop_id {
        Some(d) => Some(d.as_str()),
        None => None,
    };
    assert(opt_view(id) == opt_string(app.desktop_id));
    let mut i: usize = 0;
    while i < windows.len()
        invariant
            i <= windows@.len(),
            program@ == program_of(app.command@),
            opt_view(id) == opt_string(app.desktop_id),
            forall|j: int| 0 <= j < i ==> !app_matches(#[trigger] windows@[j].app_id@, opt_string(app.desktop_id), program_of(app.command@)),
        decreases windows@.len() - i,
    {
        if matches_app(windows[i].app_id.as_str(), id, program.as_str()) {
            assert(is_first_match(app, windows@, i as int));
            let mut tooltip = app.name.clone();
            tooltip.append(" — ");
            tooltip.append(windows[i].title.as_str());
            return ShelfButton { running: true, tooltip, action: Action::FocusWindow { id: windows[i].id } };
        }
        i = i + 1;
    }
    let command = if app.terminal {
        let mut c = "foot -e ".to_owned();
        c.append(app.command.as_str());
        c
    } else {
        app.command.clone()
    };
    ShelfButton { running: false, tooltip: app.name.clone(), action: Action::Spawn { command } }
}

/// What the shelf knows of the desktop right now.
#[derive(Debug, Clone)]
pub struct ShelfState {
    pub active_workspace: u8,
    pub workspaces: u8,
    pub windows: Vec<WindowInfo>,
}

/// The number of workspace buttons to consider: at least one.
pub open spec fn shelf_total(workspaces: u8) -> int {
    if workspaces == 0 {
        1
    } else {
        workspaces as int
    }
}

/// A workspace is taken when it is the current one or holds a window.
pub open spec fn is_taken(active: u8, windows: Seq<WindowInfo>, index: int) -> bool {
    index == active || exists|w: int| 0 <= w < windows.len() && (#[trigger] windows[w]).workspace == index
}

/// The first workspace that is not taken.
pub open spec fn is_first_free(total: int, active: u8, windows: Seq<WindowInfo>, index: int) -> bool {
    &&& 1 <= index <= total
    &&& !is_taken(active, windows, index)
    &&& forall|k: int| 1 <= k < index ==> #[trigger] is_taken(active, windows, k)
}

/// Empty workspaces get no button (nine identical buttons take room and say
/// nothing): the taken ones are shown, the current one, and the first free
/// one, so that there is somewhere to go.
pub open spec fn is_shown(total: int, active: u8, windows: Seq<WindowInfo>, index: int) -> bool {
    &&& 1 <= index <= total
    &&& (is_taken(active, windows, index) || is_first_free(total, active, windows, index))
}

fn taken(active: u8, windows: &Vec<WindowInfo>, index: u8) -> (r: bool)
    ensures
        r == is_taken(active, windows@, index as int),
{
    if index == active {
        return true;
    }
    let mut w: usize = 0;
    while w < windows.len()
        invariant
            w <= windows@.len(),
            forall|k: int| 0 <= k < w ==> (#[trigger] windows@[k]).workspace != index,
        decreases windows@.len() - w,
    {
        if windows[w].workspace == index {
            return true;
        }
        w = w + 1;
    }
    false
}

/// The workspaces that get a button, in increasing order.
pub fn visible_workspaces(state: &ShelfState) -> (r: Vec<u8>)
    ensures
        forall|a: int, b: int| 0 <= a < b < r@.len() ==> r@[a] < r@[b],
        forall|k: int| 0 <= k < r@.len() ==> is_shown(shelf_total(state.workspaces), state.active_workspace, state.windows@, #[trigger] r@[k] as int),
        forall|index: int| is_shown(shelf_total(state.workspaces), state.active_workspace, state.windows@, index) ==> r@.contains(index as u8),
{
    let total: u8 = if state.workspaces == 0 { 1 } else { state.workspaces };
    let ghost t = shelf_total(state.workspaces);
    let ghost act = state.active_workspace;
    let ghost ws = state.windows@;
    // The first free workspace, if there is one.
    let mut free: Option<u8> = None;
    let mut idx: u16 = 1;
    while idx <= total as u16 && free.is_none()
        invariant
            1 <= idx <= total as u16 + 1,
            total as int == t,
            match free {
                Some(f) => is_first_free(t, act, ws, f as int),
                None => forall|k: int| 1 <= k < idx ==> #[trigger] is_taken(act, ws, k),
            },
            act == state.active_workspace,
            ws == state.windows@,
        decreases total as u16 + 1 - idx,
    {
        if !taken(state.active_workspace, &state.windows, idx as u8) {
            free = Some(idx as u8);
            assert(is_first_free(t, act, ws, idx as int));
        }
        idx = idx + 1;
    }
    proof {
        if free is None {
            assert forall|k: int| !is_first_free(t, act, ws, k) by {
                if 1 <= k <= t {
                    assert(is_taken(act, ws, k));
                }
            }
        } else {
            let f = free->0 as int;
            assert forall|k: int| #[trigger] is_first_free(t, act, ws, k) implies k == f by {
                if k < f {
                    assert(is_taken(act, ws, k));
                } else if k > f {
                    assert(is_taken(act, ws, f));
                }
            }
        }
    }
    let mut r: Vec<u8> = Vec::new();
    let mut i: u16 = 1;
    while i <= total as u16
        invariant
            1 <= i <= total as u16 + 1,
            total as int == t,
            act == state.active_workspace,
            ws == state.windows@,
            match free {
                Some(f) => is_first_free(t, act, ws, f as int) && forall|k: int| #[trigger] is_first_free(t, act, ws, k) ==> k == f,
                None => forall|k: int| !#[trigger] is_first_free(t, act, ws, k),
            },
            forall|a: int, b: int| 0 <= a < b < r@.len() ==> r@[a] < r@[b],
            forall|k: int| 0 <= k < r@.len() ==> 1 <= #[trigger] r@[k] < i && is_shown(t, act, ws, r@[k] as int),
            forall|index: int| 1 <= index < i && is_shown(t, act, ws, index) ==> r@.contains(index as u8),
        decreases total as u16 + 1 - i,
    {
        let is_free = match free {
            Some(f) => f as u16 == i,
            None => false,
        };
        let shown = taken(state.active_workspace, &state.windows, i as u8) || is_free;
        let ghost before = r@;
        if shown {
            r.push(i as u8);
            assert(r@[r@.len() - 1] == i as u8);
            assert forall|index: int| 1 <= index < i + 1 && is_shown(t, act, ws, index) implies r@.contains(index as u8) by {
                if index < i {
                    assert(before.contains(index as u8));
                    let w = choose|w: int| 0 <= w < before.len() && before[w] == index as u8;
                    assert(r@[w] == index as u8);
                } else {
                    assert(r@[r@.len() - 1] == index as u8);
                }
            }
        } else {
            assert(!is_shown(t, act, ws, i as int));
        }
        i = i + 1;
    }
    r
}


/// The number of the first workspace marked active, one where none is.
pub open spec fn first_active(ws: Seq<WorkspaceInfo>) -> u8
    decreases ws.len(),
{
    if ws.len() == 0 {
        1
    } else if ws[0].active {
        ws[0].index
    } else {
        first_active(ws.drop_first())
    }
}

impl ShelfState {
    /// Takes in what the compositor reports of the desktop: the number of
    /// workspaces (kept in a `u8`, as the protocol numbers them), the active
    /// one, and the windows.
    pub fn refresh_from(&mut self, workspaces: &[WorkspaceInfo], windows: Vec<WindowInfo>)
        ensures
            final(self).workspaces as int == workspaces@.len() % 256,
            final(self).active_workspace == first_active(workspaces@),
            final(self).windows@ == windows@,
    {
        let mut active: u8 = 1;
        let mut i: usize = workspaces.len();
        while i > 0
            invariant
                i <= workspaces@.len(),
                active == first_active(workspaces@.skip(i as int)),
            decreases i,
        {
            i = i - 1;
            let ghost rest = workspaces@.skip(i as int);
            assert(rest.drop_first() =~= workspaces@.skip(i + 1));
            if workspaces[i].active {
                active = workspaces[i].index;
            }
        }
        assert(workspaces@.skip(0) =~= workspaces@);
        self.workspaces = (workspaces.len() % 256) as u8;
        self.active_workspace = active;
        self.windows = windows;
    }
}

/// The letter shown in place of the user's picture: the first letter of the
/// user name in upper case, or a question mark where there is no name.
pub fn user_initial(user: Option<&str>) -> (r: String)
    ensures
        r@ == (match user {
            Some(name) => if name@.len() > 0 { uppercase_mapping(name@[0]) } else { "?"@ },
            None => "?"@,
        }),
{
    match user {
        Some(name) => {
            let letters = chars_of(name);
            if letters.len() > 0 {
                uppercase_of(letters[0])
            } else {
                "?".to_owned()
            }
        },
        None => "?".to_owned(),
    }
}

} // verus!
