//! Actions the compositor can perform.
//!
//! The same type serves key bindings and the control protocol: whatever can be
//! bound to a key can be called from a script, and the other way round.

use vstd::prelude::*;

use crate::text::{
    chars_of, decimal, decimal_string, is_white_space, is_whitespace, push_char,
    signed_decimal, signed_decimal_string,
};

verus! {

/// A direction on the screen.
#[derive(Debug, Clone, Copy, PartialEq, Eq, Structural)]
pub enum Direction {
    Left,
    Right,
    Up,
    Down,
}

impl Direction {
    /// The opposite direction.
    pub open spec fn opposite_spec(self) -> Direction {
        match self {
            Direction::Left => Direction::Right,
            Direction::Right => Direction::Left,
            Direction::Up => Direction::Down,
            Direction::Down => Direction::Up,
        }
    }

    /// The opposite direction.
    pub fn opposite(self) -> (r: Self)
        ensures
            r == self.opposite_spec(),
    {
        match self {
            Direction::Left => Direction::Right,
            Direction::Right => Direction::Left,
            Direction::Up => Direction::Down,
            Direction::Down => Direction::Up,
        }
    }
}

/// Turning round twice faces the way one started, and never the same way
/// after one turn.
pub proof fn law_opposite_is_an_involution(d: Direction)
    ensures
        d.opposite_spec().opposite_spec() == d,
        d.opposite_spec() != d,
{
}

/// What a screenshot captures.
#[derive(Debug, Clone, Copy, PartialEq, Eq, Structural)]
pub enum ScreenshotTarget {
    Screen,
    Window,
    Region,
}

/// An action of the desktop.
#[derive(Debug, Clone, PartialEq)]
pub enum Action {
    /// Start a program. The command is split at spaces, without a shell.
    Spawn { command: String },
    CloseWindow,
    ToggleFullscreen,
    ToggleMaximized,
    ToggleFloating,
    /// Move the focus to the neighbouring window.
    FocusDirection { direction: Direction },
    /// Move the focus to a window by its number.
    FocusWindow { id: u64 },
    /// Move the current window.
    MoveWindow { direction: Direction },
    /// Resize the current window by `delta` logical pixels.
    ResizeWindow { direction: Direction, delta: i32 },
    /// Go to a workspace by number, from one.
    Workspace { index: u8 },
    /// Send the window to a workspace and go there.
    MoveToWorkspace { index: u8 },
    NextWorkspace,
    PrevWorkspace,
    /// Show the overview of all windows.
    ToggleOverview,
    /// Show the application search.
    ToggleLauncher,
    Screenshot { target: ScreenshotTarget },
    /// Read the configuration again.
    ReloadConfig,
    /// End the session.
    Quit,
}

/// The mathematical picture of an action.
pub enum ActionView {
    Spawn { command: Seq<char> },
    CloseWindow,
    ToggleFullscreen,
    ToggleMaximized,
    ToggleFloating,
    FocusDirection { direction: Direction },
    FocusWindow { id: u64 },
    MoveWindow { direction: Direction },
    ResizeWindow { direction: Direction, delta: i32 },
    Workspace { index: u8 },
    MoveToWorkspace { index: u8 },
    NextWorkspace,
    PrevWorkspace,
    ToggleOverview,
    ToggleLauncher,
    Screenshot { target: ScreenshotTarget },
    ReloadConfig,
    Quit,
}

impl View for Action {
    type V = ActionView;

    open spec fn view(&self) -> ActionView {
        match self {
            Action::Spawn { command } => ActionView::Spawn { command: command@ },
            Action::CloseWindow => ActionView::CloseWindow,
            Action::ToggleFullscreen => ActionView::ToggleFullscreen,
            Action::ToggleMaximized => ActionView::ToggleMaximized,
            Action::ToggleFloating => ActionView::ToggleFloating,
            Action::FocusDirection { direction } => ActionView::FocusDirection { direction: *direction },
            Action::FocusWindow { id } => ActionView::FocusWindow { id: *id },
            Action::MoveWindow { direction } => ActionView::MoveWindow { direction: *direction },
            Action::ResizeWindow { direction, delta } => ActionView::ResizeWindow {
                direction: *direction,
                delta: *delta,
            },
            Action::Workspace { index } => ActionView::Workspace { index: *index },
            Action::MoveToWorkspace { index } => ActionView::MoveToWorkspace { index: *index },
            Action::NextWorkspace => ActionView::NextWorkspace,
            Action::PrevWorkspace => ActionView::PrevWorkspace,
            Action::ToggleOverview => ActionView::ToggleOverview,
            Action::ToggleLauncher => ActionView::ToggleLauncher,
            Action::Screenshot { target } => ActionView::Screenshot { target: *target },
            Action::ReloadConfig => ActionView::ReloadConfig,
            Action::Quit => ActionView::Quit,
        }
    }
}

/// The word for a direction in the descriptions.
pub open spec fn direction_text(d: Direction) -> Seq<char> {
    match d {
        Direction::Left => "влево"@,
        Direction::Right => "вправо"@,
        Direction::Up => "вверх"@,
        Direction::Down => "вниз"@,
    }
}

pub fn direction_word(d: Direction) -> (r: &'static str)
    ensures
        r@ == direction_text(d),
{
    match d {
        Direction::Left => "влево",
        Direction::Right => "вправо",
        Direction::Up => "вверх",
        Direction::Down => "вниз",
    }
}

/// The short description of an action, for hints and settings.
pub open spec fn description_text(a: ActionView) -> Seq<char> {
    match a {
        ActionView::Spawn { command } => "Запустить "@ + command,
        ActionView::CloseWindow => "Закрыть окно"@,
        ActionView::ToggleFullscreen => "Полный экран"@,
        ActionView::ToggleMaximized => "Развернуть окно"@,
        ActionView::ToggleFloating => "Плавающее окно"@,
        ActionView::FocusDirection { direction } => "Фокус "@ + direction_text(direction),
        ActionView::FocusWindow { id } => "Фокус на окно "@ + decimal(id as nat),
        ActionView::MoveWindow { direction } => "Переместить окно "@ + direction_text(direction),
        ActionView::ResizeWindow { direction, delta } => "Размер "@ + direction_text(direction)
            + " на "@ + signed_decimal(delta as int) + " px"@,
        ActionView::Workspace { index } => "Рабочий стол "@ + decimal(index as nat),
        ActionView::MoveToWorkspace { index } => "Окно на рабочий стол "@ + decimal(index as nat),
        ActionView::NextWorkspace => "Следующий рабочий стол"@,
        ActionView::PrevWorkspace => "Предыдущий рабочий стол"@,
        ActionView::ToggleOverview => "Обзор окон"@,
        ActionView::ToggleLauncher => "Поиск приложений"@,
        ActionView::Screenshot { target } => match target {
            ScreenshotTarget::Screen => "Снимок экрана"@,
            ScreenshotTarget::Window => "Снимок окна"@,
            ScreenshotTarget::Region => "Снимок области"@,
        },
        ActionView::ReloadConfig => "Перечитать настройки"@,
        ActionView::Quit => "Завершить сеанс"@,
    }
}

fn text_of(parts: &str) -> (r: String)
    ensures
        r@ == parts@,
{
    parts.to_owned()
}

fn joined(a: &str, b: &str) -> (r: String)
    ensures
        r@ == a@ + b@,
{
    let mut s = a.to_owned();
    s.append(b);
    s
}

/// The state of the command splitter after some characters.
pub struct SplitState {
    pub args: Seq<Seq<char>>,
    pub current: Seq<char>,
    pub quote: Option<char>,
    pub has_current: bool,
}

/// One character through the splitter: inside quotes everything but the
/// closing quote belongs to the argument; outside, a quote opens (and makes
/// even an empty argument count), white space ends the argument, anything
/// else extends it.
pub open spec fn split_step(st: SplitState, c: char) -> SplitState {
    match st.quote {
        Some(q) => if c == q {
            SplitState { quote: None, ..st }
        } else {
            SplitState { current: st.current.push(c), ..st }
        },
        None => if c == '\'' || c == '"' {
            SplitState { quote: Some(c), has_current: true, ..st }
        } else if is_white_space(c) {
            if st.has_current {
                SplitState { args: st.args.push(st.current), current: Seq::empty(), quote: None, has_current: false }
            } else {
                st
            }
        } else {
            SplitState { current: st.current.push(c), has_current: true, ..st }
        },
    }
}

/// The splitter after all of `s`.
pub open spec fn split_run(s: Seq<char>) -> SplitState
    decreases s.len(),
{
    if s.len() == 0 {
        SplitState { args: Seq::empty(), current: Seq::empty(), quote: None, has_current: false }
    } else {
        split_step(split_run(s.drop_last()), s.last())
    }
}

/// The arguments of a command line with single and double quotes; `None`
/// when a quote is left open or there is no argument at all.
pub open spec fn split_command_spec(s: Seq<char>) -> Option<Seq<Seq<char>>> {
    let st = split_run(s);
    let args = if st.has_current { st.args.push(st.current) } else { st.args };
    if st.quote is Some || args.len() == 0 {
        None
    } else {
        Some(args)
    }
}

/// Splits a command line into arguments, honouring single and double quotes.
pub fn split_command(input: &str) -> (r: Option<Vec<String>>)
    ensures
        match r {
            Some(v) => split_command_spec(input@) == Some(Seq::new(v@.len(), |i: int| v@[i]@)),
            None => split_command_spec(input@) is None,
        },
{
    let chars = chars_of(input);
    let mut args: Vec<String> = Vec::new();
    let mut current = String::new();
    let mut quote: Option<char> = None;
    let mut has_current = false;
    let mut i: usize = 0;
    assert(Seq::new(args@.len(), |k: int| args@[k]@) =~= Seq::<Seq<char>>::empty());
    assert(chars@.take(0) =~= Seq::<char>::empty());
    while i < chars.len()
        invariant
            i <= chars@.len(),
            chars@ == input@,
            split_run(chars@.take(i as int)) == (SplitState {
                args: Seq::new(args@.len(), |k: int| args@[k]@),
                current: current@,
                quote: quote,
                has_current: has_current,
            }),
        decreases chars@.len() - i,
    {
        let c = chars[i];
        let ghost before = Seq::new(args@.len(), |k: int| args@[k]@);
        assert(chars@.take(i + 1).drop_last() =~= chars@.take(i as int));
        match quote {
            Some(q) => {
                if c == q {
                    quote = None;
                } else {
                    push_char(&mut current, c);
                }
            },
            None => {
                if c == '\'' || c == '"' {
                    quote = Some(c);
                    // Empty quotes are an argument too: `foo ""`.
                    has_current = true;
                } else if is_whitespace(c) {
                    if has_current {
                        let mut done = String::new();
                        std::mem::swap(&mut done, &mut current);
                        args.push(done);
                        has_current = false;
                        assert(Seq::new(args@.len(), |k: int| args@[k]@) =~= before.push(
                            split_run(chars@.take(i as int)).current,
                        ));
                    }
                } else {
                    push_char(&mut current, c);
                    has_current = true;
                }
            },
        }
        i = i + 1;
        assert(Seq::new(args@.len(), |k: int| args@[k]@) =~= split_run(chars@.take(i as int)).args);
    }
    assert(chars@.take(chars@.len() as int) =~= chars@);
    if quote.is_some() {
        return None;
    }
    if has_current {
        let ghost before = Seq::new(args@.len(), |k: int| args@[k]@);
        let ghost cur = current@;
        args.push(current);
        assert(Seq::new(args@.len(), |k: int| args@[k]@) =~= before.push(cur));
    }
    if args.len() == 0 {
        None
    } else {
        Some(args)
    }
}

impl Action {
    /// A short description for hints and settings.
    pub fn description(&self) -> (r: String)
        ensures
            r@ == description_text(self@),
    {
        match self {
            Action::Spawn { command } => joined("Запустить ", command.as_str()),
            Action::CloseWindow => text_of("Закрыть окно"),
            Action::ToggleFullscreen => text_of("Полный экран"),
            Action::ToggleMaximized => text_of("Развернуть окно"),
            Action::ToggleFloating => text_of("Плавающее окно"),
            Action::FocusDirection { direction } => joined("Фокус ", direction_word(*direction)),
            Action::FocusWindow { id } => {
                let n = decimal_string(*id);
                joined("Фокус на окно ", n.as_str())
            },
            Action::MoveWindow { direction } => joined(
                "Переместить окно ",
                direction_word(*direction),
            ),
            Action::ResizeWindow { direction, delta } => {
                let mut s = joined("Размер ", direction_word(*direction));
                s.append(" на ");
                let n = signed_decimal_string(*delta as i64);
                s.append(n.as_str());
                s.append(" px");
                s
            },
            Action::Workspace { index } => {
                let n = decimal_string(*index as u64);
                joined("Рабочий стол ", n.as_str())
            },
            Action::MoveToWorkspace { index } => {
                let n = decimal_string(*index as u64);
                joined("Окно на рабочий стол ", n.as_str())
            },
            Action::NextWorkspace => text_of("Следующий рабочий стол"),
            Action::PrevWorkspace => text_of("Предыдущий рабочий стол"),
            Action::ToggleOverview => text_of("Обзор окон"),
            Action::ToggleLauncher => text_of("Поиск приложений"),
            Action::Screenshot { target } => match target {
                ScreenshotTarget::Screen => text_of("Снимок экрана"),
                ScreenshotTarget::Window => text_of("Снимок окна"),
                ScreenshotTarget::Region => text_of("Снимок области"),
            },
            Action::ReloadConfig => text_of("Перечитать настройки"),
            Action::Quit => text_of("Завершить сеанс"),
        }
    }

    /// Splits a `Spawn` command into the program and its arguments.
    ///
    /// Understands quotes: `spawn = "foot -e 'htop -d 5'"` gives three
    /// arguments. `None` for other actions, an empty command or an open
    /// quote.
    pub fn command_line(&self) -> (r: Option<Vec<String>>)
        ensures
            match self@ {
                ActionView::Spawn { command } => match r {
                    Some(v) => split_command_spec(command) == Some(Seq::new(v@.len(), |i: int| v@[i]@)),
                    None => split_command_spec(command) is None,
                },
                _ => r is None,
            },
    {
        match self {
            Action::Spawn { command } => split_command(command.as_str()),
            _ => None,
        }
    }
}

} // verus!
