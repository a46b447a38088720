//! The control protocol of the compositor and the command line of its client.
//!
//! Messages travel as JSON, one per line; the encoding itself lives next to
//! the socket. What is here is the vocabulary of the protocol and the reading
//! of `hypectl` arguments into requests.

use vstd::prelude::*;

use crate::action::{Action, ActionView, Direction, ScreenshotTarget};
use crate::desktop::join_words;
use crate::fs::digits_value;
use crate::text::{chars_of, decimal, decimal_string, is_digit, push_char, same_chars, trim, trimmed};

verus! {

/// The kind of an event: subscribers filter the stream by it.
#[derive(Debug, Clone, Copy, PartialEq, Eq, Hash, Structural)]
pub enum EventKind {
    Window,
    Workspace,
    Output,
    Focus,
    Theme,
    /// Requests to the shell: open the application search, show the overview.
    Shell,
}

/// What the compositor asks the shell to show.
#[derive(Debug, Clone, Copy, PartialEq, Eq, Structural)]
pub enum ShellRequest {
    /// Show the application search, or close it when it is open.
    ToggleLauncher,
    /// Show the overview of the windows.
    ToggleOverview,
}

/// A window.
#[derive(Debug, Clone, PartialEq)]
pub struct WindowInfo {
    pub id: u64,
    pub title: String,
    /// The application identifier (`app_id` in xdg-shell).
    pub app_id: String,
    pub workspace: u8,
    pub x: i32,
    pub y: i32,
    pub width: u32,
    pub height: u32,
    pub focused: bool,
    pub floating: bool,
    pub fullscreen: bool,
}

/// A workspace.
#[derive(Debug, Clone, PartialEq)]
pub struct WorkspaceInfo {
    pub index: u8,
    pub name: String,
    pub windows: usize,
    pub active: bool,
    /// The monitor that shows this workspace.
    pub output: String,
}

/// A request to the compositor that carries no settings with it.
#[derive(Debug, Clone, PartialEq)]
pub enum Request {
    /// Is the compositor alive.
    Ping,
    /// The version of the compositor.
    Version,
    /// The whole state: monitors, workspaces, windows.
    GetState,
    /// The windows only.
    ListWindows,
    /// The workspaces only.
    ListWorkspaces,
    /// The current settings.
    GetConfig,
    /// Perform an action of the desktop, as a key binding would.
    Dispatch { action: Action },
    /// Subscribe to events; the connection then only receives.
    Subscribe { events: Vec<EventKind> },
}

/// The mathematical picture of a request.
pub enum RequestView {
    Ping,
    Version,
    GetState,
    ListWindows,
    ListWorkspaces,
    GetConfig,
    Dispatch { action: ActionView },
    Subscribe { events: Seq<EventKind> },
}

impl View for Request {
    type V = RequestView;

    open spec fn view(&self) -> RequestView {
        match self {
            Request::Ping => RequestView::Ping,
            Request::Version => RequestView::Version,
            Request::GetState => RequestView::GetState,
            Request::ListWindows => RequestView::ListWindows,
            Request::ListWorkspaces => RequestView::ListWorkspaces,
            Request::GetConfig => RequestView::GetConfig,
            Request::Dispatch { action } => RequestView::Dispatch { action: action@ },
            Request::Subscribe { events } => RequestView::Subscribe { events: events@ },
        }
    }
}

/// What the command line asked for.
#[derive(Debug, PartialEq)]
pub enum Command {
    /// An ordinary request to the compositor.
    Request(Request),
    /// A subscription to events.
    Subscribe(Vec<EventKind>),
    Help,
}

/// The mathematical picture of a command.
pub enum CommandView {
    Request(RequestView),
    Subscribe(Seq<EventKind>),
    Help,
}

impl View for Command {
    type V = CommandView;

    open spec fn view(&self) -> CommandView {
        match self {
            Command::Request(r) => CommandView::Request(r@),
            Command::Subscribe(ks) => CommandView::Subscribe(ks@),
            Command::Help => CommandView::Help,
        }
    }
}

/// The help text.
pub const HELP: &'static str = "\
hypectl — управление композитором HypeDE

Использование:
  hypectl ping                     проверить, что композитор отвечает
  hypectl version                  версия композитора
  hypectl state                    полное состояние среды (JSON)
  hypectl windows                  список окон
  hypectl workspaces               список рабочих столов
  hypectl config                   текущие настройки
  hypectl dispatch <действие>      выполнить действие среды
  hypectl subscribe [виды]         следить за событиями

Действия:
  spawn <команда>                  запустить программу
  close                            закрыть окно в фокусе
  fullscreen | maximize | float    переключить состояние окна
  focus <left|right|up|down>       перевести фокус
  move <left|right|up|down>        переставить окно
  workspace <номер>                перейти на рабочий стол
  move-to <номер>                  перенести окно на рабочий стол
  next | prev                      соседний рабочий стол
  launcher | overview              поиск приложений, обзор окон
  screenshot [screen|window|region] снимок экрана
  reload                           перечитать настройки
  quit                             завершить сеанс

Виды событий: window, workspace, output, focus, theme.
Без указания подписка идёт на все.

Примеры:
  hypectl dispatch workspace 3
  hypectl dispatch spawn foot -e htop
  hypectl subscribe window focus
";

/// A mistake on the command line, explained for a person.
#[derive(Debug, PartialEq)]
pub struct ParseError(pub String);

/// The texts of a list of strings.
pub open spec fn texts(args: Seq<String>) -> Seq<Seq<char>> {
    Seq::new(args.len(), |i: int| args[i]@)
}

/// Every character is a decimal digit.
pub open spec fn all_digits(s: Seq<char>) -> bool {
    forall|i: int| 0 <= i < s.len() ==> is_digit(#[trigger] s[i])
}

/// What `u8::from_str` gives: an optional `+`, then at least one decimal
/// digit, and a value that fits in a byte.
pub open spec fn u8_value(s: Seq<char>) -> Option<u8> {
    let body = if s.len() > 0 && s[0] == '+' { s.drop_first() } else { s };
    if body.len() > 0 && all_digits(body) && digits_value(body) <= 255 {
        Some(digits_value(body) as u8)
    } else {
        None
    }
}

/// The direction named by an argument.
pub open spec fn direction_spec(value: Option<Seq<char>>) -> Result<Direction, Seq<char>> {
    match value {
        Some(v) => if v == "left"@ || v == "l"@ {
            Ok(Direction::Left)
        } else if v == "right"@ || v == "r"@ {
            Ok(Direction::Right)
        } else if v == "up"@ || v == "u"@ {
            Ok(Direction::Up)
        } else if v == "down"@ || v == "d"@ {
            Ok(Direction::Down)
        } else {
            Err("«"@ + v + "» — ожидалось left, right, up или down"@)
        },
        None => Err("нужно направление: left, right, up или down"@),
    }
}

/// The English name of a direction, as the command line and the protocol
/// write it.
pub open spec fn direction_name(d: Direction) -> Seq<char> {
    match d {
        Direction::Left => "left"@,
        Direction::Right => "right"@,
        Direction::Up => "up"@,
        Direction::Down => "down"@,
    }
}

/// A direction argument names the direction it spells: the whole English
/// word and its first letter both give that direction, and nothing else does.
pub proof fn law_direction_words_name_their_direction(d: Direction, v: Seq<char>)
    ensures
        direction_spec(Some(direction_name(d))) == Ok::<Direction, Seq<char>>(d),
        direction_spec(Some(direction_name(d).take(1))) == Ok::<Direction, Seq<char>>(d),
        direction_spec(Some(v)) == Ok::<Direction, Seq<char>>(d) ==> v == direction_name(d) || v == direction_name(d).take(1),
{
    reveal_strlit("left");
    reveal_strlit("right");
    reveal_strlit("up");
    reveal_strlit("down");
    reveal_strlit("l");
    reveal_strlit("r");
    reveal_strlit("u");
    reveal_strlit("d");
    assert("left"@.take(1) =~= "l"@);
    assert("right"@.take(1) =~= "r"@);
    assert("up"@.take(1) =~= "u"@);
    assert("down"@.take(1) =~= "d"@);
    // Words of different lengths or first letters differ.
    assert("left"@[0] == 'l' && "right"@[0] == 'r' && "up"@[0] == 'u' && "down"@[0] == 'd');
    assert("l"@[0] == 'l' && "r"@[0] == 'r' && "u"@[0] == 'u' && "d"@[0] == 'd');
    assert("left"@ != "right"@ && "left"@ != "up"@ && "left"@ != "down"@);
    assert("right"@ != "up"@ && "right"@ != "down"@ && "up"@ != "down"@);
    assert("l"@ != "r"@ && "l"@ != "u"@ && "l"@ != "d"@ && "r"@ != "u"@ && "r"@ != "d"@ && "u"@ != "d"@);
    assert("left"@ != "l"@ && "left"@ != "r"@ && "left"@ != "u"@ && "left"@ != "d"@);
    assert("right"@ != "l"@ && "right"@ != "r"@ && "right"@ != "u"@ && "right"@ != "d"@);
    assert("up"@ != "l"@ && "up"@ != "r"@ && "up"@ != "u"@ && "up"@ != "d"@);
    assert("down"@ != "l"@ && "down"@ != "r"@ && "down"@ != "u"@ && "down"@ != "d"@);
}

/// The workspace number that follows an action called `what`.
pub open spec fn index_spec(rest: Seq<Seq<char>>, what: Seq<char>) -> Result<u8, Seq<char>> {
    if rest.len() == 0 {
        Err(what + ": нужен номер рабочего стола"@)
    } else {
        match u8_value(rest[0]) {
            Some(n) => Ok(n),
            None => Err("«"@ + rest[0] + "» не похоже на номер рабочего стола"@),
        }
    }
}

/// What a screenshot captures, by its argument.
pub open spec fn target_spec(value: Option<Seq<char>>) -> Result<ScreenshotTarget, Seq<char>> {
    match value {
        None => Ok(ScreenshotTarget::Screen),
        Some(v) => if v == "screen"@ {
            Ok(ScreenshotTarget::Screen)
        } else if v == "window"@ {
            Ok(ScreenshotTarget::Window)
        } else if v == "region"@ || v == "area"@ {
            Ok(ScreenshotTarget::Region)
        } else {
            Err("screenshot: «"@ + v + "» — ожидалось screen, window или region"@)
        },
    }
}

/// The first element, if there is one.
pub open spec fn first_of(s: Seq<Seq<char>>) -> Option<Seq<char>> {
    if s.len() > 0 {
        Some(s[0])
    } else {
        None
    }
}

/// The action that follows `dispatch`.
pub open spec fn action_spec(args: Seq<Seq<char>>) -> Result<ActionView, Seq<char>> {
    if args.len() == 0 {
        Err("после dispatch нужно указать действие"@)
    } else {
        let name = args[0];
        let rest = args.drop_first();
        if name == "spawn"@ {
            if rest.len() == 0 {
                Err("spawn: нужна команда для запуска"@)
            } else {
                Ok(ActionView::Spawn { command: join_words(rest) })
            }
        } else if name == "close"@ {
            Ok(ActionView::CloseWindow)
        } else if name == "fullscreen"@ {
            Ok(ActionView::ToggleFullscreen)
        } else if name == "maximize"@ {
            Ok(ActionView::ToggleMaximized)
        } else if name == "float"@ {
            Ok(ActionView::ToggleFloating)
        } else if name == "focus"@ {
            match direction_spec(first_of(rest)) {
                Ok(d) => Ok(ActionView::FocusDirection { direction: d }),
                Err(e) => Err(e),
            }
        } else if name == "move"@ {
            match direction_spec(first_of(rest)) {
                Ok(d) => Ok(ActionView::MoveWindow { direction: d }),
                Err(e) => Err(e),
            }
        } else if name == "workspace"@ {
            match index_spec(rest, "workspace"@) {
                Ok(n) => Ok(ActionView::Workspace { index: n }),
                Err(e) => Err(e),
            }
        } else if name == "move-to"@ {
            match index_spec(rest, "move-to"@) {
                Ok(n) => Ok(ActionView::MoveToWorkspace { index: n }),
                Err(e) => Err(e),
            }
        } else if name == "next"@ {
            Ok(ActionView::NextWorkspace)
        } else if name == "prev"@ {
            Ok(ActionView::PrevWorkspace)
        } else if name == "launcher"@ {
            Ok(ActionView::ToggleLauncher)
        } else if name == "overview"@ {
            Ok(ActionView::ToggleOverview)
        } else if name == "screenshot"@ {
            match target_spec(first_of(rest)) {
                Ok(t) => Ok(ActionView::Screenshot { target: t }),
                Err(e) => Err(e),
            }
        } else if name == "reload"@ {
            Ok(ActionView::ReloadConfig)
        } else if name == "quit"@ {
            Ok(ActionView::Quit)
        } else {
            Err("неизвестное действие «"@ + name + "». Список: hypectl help"@)
        }
    }
}

/// The kind of events named by an argument (the shell requests are not
/// offered on the command line).
pub open spec fn event_kind_of(a: Seq<char>) -> Option<EventKind> {
    if a == "window"@ {
        Some(EventKind::Window)
    } else if a == "workspace"@ {
        Some(EventKind::Workspace)
    } else if a == "output"@ {
        Some(EventKind::Output)
    } else if a == "focus"@ {
        Some(EventKind::Focus)
    } else if a == "theme"@ {
        Some(EventKind::Theme)
    } else {
        None
    }
}

/// The complaint about an unknown kind of events.
pub open spec fn unknown_kind_message(a: Seq<char>) -> Seq<char> {
    "неизвестный вид событий «"@ + a + "». Есть: window, workspace, output, focus, theme"@
}

/// The kinds named by the arguments, or the complaint about the first
/// argument that names none.
pub open spec fn kinds_spec(args: Seq<Seq<char>>) -> Result<Seq<EventKind>, Seq<char>>
    decreases args.len(),
{
    if args.len() == 0 {
        Ok(Seq::empty())
    } else {
        match kinds_spec(args.drop_last()) {
            Err(e) => Err(e),
            Ok(ks) => match event_kind_of(args.last()) {
                Some(k) => Ok(ks.push(k)),
                None => Err(unknown_kind_message(args.last())),
            },
        }
    }
}

/// The kinds a subscription without arguments takes: all but the shell
/// requests.
pub open spec fn every_kind() -> Seq<EventKind> {
    seq![EventKind::Window, EventKind::Workspace, EventKind::Output, EventKind::Focus, EventKind::Theme]
}

/// The kinds that follow `subscribe`.
pub open spec fn events_spec(args: Seq<Seq<char>>) -> Result<Seq<EventKind>, Seq<char>> {
    if args.len() == 0 {
        Ok(every_kind())
    } else {
        kinds_spec(args)
    }
}

/// How `hypectl` reads its arguments (without the program name).
pub open spec fn parse_spec(args: Seq<Seq<char>>) -> Result<CommandView, Seq<char>> {
    if args.len() == 0 {
        Ok(CommandView::Help)
    } else {
        let first = args[0];
        if first == "help"@ || first == "--help"@ || first == "-h"@ {
            Ok(CommandView::Help)
        } else if first == "ping"@ {
            Ok(CommandView::Request(RequestView::Ping))
        } else if first == "version"@ || first == "--version"@ {
            Ok(CommandView::Request(RequestView::Version))
        } else if first == "state"@ {
            Ok(CommandView::Request(RequestView::GetState))
        } else if first == "windows"@ {
            Ok(CommandView::Request(RequestView::ListWindows))
        } else if first == "workspaces"@ {
            Ok(CommandView::Request(RequestView::ListWorkspaces))
        } else if first == "config"@ {
            Ok(CommandView::Request(RequestView::GetConfig))
        } else if first == "dispatch"@ {
            match action_spec(args.drop_first()) {
                Ok(a) => Ok(CommandView::Request(RequestView::Dispatch { action: a })),
                Err(e) => Err(e),
            }
        } else if first == "subscribe"@ {
            match events_spec(args.drop_first()) {
                Ok(ks) => Ok(CommandView::Subscribe(ks)),
                Err(e) => Err(e),
            }
        } else {
            Err("неизвестная команда «"@ + first + "». Список: hypectl help"@)
        }
    }
}

/// Is the text exactly the word.
fn is_word(v: &Vec<char>, word: &str) -> (r: bool)
    ensures
        r == (v@ == word@),
{
    let w = chars_of(word);
    same_chars(v, &w)
}

/// `before`, then `middle`, then `after`.
fn framed(before: &str, middle: &str, after: &str) -> (r: String)
    ensures
        r@ == before@ + middle@ + after@,
{
    let mut r = String::new();
    r.append(before);
    r.append(middle);
    r.append(after);
    assert(r@ =~= before@ + middle@ + after@);
    r
}

/// A complaint that needs no argument.
fn complaint(text: &str) -> (r: ParseError)
    ensures
        r.0@ == text@,
{
    ParseError(text.to_owned())
}

/// If the digits `s[from..to]` all are digits, `digits_value` never shrinks
/// as more of them are read.
proof fn lemma_digits_value_grows(s: Seq<char>, k: int)
    requires
        0 <= k <= s.len(),
        all_digits(s),
    ensures
        digits_value(s.take(k)) <= digits_value(s),
    decreases s.len(),
{
    if k < s.len() {
        assert(all_digits(s.drop_last()));
        lemma_digits_value_grows(s.drop_last(), k);
        assert(s.drop_last().take(k) =~= s.take(k));
    } else {
        assert(s.take(k) =~= s);
    }
}

/// Reads a byte the way `u8::from_str` does.
pub fn parse_u8(s: &str) -> (r: Option<u8>)
    ensures
        r == u8_value(s@),
{
    let v = chars_of(s);
    let start: usize = if v.len() > 0 && v[0] == '+' { 1 } else { 0 };
    let ghost body = if s@.len() > 0 && s@[0] == '+' { s@.drop_first() } else { s@ };
    assert(body =~= v@.subrange(start as int, v@.len() as int));
    if start == v.len() {
        return None;
    }
    let mut value: u32 = 0;
    let mut i = start;
    while i < v.len()
        invariant
            start <= i <= v@.len(),
            v@ == s@,
            body == v@.subrange(start as int, v@.len() as int),
            body == (if s@.len() > 0 && s@[0] == '+' { s@.drop_first() } else { s@ }),
            body.len() > 0,
            all_digits(body.take(i - start)),
            value == digits_value(body.take(i - start)),
            value <= 255,
        decreases v@.len() - i,
    {
        let c = v[i];
        let ghost k = i - start;
        assert(body.take(k + 1).drop_last() =~= body.take(k));
        assert(body[k] == c);
        if !('0' <= c && c <= '9') {
            assert(!all_digits(body)) by {
                assert(!is_digit(body[k]));
            }
            return None;
        }
        value = value * 10 + ((c as u32) - 48);
        assert(value == digits_value(body.take(k + 1)));
        if value > 255 {
            assert(!(all_digits(body) && digits_value(body) <= 255)) by {
                if all_digits(body) {
                    lemma_digits_value_grows(body, k + 1);
                }
            }
            return None;
        }
        i = i + 1;
    }
    assert(body.take(body.len() as int) =~= body);
    Some(value as u8)
}

/// Reads a direction argument.
fn parse_direction(value: Option<&String>) -> (r: Result<Direction, ParseError>)
    ensures
        match r {
            Ok(d) => direction_spec(match value { Some(v) => Some(v@), None => None }) == Ok::<Direction, Seq<char>>(d),
            Err(e) => direction_spec(match value { Some(v) => Some(v@), None => None }) == Err::<Direction, Seq<char>>(e.0@),
        },
{
    match value {
        Some(v) => {
            let w = chars_of(v.as_str());
            if is_word(&w, "left") || is_word(&w, "l") {
                Ok(Direction::Left)
            } else if is_word(&w, "right") || is_word(&w, "r") {
                Ok(Direction::Right)
            } else if is_word(&w, "up") || is_word(&w, "u") {
                Ok(Direction::Up)
            } else if is_word(&w, "down") || is_word(&w, "d") {
                Ok(Direction::Down)
            } else {
                Err(ParseError(framed("«", v.as_str(), "» — ожидалось left, right, up или down")))
            }
        },
        None => Err(complaint("нужно направление: left, right, up или down")),
    }
}

/// Reads the workspace number at `args[at]`, for the action `what`.
fn parse_index(args: &[String], at: usize, what: &str) -> (r: Result<u8, ParseError>)
    requires
        at <= args@.len(),
    ensures
        match r {
            Ok(n) => index_spec(texts(args@).skip(at as int), what@) == Ok::<u8, Seq<char>>(n),
            Err(e) => index_spec(texts(args@).skip(at as int), what@) == Err::<u8, Seq<char>>(e.0@),
        },
{
    let ghost rest = texts(args@).skip(at as int);
    if at == args.len() {
        let mut m = what.to_owned();
        m.append(": нужен номер рабочего стола");
        return Err(ParseError(m));
    }
    assert(rest[0] == args@[at as int]@);
    match parse_u8(args[at].as_str()) {
        Some(n) => Ok(n),
        None => Err(ParseError(framed("«", args[at].as_str(), "» не похоже на номер рабочего стола"))),
    }
}

/// The arguments `args[from..]` joined with single spaces.
fn joined(args: &[String], from: usize) -> (r: String)
    requires
        from <= args@.len(),
    ensures
        r@ == join_words(texts(args@).skip(from as int)),
{
    let ghost all = texts(args@).skip(from as int);
    let mut out = String::new();
    let mut i = from;
    while i < args.len()
        invariant
            from <= i <= args@.len(),
            all == texts(args@).skip(from as int),
            out@ == join_words(all.take(i - from)),
        decreases args@.len() - i,
    {
        let ghost k = i - from;
        assert(all.take(k + 1).drop_last() =~= all.take(k));
        assert(all.take(k + 1).last() == args@[i as int]@);
        if i > from {
            push_char(&mut out, ' ');
        }
        out.append(args[i].as_str());
        proof {
            if k == 0 {
                assert(all.take(1) =~= seq![args@[i as int]@]);
            }
        }
        assert(out@ =~= join_words(all.take(k + 1)));
        i = i + 1;
    }
    assert(all.take(all.len() as int) =~= all);
    out
}

/// Reads the action that starts at `args[1]` (after `dispatch`).
fn parse_action(args: &[String]) -> (r: Result<Action, ParseError>)
    requires
        args@.len() >= 1,
    ensures
        match r {
            Ok(a) => action_spec(texts(args@).drop_first()) == Ok::<ActionView, Seq<char>>(a@),
            Err(e) => action_spec(texts(args@).drop_first()) == Err::<ActionView, Seq<char>>(e.0@),
        },
{
    let ghost t = texts(args@);
    let ghost tail = t.drop_first();
    if args.len() < 2 {
        return Err(complaint("после dispatch нужно указать действие"));
    }
    assert(tail[0] == args@[1]@);
    assert(tail.drop_first() =~= t.skip(2));
    let name = chars_of(args[1].as_str());
    let next: Option<&String> = if args.len() > 2 { Some(&args[2]) } else { None };
    assert(first_of(tail.drop_first()) == match next { Some(v) => Some(v@), None => None::<Seq<char>> });
    if is_word(&name, "spawn") {
        if args.len() == 2 {
            return Err(complaint("spawn: нужна команда для запуска"));
        }
        Ok(Action::Spawn { command: joined(args, 2) })
    } else if is_word(&name, "close") {
        Ok(Action::CloseWindow)
    } else if is_word(&name, "fullscreen") {
        Ok(Action::ToggleFullscreen)
    } else if is_word(&name, "maximize") {
        Ok(Action::ToggleMaximized)
    } else if is_word(&name, "float") {
        Ok(Action::ToggleFloating)
    } else if is_word(&name, "focus") {
        match parse_direction(next) {
            Ok(d) => Ok(Action::FocusDirection { direction: d }),
            Err(e) => Err(e),
        }
    } else if is_word(&name, "move") {
        match parse_direction(next) {
            Ok(d) => Ok(Action::MoveWindow { direction: d }),
            Err(e) => Err(e),
        }
    } else if is_word(&name, "workspace") {
        match parse_index(args, 2, "workspace") {
            Ok(n) => Ok(Action::Workspace { index: n }),
            Err(e) => Err(e),
        }
    } else if is_word(&name, "move-to") {
        match parse_index(args, 2, "move-to") {
            Ok(n) => Ok(Action::MoveToWorkspace { index: n }),
            Err(e) => Err(e),
        }
    } else if is_word(&name, "next") {
        Ok(Action::NextWorkspace)
    } else if is_word(&name, "prev") {
        Ok(Action::PrevWorkspace)
    } else if is_word(&name, "launcher") {
        Ok(Action::ToggleLauncher)
    } else if is_word(&name, "overview") {
        Ok(Action::ToggleOverview)
    } else if is_word(&name, "screenshot") {
        match next {
            None => Ok(Action::Screenshot { target: ScreenshotTarget::Screen }),
            Some(v) => {
                let w = chars_of(v.as_str());
                if is_word(&w, "screen") {
                    Ok(Action::Screenshot { target: ScreenshotTarget::Screen })
                } else if is_word(&w, "window") {
                    Ok(Action::Screenshot { target: ScreenshotTarget::Window })
                } else if is_word(&w, "region") || is_word(&w, "area") {
                    Ok(Action::Screenshot { target: ScreenshotTarget::Region })
                } else {
                    Err(ParseError(framed("screenshot: «", v.as_str(), "» — ожидалось screen, window или region")))
                }
            },
        }
    } else if is_word(&name, "reload") {
        Ok(Action::ReloadConfig)
    } else if is_word(&name, "quit") {
        Ok(Action::Quit)
    } else {
        Err(ParseError(framed("неизвестное действие «", args[1].as_str(), "». Список: hypectl help")))
    }
}

/// Once the kinds of a prefix fail, the whole list fails the same way.
proof fn lemma_kinds_error_sticks(args: Seq<Seq<char>>, k: int, e: Seq<char>)
    requires
        0 <= k <= args.len(),
        kinds_spec(args.take(k)) == Err::<Seq<EventKind>, Seq<char>>(e),
    ensures
        kinds_spec(args) == Err::<Seq<EventKind>, Seq<char>>(e),
    decreases args.len(),
{
    if k == args.len() {
        assert(args.take(k) =~= args);
    } else {
        assert(args.drop_last().take(k) =~= args.take(k));
        lemma_kinds_error_sticks(args.drop_last(), k, e);
    }
}

/// Reads the kinds of events that follow `subscribe` at `args[0]`.
fn parse_events(args: &[String]) -> (r: Result<Vec<EventKind>, ParseError>)
    requires
        args@.len() >= 1,
    ensures
        match r {
            Ok(ks) => events_spec(texts(args@).drop_first()) == Ok::<Seq<EventKind>, Seq<char>>(ks@),
            Err(e) => events_spec(texts(args@).drop_first()) == Err::<Seq<EventKind>, Seq<char>>(e.0@),
        },
{
    let ghost tail = texts(args@).drop_first();
    if args.len() == 1 {
        let all = vec![
            EventKind::Window,
            EventKind::Workspace,
            EventKind::Output,
            EventKind::Focus,
            EventKind::Theme,
        ];
        assert(all@ =~= every_kind());
        return Ok(all);
    }
    let mut kinds: Vec<EventKind> = Vec::new();
    let mut i: usize = 1;
    while i < args.len()
        invariant
            1 <= i <= args@.len(),
            tail == texts(args@).drop_first(),
            kinds_spec(tail.take(i - 1)) == Ok::<Seq<EventKind>, Seq<char>>(kinds@),
        decreases args@.len() - i,
    {
        let ghost k = i - 1;
        assert(tail.take(k + 1).drop_last() =~= tail.take(k));
        assert(tail.take(k + 1).last() == args@[i as int]@);
        let w = chars_of(args[i].as_str());
        if is_word(&w, "window") {
            kinds.push(EventKind::Window);
        } else if is_word(&w, "workspace") {
            kinds.push(EventKind::Workspace);
        } else if is_word(&w, "output") {
            kinds.push(EventKind::Output);
        } else if is_word(&w, "focus") {
            kinds.push(EventKind::Focus);
        } else if is_word(&w, "theme") {
            kinds.push(EventKind::Theme);
        } else {
            let m = framed(
                "неизвестный вид событий «",
                args[i].as_str(),
                "». Есть: window, workspace, output, focus, theme",
            );
            proof {
                lemma_kinds_error_sticks(tail, k + 1, m@);
            }
            return Err(ParseError(m));
        }
        i = i + 1;
    }
    assert(tail.take(tail.len() as int) =~= tail);
    Ok(kinds)
}

/// Reads the arguments of `hypectl` (without the program name).
pub fn parse(args: &[String]) -> (r: Result<Command, ParseError>)
    ensures
        match r {
            Ok(c) => parse_spec(texts(args@)) == Ok::<CommandView, Seq<char>>(c@),
            Err(e) => parse_spec(texts(args@)) == Err::<CommandView, Seq<char>>(e.0@),
        },
{
    if args.len() == 0 {
        return Ok(Command::Help);
    }
    let ghost t = texts(args@);
    assert(t[0] == args@[0]@);
    let first = chars_of(args[0].as_str());
    if is_word(&first, "help") || is_word(&first, "--help") || is_word(&first, "-h") {
        Ok(Command::Help)
    } else if is_word(&first, "ping") {
        Ok(Command::Request(Request::Ping))
    } else if is_word(&first, "version") || is_word(&first, "--version") {
        Ok(Command::Request(Request::Version))
    } else if is_word(&first, "state") {
        Ok(Command::Request(Request::GetState))
    } else if is_word(&first, "windows") {
        Ok(Command::Request(Request::ListWindows))
    } else if is_word(&first, "workspaces") {
        Ok(Command::Request(Request::ListWorkspaces))
    } else if is_word(&first, "config") {
        Ok(Command::Request(Request::GetConfig))
    } else if is_word(&first, "dispatch") {
        match parse_action(args) {
            Ok(action) => Ok(Command::Request(Request::Dispatch { action })),
            Err(e) => Err(e),
        }
    } else if is_word(&first, "subscribe") {
        match parse_events(args) {
            Ok(kinds) => Ok(Command::Subscribe(kinds)),
            Err(e) => Err(e),
        }
    } else {
        Err(ParseError(framed("неизвестная команда «", args[0].as_str(), "». Список: hypectl help")))
    }
}


/// `n` spaces.
pub open spec fn spaces(n: nat) -> Seq<char> {
    Seq::new(n, |_i: int| ' ')
}

/// The text right-aligned in `width` characters, as `{:>width}` writes it:
/// spaces before it where it is shorter.
pub open spec fn pad_left(s: Seq<char>, width: nat) -> Seq<char> {
    if s.len() < width {
        spaces((width - s.len()) as nat) + s
    } else {
        s
    }
}

/// The text left-aligned in `width` characters, as `{:<width}` writes it:
/// spaces after it where it is shorter.
pub open spec fn pad_right(s: Seq<char>, width: nat) -> Seq<char> {
    if s.len() < width {
        s + spaces((width - s.len()) as nat)
    } else {
        s
    }
}

/// The lines joined with line breaks between them.
pub open spec fn joined_lines(lines: Seq<Seq<char>>) -> Seq<char>
    decreases lines.len(),
{
    if lines.len() == 0 {
        Seq::empty()
    } else if lines.len() == 1 {
        lines[0]
    } else {
        joined_lines(lines.drop_last()) + seq!['\n'] + lines.last()
    }
}

/// The mark before the focused window or the active workspace.
pub open spec fn marker(on: bool) -> Seq<char> {
    if on { "▸ "@ } else { "  "@ }
}

/// How `hypectl windows` shows a window: its number, a mark if it has the
/// focus, the application, the size, the workspace and the title.
pub open spec fn window_line(w: WindowInfo) -> Seq<char> {
    pad_left(decimal(w.id as nat), 4) + "  "@ + marker(w.focused) + pad_right(w.app_id@, 16) + " "@
        + pad_left(decimal(w.width as nat), 4) + "×"@ + pad_right(decimal(w.height as nat), 4) + " стол "@
        + decimal(w.workspace as nat) + "  "@ + w.title@
}

/// How `hypectl workspaces` shows a workspace: a mark if it is the active
/// one, its name and how many windows it holds.
pub open spec fn workspace_line(w: WorkspaceInfo) -> Seq<char> {
    marker(w.active) + w.name@ + "  окон: "@ + decimal(w.windows as nat)
}

/// What `hypectl windows` prints for the windows.
pub open spec fn window_list(ws: Seq<WindowInfo>) -> Seq<char> {
    if ws.len() == 0 {
        "окон нет"@
    } else {
        joined_lines(Seq::new(ws.len(), |i: int| window_line(ws[i])))
    }
}

/// What `hypectl workspaces` prints for the workspaces.
pub open spec fn workspace_list(ws: Seq<WorkspaceInfo>) -> Seq<char> {
    joined_lines(Seq::new(ws.len(), |i: int| workspace_line(ws[i])))
}

/// Appends `s` aligned in `width` characters: after spaces where
/// `right_align`, before them otherwise.
fn push_padded(out: &mut String, s: &str, width: usize, right_align: bool)
    ensures
        final(out)@ == old(out)@ + if right_align { pad_left(s@, width as nat) } else { pad_right(s@, width as nat) },
{
    let n: usize = chars_of(s).len();
    let mut fill = String::new();
    let mut k: usize = n;
    while k < width
        invariant
            n == s@.len(),
            n <= k <= width || (k == n && n >= width),
            fill@ == spaces((k - n) as nat),
        decreases width - k,
    {
        push_char(&mut fill, ' ');
        k = k + 1;
        assert(fill@ =~= spaces((k - n) as nat));
    }
    if n >= width {
        assert(fill@ =~= Seq::<char>::empty());
    }
    if right_align {
        out.append(fill.as_str());
        out.append(s);
    } else {
        out.append(s);
        out.append(fill.as_str());
    }
    proof {
        if n >= width {
            assert(s@ + fill@ =~= s@);
            assert(fill@ + s@ =~= s@);
        }
    }
    assert(final(out)@ =~= old(out)@ + if right_align { pad_left(s@, width as nat) } else { pad_right(s@, width as nat) });
}

fn window_line_text(w: &WindowInfo) -> (r: String)
    ensures
        r@ == window_line(*w),
{
    let mut out = String::new();
    let id = decimal_string(w.id);
    push_padded(&mut out, id.as_str(), 4, true);
    out.append("  ");
    if w.focused {
        out.append("▸ ");
    } else {
        out.append("  ");
    }
    push_padded(&mut out, w.app_id.as_str(), 16, false);
    out.append(" ");
    let width = decimal_string(w.width as u64);
    push_padded(&mut out, width.as_str(), 4, true);
    out.append("×");
    let height = decimal_string(w.height as u64);
    push_padded(&mut out, height.as_str(), 4, false);
    out.append(" стол ");
    let workspace = decimal_string(w.workspace as u64);
    out.append(workspace.as_str());
    out.append("  ");
    out.append(w.title.as_str());
    assert(out@ =~= window_line(*w));
    out
}

fn workspace_line_text(w: &WorkspaceInfo) -> (r: String)
    ensures
        r@ == workspace_line(*w),
{
    let mut out = String::new();
    if w.active {
        out.append("▸ ");
    } else {
        out.append("  ");
    }
    out.append(w.name.as_str());
    out.append("  окон: ");
    let count = decimal_string(w.windows as u64);
    out.append(count.as_str());
    assert(out@ =~= workspace_line(*w));
    out
}

/// How `hypectl windows` shows the windows: a line for each, or a note that
/// there are none.
pub fn window_list_text(windows: &[WindowInfo]) -> (r: String)
    ensures
        r@ == window_list(windows@),
{
    if windows.len() == 0 {
        return "окон нет".to_owned();
    }
    let ghost lines = Seq::new(windows@.len(), |i: int| window_line(windows@[i]));
    let mut out = window_line_text(&windows[0]);
    assert(lines.take(1).drop_last().len() == 0);
    assert(out@ == joined_lines(lines.take(1)));
    let mut i: usize = 1;
    while i < windows.len()
        invariant
            1 <= i <= windows@.len(),
            lines == Seq::new(windows@.len(), |i: int| window_line(windows@[i])),
            out@ == joined_lines(lines.take(i as int)),
        decreases windows@.len() - i,
    {
        let line = window_line_text(&windows[i]);
        push_char(&mut out, '\n');
        out.append(line.as_str());
        assert(lines.take(i + 1).drop_last() =~= lines.take(i as int));
        assert(out@ =~= joined_lines(lines.take(i + 1)));
        i = i + 1;
    }
    assert(lines.take(windows@.len() as int) =~= lines);
    out
}

/// How `hypectl workspaces` shows the workspaces: a line for each.
pub fn workspace_list_text(workspaces: &[WorkspaceInfo]) -> (r: String)
    ensures
        r@ == workspace_list(workspaces@),
{
    let ghost lines = Seq::new(workspaces@.len(), |i: int| workspace_line(workspaces@[i]));
    if workspaces.len() == 0 {
        assert(lines.len() == 0);
        return String::new();
    }
    let mut out = workspace_line_text(&workspaces[0]);
    assert(lines.take(1).drop_last().len() == 0);
    assert(out@ == joined_lines(lines.take(1)));
    let mut i: usize = 1;
    while i < workspaces.len()
        invariant
            1 <= i <= workspaces@.len(),
            lines == Seq::new(workspaces@.len(), |i: int| workspace_line(workspaces@[i])),
            out@ == joined_lines(lines.take(i as int)),
        decreases workspaces@.len() - i,
    {
        let line = workspace_line_text(&workspaces[i]);
        push_char(&mut out, '\n');
        out.append(line.as_str());
        assert(lines.take(i + 1).drop_last() =~= lines.take(i as int));
        assert(out@ =~= joined_lines(lines.take(i + 1)));
        i = i + 1;
    }
    assert(lines.take(workspaces@.len() as int) =~= lines);
    out
}


/// A message on the wire: its JSON text and a line break after it, so that
/// each message is one line.
pub fn frame_message(json: Vec<u8>) -> (r: Vec<u8>)
    ensures
        r@ == json@.push(10u8),
{
    let mut line = json;
    line.push(10u8);
    line
}

/// A line that holds only white space carries no message and is passed
/// over, so that a stray empty line does not break the reading of a stream.
pub fn is_blank_line(line: &str) -> (r: bool)
    ensures
        r == (trim(line@).len() == 0),
{
    let chars = chars_of(line);
    trimmed(&chars).len() == 0
}

} // verus!
