//! Keyboard shortcuts: parsing strings such as `Super+Shift+Q`.
//!
//! In the configuration a shortcut is a plain string, because a person edits
//! it. Parsing is lenient about case and synonyms (`Mod4` = `Super` = `Win`)
//! but not about typos in the key name: a silently ignored binding is the
//! worst kind of configuration error.

use vstd::prelude::*;

use crate::text::{
    ascii_lower, ascii_lower_seq, ascii_lowercase, chars_of, eq_ascii_case_insensitive,
    eq_ignore_ascii_case, has_prefix, is_white_space, is_whitespace, push_char,
    same_chars, split_chars, split_on, starts_with, string_from, to_ascii_lower, trim, trimmed,
    views, debug_quoted, quoted, lemma_split_append_plain, lemma_split_append_sep, lemma_split_pieces_lack_sep,
    lemma_trim_fixed, lemma_trim_shape,
};

verus! {

/// Why a shortcut could not be parsed.
#[derive(Debug, PartialEq)]
pub enum ShortcutParseError {
    Empty,
    UnknownModifier(String),
    UnknownKey(String),
    ModifiersOnly(String),
}

/// The mathematical picture of a parse error.
pub enum ShortcutParseErrorView {
    Empty,
    UnknownModifier(Seq<char>),
    UnknownKey(Seq<char>),
    ModifiersOnly(Seq<char>),
}

impl View for ShortcutParseError {
    type V = ShortcutParseErrorView;

    open spec fn view(&self) -> ShortcutParseErrorView {
        match self {
            ShortcutParseError::Empty => ShortcutParseErrorView::Empty,
            ShortcutParseError::UnknownModifier(s) => ShortcutParseErrorView::UnknownModifier(s@),
            ShortcutParseError::UnknownKey(s) => ShortcutParseErrorView::UnknownKey(s@),
            ShortcutParseError::ModifiersOnly(s) => ShortcutParseErrorView::ModifiersOnly(s@),
        }
    }
}

/// The message of a parse error; the offending text is shown as `{:?}`
/// writes it.
pub open spec fn parse_error_text(e: ShortcutParseErrorView) -> Seq<char> {
    match e {
        ShortcutParseErrorView::Empty => "пустое сочетание клавиш"@,
        ShortcutParseErrorView::UnknownModifier(m) => "неизвестный модификатор: "@ + debug_quoted(m),
        ShortcutParseErrorView::UnknownKey(k) => "неизвестная клавиша: "@ + debug_quoted(k),
        ShortcutParseErrorView::ModifiersOnly(t) => "в сочетании "@ + debug_quoted(t)
            + " нет самой клавиши, только модификаторы"@,
    }
}

impl ShortcutParseError {
    /// The message shown to the user.
    pub fn to_string(&self) -> (r: String)
        ensures
            r@ == parse_error_text(self@),
    {
        match self {
            ShortcutParseError::Empty => "пустое сочетание клавиш".to_owned(),
            ShortcutParseError::UnknownModifier(m) => {
                let mut out = "неизвестный модификатор: ".to_owned();
                let q = quoted(m.as_str());
                out.append(q.as_str());
                out
            },
            ShortcutParseError::UnknownKey(k) => {
                let mut out = "неизвестная клавиша: ".to_owned();
                let q = quoted(k.as_str());
                out.append(q.as_str());
                out
            },
            ShortcutParseError::ModifiersOnly(t) => {
                let mut out = "в сочетании ".to_owned();
                let q = quoted(t.as_str());
                out.append(q.as_str());
                out.append(" нет самой клавиши, только модификаторы");
                out
            },
        }
    }
}

/// The modifiers held down.
#[derive(Debug, Clone, Copy, PartialEq, Eq, Structural, Hash)]
pub struct Mods {
    pub logo: bool,
    pub ctrl: bool,
    pub alt: bool,
    pub shift: bool,
}

impl Default for Mods {
    fn default() -> (r: Mods)
        ensures
            r == Mods::no_mods(),
    {
        Mods::none()
    }
}

impl Mods {
    /// No modifier at all.
    pub open spec fn no_mods() -> Mods {
        Mods { logo: false, ctrl: false, alt: false, shift: false }
    }

    /// No modifier held down.
    pub fn none() -> (r: Mods)
        ensures
            r == Mods::no_mods(),
    {
        Mods { logo: false, ctrl: false, alt: false, shift: false }
    }

    /// Only the logo key held down.
    pub fn logo_only() -> (r: Mods)
        ensures
            r == (Mods { logo: true, ..Mods::no_mods() }),
    {
        Mods { logo: true, ctrl: false, alt: false, shift: false }
    }

    pub fn with_logo(self) -> (r: Self)
        ensures
            r == (Mods { logo: true, ..self }),
    {
        let mut m = self;
        m.logo = true;
        m
    }

    pub fn with_shift(self) -> (r: Self)
        ensures
            r == (Mods { shift: true, ..self }),
    {
        let mut m = self;
        m.shift = true;
        m
    }

    pub fn with_ctrl(self) -> (r: Self)
        ensures
            r == (Mods { ctrl: true, ..self }),
    {
        let mut m = self;
        m.ctrl = true;
        m
    }

    pub fn with_alt(self) -> (r: Self)
        ensures
            r == (Mods { alt: true, ..self }),
    {
        let mut m = self;
        m.alt = true;
        m
    }

    pub fn is_empty(self) -> (r: bool)
        ensures
            r == (self == Mods::no_mods()),
    {
        !self.logo && !self.ctrl && !self.alt && !self.shift
    }

    /// The modifiers with one more of the given kind held down.
    pub open spec fn with_kind(self, kind: ModKind) -> Mods {
        match kind {
            ModKind::Logo => Mods { logo: true, ..self },
            ModKind::Ctrl => Mods { ctrl: true, ..self },
            ModKind::Alt => Mods { alt: true, ..self },
            ModKind::Shift => Mods { shift: true, ..self },
        }
    }

    /// The canonical text of the modifiers: `Super+`, `Ctrl+`, `Alt+`,
    /// `Shift+`, in that fixed order, for those held down.
    pub open spec fn text(self) -> Seq<char> {
        (if self.logo { "Super+"@ } else { Seq::empty() }) + (if self.ctrl { "Ctrl+"@ } else {
            Seq::empty()
        }) + (if self.alt { "Alt+"@ } else { Seq::empty() }) + (if self.shift { "Shift+"@ } else {
            Seq::empty()
        })
    }

    /// The canonical text of the modifiers (what `Display` shows).
    ///
    /// The order is fixed so that the same combination always looks the
    /// same, in the configuration and in the hints of the interface.
    pub fn to_string(&self) -> (r: String)
        ensures
            r@ == self.text(),
    {
        let mut out = String::new();
        if self.logo {
            out.append("Super+");
        }
        if self.ctrl {
            out.append("Ctrl+");
        }
        if self.alt {
            out.append("Alt+");
        }
        if self.shift {
            out.append("Shift+");
        }
        assert(out@ =~= self.text());
        out
    }
}

/// Which modifier a word names.
#[derive(Debug, Clone, Copy, PartialEq, Eq, Structural)]
pub enum ModKind {
    Logo,
    Ctrl,
    Alt,
    Shift,
}

/// The modifier a word names, ignoring ASCII case, with its synonyms.
pub open spec fn modifier_kind(token: Seq<char>) -> Option<ModKind> {
    let l = ascii_lower_seq(token);
    if l == "super"@ || l == "mod4"@ || l == "win"@ || l == "logo"@ || l == "meta"@ {
        Some(ModKind::Logo)
    } else if l == "ctrl"@ || l == "control"@ || l == "mod5"@ {
        Some(ModKind::Ctrl)
    } else if l == "alt"@ || l == "mod1"@ {
        Some(ModKind::Alt)
    } else if l == "shift"@ {
        Some(ModKind::Shift)
    } else {
        None
    }
}

fn is_word(lower: &Vec<char>, word: &str) -> (r: bool)
    ensures
        r == (lower@ == word@),
{
    let w = chars_of(word);
    same_chars(lower, &w)
}

/// Recognises a modifier word.
fn modifier_of(token: &Vec<char>) -> (r: Option<ModKind>)
    ensures
        r == modifier_kind(token@),
{
    let l = ascii_lowercase(token);
    if is_word(&l, "super") || is_word(&l, "mod4") || is_word(&l, "win") || is_word(&l, "logo")
        || is_word(&l, "meta") {
        Some(ModKind::Logo)
    } else if is_word(&l, "ctrl") || is_word(&l, "control") || is_word(&l, "mod5") {
        Some(ModKind::Ctrl)
    } else if is_word(&l, "alt") || is_word(&l, "mod1") {
        Some(ModKind::Alt)
    } else if is_word(&l, "shift") {
        Some(ModKind::Shift)
    } else {
        None
    }
}

/// The key itself.
#[derive(Debug, Clone, PartialEq, Eq, Hash)]
pub enum Key {
    /// A printable character: letter, digit, sign.
    Char(char),
    /// A named key: `Return`, `F5`, `Left`, `XF86AudioRaiseVolume`.
    Named(String),
}

/// The mathematical picture of a key.
pub enum KeyView {
    Char(char),
    Named(Seq<char>),
}

impl View for Key {
    type V = KeyView;

    open spec fn view(&self) -> KeyView {
        match self {
            Key::Char(c) => KeyView::Char(*c),
            Key::Named(n) => KeyView::Named(n@),
        }
    }
}

/// The named keys the parser accepts. The list is closed on purpose: a typo
/// such as `Retrun` becomes a configuration error, not a silently dead
/// binding.
pub open spec fn named_keys() -> Seq<Seq<char>> {
    seq![
        "Return"@, "Enter"@, "Space"@, "Tab"@, "Escape"@, "BackSpace"@, "Delete"@, "Insert"@,
        "Home"@, "End"@, "PageUp"@, "PageDown"@, "Left"@, "Right"@, "Up"@, "Down"@, "Print"@,
        "Menu"@, "Pause"@, "CapsLock"@, "F1"@, "F2"@, "F3"@, "F4"@, "F5"@, "F6"@, "F7"@, "F8"@,
        "F9"@, "F10"@, "F11"@, "F12"@,
    ]
}

fn named_key_list() -> (r: Vec<&'static str>)
    ensures
        r@.len() == named_keys().len(),
        forall|i: int| 0 <= i < r@.len() ==> #[trigger] r@[i]@ == named_keys()[i],
{
    let r: Vec<&'static str> = vec![
        "Return", "Enter", "Space", "Tab", "Escape", "BackSpace", "Delete", "Insert", "Home",
        "End", "PageUp", "PageDown", "Left", "Right", "Up", "Down", "Print", "Menu", "Pause",
        "CapsLock", "F1", "F2", "F3", "F4", "F5", "F6", "F7", "F8", "F9", "F10", "F11", "F12",
    ];
    r
}

/// Index of the first named key equal to `token` when ASCII case is ignored.
pub open spec fn is_first_named(token: Seq<char>, i: int) -> bool {
    &&& 0 <= i < named_keys().len()
    &&& eq_ignore_ascii_case(named_keys()[i], token)
    &&& forall|j: int| 0 <= j < i ==> !eq_ignore_ascii_case(named_keys()[j], token)
}

/// How `Key::from_name` reads one token: multimedia keys (`XF86...`) as they
/// are, names from the closed list in their canonical spelling, and any single
/// non-blank character in ASCII lower case.
pub open spec fn key_of(token: Seq<char>) -> Result<KeyView, ShortcutParseErrorView> {
    if has_prefix(token, "XF86"@) {
        Ok(KeyView::Named(token))
    } else if exists|i: int| is_first_named(token, i) {
        Ok(KeyView::Named(named_keys()[choose|i: int| is_first_named(token, i)]))
    } else if token.len() == 1 && !is_white_space(token[0]) {
        Ok(KeyView::Char(ascii_lower(token[0])))
    } else {
        Err(ShortcutParseErrorView::UnknownKey(token))
    }
}

proof fn lemma_first_named_unique(token: Seq<char>, i: int)
    requires
        is_first_named(token, i),
    ensures
        (choose|j: int| is_first_named(token, j)) == i,
{
    let j = choose|j: int| is_first_named(token, j);
    assert(is_first_named(token, j));
    if j < i {
        assert(!eq_ignore_ascii_case(named_keys()[j], token));
    }
    if i < j {
        assert(!eq_ignore_ascii_case(named_keys()[i], token));
    }
}

fn parse_key(token: &Vec<char>) -> (r: Result<Key, ShortcutParseError>)
    ensures
        match r {
            Ok(k) => key_of(token@) == Ok::<KeyView, ShortcutParseErrorView>(k@),
            Err(e) => key_of(token@) == Err::<KeyView, ShortcutParseErrorView>(e@),
        },
{
    // Multimedia keys already come from xkb with the XF86 prefix.
    let prefix = chars_of("XF86");
    if starts_with(token, &prefix) {
        return Ok(Key::Named(string_from(token)));
    }
    let names = named_key_list();
    let mut i: usize = 0;
    while i < names.len()
        invariant
            i <= names@.len(),
            names@.len() == named_keys().len(),
            forall|j: int| 0 <= j < names@.len() ==> #[trigger] names@[j]@ == named_keys()[j],
            forall|j: int| 0 <= j < i ==> !eq_ignore_ascii_case(named_keys()[j], token@),
            !has_prefix(token@, "XF86"@),
        decreases names@.len() - i,
    {
        let name = chars_of(names[i]);
        if eq_ascii_case_insensitive(&name, token) {
            proof {
                assert(is_first_named(token@, i as int));
                lemma_first_named_unique(token@, i as int);
                assert(!has_prefix(token@, "XF86"@));
            }
            let k = Key::Named(names[i].to_owned());
            assert(k@ == KeyView::Named(named_keys()[i as int]));
            return Ok(k);
        }
        i = i + 1;
    }
    assert(!exists|j: int| is_first_named(token@, j));
    if token.len() == 1 && !is_whitespace(token[0]) {
        Ok(Key::Char(to_ascii_lower(token[0])))
    } else {
        Err(ShortcutParseError::UnknownKey(string_from(token)))
    }
}

impl Key {
    /// Reads a key name as xkb gives it.
    ///
    /// The compositor gets a string such as `"q"`, `"Return"` or
    /// `"XF86AudioMute"` from xkb and must match it against the bindings.
    pub fn from_name(name: &str) -> (r: Result<Self, ShortcutParseError>)
        ensures
            match r {
                Ok(k) => key_of(name@) == Ok::<KeyView, ShortcutParseErrorView>(k@),
                Err(e) => key_of(name@) == Err::<KeyView, ShortcutParseErrorView>(e@),
            },
    {
        let token = chars_of(name);
        parse_key(&token)
    }

    /// The xkb name of the key: what the compositor understands.
    pub fn xkb_name(&self) -> (r: String)
        ensures
            r@ == match self@ {
                KeyView::Char(c) => if c == ' ' { "space"@ } else { seq![c] },
                KeyView::Named(n) => n,
            },
    {
        match self {
            Key::Char(c) => {
                if *c == ' ' {
                    "space".to_owned()
                } else {
                    let mut s = String::new();
                    push_char(&mut s, *c);
                    assert(s@ =~= seq![*c]);
                    s
                }
            },
            Key::Named(name) => name.clone(),
        }
    }

    /// Are the two keys the same key.
    pub fn same_as(&self, other: &Key) -> (r: bool)
        ensures
            r == (self@ == other@),
    {
        match (self, other) {
            (Key::Char(a), Key::Char(b)) => *a == *b,
            (Key::Named(a), Key::Named(b)) => {
                let va = chars_of(a.as_str());
                let vb = chars_of(b.as_str());
                same_chars(&va, &vb)
            },
            _ => false,
        }
    }
}

/// A whole shortcut.
#[derive(Debug, Clone, PartialEq, Eq, Hash)]
pub struct Shortcut {
    pub mods: Mods,
    pub key: Key,
}

/// The mathematical picture of a shortcut.
pub struct ShortcutView {
    pub mods: Mods,
    pub key: KeyView,
}

impl View for Shortcut {
    type V = ShortcutView;

    open spec fn view(&self) -> ShortcutView {
        ShortcutView { mods: self.mods, key: self.key@ }
    }
}

/// `c` with ASCII letters turned to upper case (`char::to_ascii_uppercase`).
pub open spec fn ascii_upper(c: char) -> char {
    if 'a' <= c && c <= 'z' {
        ((c as u32) - 32) as char
    } else {
        c
    }
}

fn to_ascii_upper(c: char) -> (r: char)
    ensures
        r == ascii_upper(c),
{
    if 'a' <= c && c <= 'z' {
        let b: u8 = ((c as u32) - 32) as u8;
        b as char
    } else {
        c
    }
}

impl ShortcutView {
    /// The canonical text of a shortcut: the modifiers, then the key, with a
    /// character key in upper case.
    pub open spec fn text(self) -> Seq<char> {
        self.mods.text() + match self.key {
            KeyView::Char(c) => seq![ascii_upper(c)],
            KeyView::Named(n) => n,
        }
    }
}

/// The non-empty pieces, trimmed, in order.
pub open spec fn nonempty_trimmed(pieces: Seq<Seq<char>>) -> Seq<Seq<char>>
    decreases pieces.len(),
{
    if pieces.len() == 0 {
        Seq::empty()
    } else {
        let r = nonempty_trimmed(pieces.drop_last());
        let t = trim(pieces.last());
        if t.len() > 0 {
            r.push(t)
        } else {
            r
        }
    }
}

/// The first token that names no modifier.
pub open spec fn first_unknown_modifier(tokens: Seq<Seq<char>>) -> Option<int>
    decreases tokens.len(),
{
    if tokens.len() == 0 {
        None
    } else {
        match first_unknown_modifier(tokens.drop_last()) {
            Some(i) => Some(i),
            None => if modifier_kind(tokens.last()) is None {
                Some(tokens.len() - 1)
            } else {
                None
            },
        }
    }
}

/// The modifiers the tokens name (the ones that name one).
pub open spec fn mods_of(tokens: Seq<Seq<char>>) -> Mods
    decreases tokens.len(),
{
    if tokens.len() == 0 {
        Mods::no_mods()
    } else {
        match modifier_kind(tokens.last()) {
            Some(kind) => mods_of(tokens.drop_last()).with_kind(kind),
            None => mods_of(tokens.drop_last()),
        }
    }
}

/// What parsing a shortcut gives.
///
/// The text is trimmed; empty text is an error. It is split at `+`; the
/// pieces are trimmed and empty ones dropped. The last piece is the key, the
/// others modifiers: the first unknown modifier is an error (reported in
/// ASCII lower case), a key that is itself a modifier is an error, and so is
/// an unknown key.
pub open spec fn parse_shortcut(s: Seq<char>) -> Result<ShortcutView, ShortcutParseErrorView> {
    let t = trim(s);
    let tokens = nonempty_trimmed(split_on(t, '+'));
    if t.len() == 0 || tokens.len() == 0 {
        Err(ShortcutParseErrorView::Empty)
    } else {
        let key_token = tokens.last();
        let mod_tokens = tokens.drop_last();
        match first_unknown_modifier(mod_tokens) {
            Some(i) => Err(ShortcutParseErrorView::UnknownModifier(ascii_lower_seq(mod_tokens[i]))),
            None => if modifier_kind(key_token) is Some {
                Err(ShortcutParseErrorView::ModifiersOnly(t))
            } else {
                match key_of(key_token) {
                    Ok(k) => Ok(ShortcutView { mods: mods_of(mod_tokens), key: k }),
                    Err(e) => Err(e),
                }
            },
        }
    }
}

fn tokens_of(pieces: &Vec<Vec<char>>) -> (r: Vec<Vec<char>>)
    ensures
        views(r@) == nonempty_trimmed(views(pieces@)),
{
    let mut r: Vec<Vec<char>> = Vec::new();
    let mut i: usize = 0;
    while i < pieces.len()
        invariant
            i <= pieces@.len(),
            views(r@) == nonempty_trimmed(views(pieces@).take(i as int)),
        decreases pieces@.len() - i,
    {
        let ghost before = views(r@);
        let t = trimmed(&pieces[i]);
        assert(views(pieces@).take(i + 1).drop_last() =~= views(pieces@).take(i as int));
        assert(views(pieces@).take(i + 1).last() == pieces@[i as int]@);
        if t.len() > 0 {
            r.push(t);
            assert(views(r@) =~= before.push(t@));
        }
        i = i + 1;
    }
    assert(views(pieces@).take(pieces@.len() as int) =~= views(pieces@));
    r
}

impl Shortcut {
    pub fn new(mods: Mods, key: Key) -> (r: Self)
        ensures
            r.mods == mods,
            r.key == key,
    {
        Shortcut { mods, key }
    }

    /// Parses a shortcut such as `Super+Shift+Q`.
    pub fn parse(s: &str) -> (r: Result<Shortcut, ShortcutParseError>)
        ensures
            match r {
                Ok(sc) => parse_shortcut(s@) == Ok::<ShortcutView, ShortcutParseErrorView>(sc@),
                Err(e) => parse_shortcut(s@) == Err::<ShortcutView, ShortcutParseErrorView>(e@),
            },
    {
        let all = chars_of(s);
        let t = trimmed(&all);
        if t.len() == 0 {
            return Err(ShortcutParseError::Empty);
        }
        let pieces = split_chars(&t, '+');
        let tokens = tokens_of(&pieces);
        if tokens.len() == 0 {
            return Err(ShortcutParseError::Empty);
        }
        let last = tokens.len() - 1;
        let ghost toks = views(tokens@);
        let ghost mod_toks = toks.drop_last();
        let mut mods = Mods::none();
        let mut i: usize = 0;
        while i < last
            invariant
                i <= last,
                last == tokens@.len() - 1,
                toks == views(tokens@),
                mod_toks == toks.drop_last(),
                first_unknown_modifier(mod_toks.take(i as int)) is None,
                t@ == trim(s@),
                t@.len() > 0,
                toks == nonempty_trimmed(split_on(t@, '+')),
                mods == mods_of(mod_toks.take(i as int)),
            decreases last - i,
        {
            let ghost pre = mod_toks.take(i as int);
            assert(mod_toks.take(i + 1).drop_last() =~= pre);
            assert(mod_toks.take(i + 1).last() == tokens@[i as int]@);
            match modifier_of(&tokens[i]) {
                Some(kind) => {
                    mods = match kind {
                        ModKind::Logo => mods.with_logo(),
                        ModKind::Ctrl => mods.with_ctrl(),
                        ModKind::Alt => mods.with_alt(),
                        ModKind::Shift => mods.with_shift(),
                    };
                },
                None => {
                    let lower = ascii_lowercase(&tokens[i]);
                    proof {
                        lemma_first_unknown_extends(mod_toks, i as int);
                        assert(mod_toks[i as int] == tokens@[i as int]@);
                        assert(toks == nonempty_trimmed(split_on(trim(s@), '+')));
                    }
                    return Err(ShortcutParseError::UnknownModifier(string_from(&lower)));
                },
            }
            i = i + 1;
        }
        assert(mod_toks.take(last as int) =~= mod_toks);
        // A modifier in the key position makes the binding meaningless.
        if modifier_of(&tokens[last]).is_some() {
            return Err(ShortcutParseError::ModifiersOnly(string_from(&t)));
        }
        match parse_key(&tokens[last]) {
            Ok(key) => Ok(Shortcut { mods, key }),
            Err(e) => Err(e),
        }
    }

    /// The canonical text of the shortcut (what `Display` shows).
    pub fn to_string(&self) -> (r: String)
        ensures
            r@ == self@.text(),
    {
        let mut out = self.mods.to_string();
        match &self.key {
            Key::Char(c) => push_char(&mut out, to_ascii_upper(*c)),
            Key::Named(name) => out.append(name.as_str()),
        }
        assert(out@ =~= self@.text());
        out
    }

    /// Are the two shortcuts the same combination.
    pub fn same_as(&self, other: &Shortcut) -> (r: bool)
        ensures
            r == (self@ == other@),
    {
        self.mods == other.mods && self.key.same_as(&other.key)
    }
}

/// The first unknown modifier found at `i` is the first one of the whole list.
proof fn lemma_first_unknown_extends(toks: Seq<Seq<char>>, i: int)
    requires
        0 <= i < toks.len(),
        first_unknown_modifier(toks.take(i)) is None,
        modifier_kind(toks[i]) is None,
    ensures
        first_unknown_modifier(toks) == Some(i),
    decreases toks.len(),
{
    if toks.len() == i + 1 {
        assert(toks.drop_last() =~= toks.take(i));
    } else {
        assert(toks.drop_last().take(i) =~= toks.take(i));
        lemma_first_unknown_extends(toks.drop_last(), i);
    }
}

impl core::str::FromStr for Shortcut {
    type Err = ShortcutParseError;

    fn from_str(s: &str) -> (r: Result<Self, Self::Err>)
        ensures
            match r {
                Ok(sc) => parse_shortcut(s@) == Ok::<ShortcutView, ShortcutParseErrorView>(sc@),
                Err(e) => parse_shortcut(s@) == Err::<ShortcutView, ShortcutParseErrorView>(e@),
            },
    {
        Shortcut::parse(s)
    }
}

/// The modifier words of the canonical text, in its fixed order.
pub open spec fn mod_words(m: Mods) -> Seq<Seq<char>> {
    (if m.logo { seq!["Super"@] } else { Seq::empty() }) + (if m.ctrl { seq!["Ctrl"@] } else {
        Seq::empty()
    }) + (if m.alt { seq!["Alt"@] } else { Seq::empty() }) + (if m.shift { seq!["Shift"@] } else {
        Seq::empty()
    })
}

/// The text of a key in the canonical form.
pub open spec fn key_text(k: KeyView) -> Seq<char> {
    match k {
        KeyView::Char(c) => seq![ascii_upper(c)],
        KeyView::Named(n) => n,
    }
}

/// A token as the parser leaves it: not empty, without `+`, and neither
/// starting nor ending with white space.
pub open spec fn is_clean_token(t: Seq<char>) -> bool {
    &&& t.len() > 0
    &&& !t.contains('+')
    &&& !is_white_space(t[0])
    &&& !is_white_space(t.last())
}

proof fn lemma_split_word_plus(p: Seq<char>, ws: Seq<Seq<char>>, w: Seq<char>)
    requires
        split_on(p, '+') == ws.push(Seq::<char>::empty()),
        !w.contains('+'),
    ensures
        split_on(p + w.push('+'), '+') == ws.push(w).push(Seq::<char>::empty()),
{
    lemma_split_append_plain(p, w, '+');
    assert(ws.push(Seq::<char>::empty()).update(ws.len() as int, Seq::<char>::empty() + w) =~= ws.push(w));
    lemma_split_append_sep(p + w, '+');
    assert((p + w).push('+') =~= p + w.push('+'));
}

proof fn lemma_word_plus(word: Seq<char>, with_plus: Seq<char>, p: Seq<char>, ws: Seq<Seq<char>>, on: bool)
    requires
        with_plus == word.push('+'),
        !word.contains('+'),
        split_on(p, '+') == ws.push(Seq::<char>::empty()),
    ensures
        split_on(p + (if on { with_plus } else { Seq::empty() }), '+')
            == (ws + (if on { seq![word] } else { Seq::empty() })).push(Seq::<char>::empty()),
{
    if on {
        lemma_split_word_plus(p, ws, word);
        assert(ws + seq![word] =~= ws.push(word));
    } else {
        assert(p + Seq::<char>::empty() =~= p);
        assert(ws + Seq::<Seq<char>>::empty() =~= ws);
    }
}

/// The canonical text of the modifiers, followed by a key without `+`,
/// splits into the modifier words and the key.
proof fn lemma_split_mods(m: Mods, key: Seq<char>)
    requires
        !key.contains('+'),
    ensures
        split_on(m.text() + key, '+') == mod_words(m).push(key),
{
    reveal_strlit("Super+");
    reveal_strlit("Super");
    reveal_strlit("Ctrl+");
    reveal_strlit("Ctrl");
    reveal_strlit("Alt+");
    reveal_strlit("Alt");
    reveal_strlit("Shift+");
    reveal_strlit("Shift");
    assert("Super+"@ =~= "Super"@.push('+'));
    assert("Ctrl+"@ =~= "Ctrl"@.push('+'));
    assert("Alt+"@ =~= "Alt"@.push('+'));
    assert("Shift+"@ =~= "Shift"@.push('+'));
    let e = Seq::<char>::empty();
    let a = if m.logo { "Super+"@ } else { e };
    let b = if m.ctrl { "Ctrl+"@ } else { e };
    let c = if m.alt { "Alt+"@ } else { e };
    let d = if m.shift { "Shift+"@ } else { e };
    let wa: Seq<Seq<char>> = if m.logo { seq!["Super"@] } else { Seq::empty() };
    let wb: Seq<Seq<char>> = if m.ctrl { seq!["Ctrl"@] } else { Seq::empty() };
    let wc: Seq<Seq<char>> = if m.alt { seq!["Alt"@] } else { Seq::empty() };
    let wd: Seq<Seq<char>> = if m.shift { seq!["Shift"@] } else { Seq::empty() };
    assert(split_on(e, '+') =~= Seq::<Seq<char>>::empty().push(e));
    lemma_word_plus("Super"@, "Super+"@, e, Seq::empty(), m.logo);
    assert(e + a =~= a);
    assert(Seq::<Seq<char>>::empty() + wa =~= wa);
    lemma_word_plus("Ctrl"@, "Ctrl+"@, a, wa, m.ctrl);
    lemma_word_plus("Alt"@, "Alt+"@, a + b, wa + wb, m.alt);
    lemma_word_plus("Shift"@, "Shift+"@, a + b + c, wa + wb + wc, m.shift);
    assert(m.text() == a + b + c + d);
    assert(mod_words(m) == wa + wb + wc + wd);
    lemma_split_append_plain(a + b + c + d, key, '+');
    let ws = wa + wb + wc + wd;
    assert(ws.push(e).update(ws.len() as int, e + key) =~= ws.push(key));
}

/// Pieces that are all clean tokens pass through unchanged.
proof fn lemma_clean_tokens_pass(xs: Seq<Seq<char>>)
    requires
        forall|i: int| 0 <= i < xs.len() ==> is_clean_token(#[trigger] xs[i]),
    ensures
        nonempty_trimmed(xs) == xs,
    decreases xs.len(),
{
    if xs.len() > 0 {
        lemma_clean_tokens_pass(xs.drop_last());
        let l = xs.last();
        assert(is_clean_token(xs[xs.len() - 1]));
        lemma_trim_fixed(l);
        assert(xs.drop_last().push(l) =~= xs);
    }
}

/// The tokens of split text without `+` in its pieces are clean.
proof fn lemma_tokens_clean(pieces: Seq<Seq<char>>)
    requires
        forall|i: int| 0 <= i < pieces.len() ==> !(#[trigger] pieces[i]).contains('+'),
    ensures
        forall|i: int| 0 <= i < nonempty_trimmed(pieces).len() ==> is_clean_token(#[trigger] nonempty_trimmed(pieces)[i]),
    decreases pieces.len(),
{
    if pieces.len() > 0 {
        let rest = pieces.drop_last();
        assert forall|i: int| 0 <= i < rest.len() implies !(#[trigger] rest[i]).contains('+') by {
            assert(rest[i] == pieces[i]);
        }
        lemma_tokens_clean(rest);
        let l = pieces.last();
        assert(!l.contains('+')) by {
            assert(l == pieces[pieces.len() - 1]);
        }
        let t = trim(l);
        let (lo, hi) = lemma_trim_shape(l);
        if t.len() > 0 {
            assert(!t.contains('+')) by {
                if t.contains('+') {
                    let i = choose|i: int| 0 <= i < t.len() && t[i] == '+';
                    assert(l[lo + i] == '+');
                }
            }
            let r = nonempty_trimmed(rest);
            assert forall|i: int| 0 <= i < r.push(t).len() implies is_clean_token(#[trigger] r.push(t)[i]) by {
                if i < r.len() {
                    assert(r.push(t)[i] == r[i]);
                }
            }
        }
    }
}

/// The modifier words read back as the modifiers.
proof fn lemma_mod_words_read(m: Mods)
    ensures
        first_unknown_modifier(mod_words(m)) is None,
        mods_of(mod_words(m)) == m,
{
    reveal_strlit("Super");
    reveal_strlit("Ctrl");
    reveal_strlit("Alt");
    reveal_strlit("Shift");
    reveal_strlit("super");
    reveal_strlit("ctrl");
    reveal_strlit("alt");
    reveal_strlit("shift");
    reveal_strlit("mod4");
    reveal_strlit("win");
    reveal_strlit("logo");
    reveal_strlit("meta");
    reveal_strlit("control");
    reveal_strlit("mod5");
    reveal_strlit("mod1");
    assert(ascii_lower_seq("Super"@) =~= "super"@);
    assert(ascii_lower_seq("Ctrl"@) =~= "ctrl"@);
    assert(ascii_lower_seq("Alt"@) =~= "alt"@);
    assert(ascii_lower_seq("Shift"@) =~= "shift"@);
    assert("ctrl"@ != "mod4"@) by {
        assert("ctrl"@[0] != "mod4"@[0]);
    }
    assert("ctrl"@ != "logo"@) by {
        assert("ctrl"@[0] != "logo"@[0]);
    }
    assert("ctrl"@ != "meta"@) by {
        assert("ctrl"@[0] != "meta"@[0]);
    }
    assert("alt"@ != "win"@) by {
        assert("alt"@[0] != "win"@[0]);
    }
    assert("shift"@ != "super"@) by {
        assert("shift"@[1] != "super"@[1]);
    }
    assert(modifier_kind("Super"@) == Some(ModKind::Logo));
    assert(modifier_kind("Ctrl"@) == Some(ModKind::Ctrl));
    assert(modifier_kind("Alt"@) == Some(ModKind::Alt));
    assert(modifier_kind("Shift"@) == Some(ModKind::Shift));
    let e = Seq::<Seq<char>>::empty();
    let wa: Seq<Seq<char>> = if m.logo { seq!["Super"@] } else { e };
    let wb: Seq<Seq<char>> = if m.ctrl { seq!["Ctrl"@] } else { e };
    let wc: Seq<Seq<char>> = if m.alt { seq!["Alt"@] } else { e };
    let wd: Seq<Seq<char>> = if m.shift { seq!["Shift"@] } else { e };
    let m0 = Mods::no_mods();
    let m1 = if m.logo { m0.with_kind(ModKind::Logo) } else { m0 };
    let m2 = if m.ctrl { m1.with_kind(ModKind::Ctrl) } else { m1 };
    let m3 = if m.alt { m2.with_kind(ModKind::Alt) } else { m2 };
    let m4 = if m.shift { m3.with_kind(ModKind::Shift) } else { m3 };
    lemma_push_mod(e, "Super"@, m.logo);
    assert(e + wa =~= wa);
    lemma_push_mod(wa, "Ctrl"@, m.ctrl);
    lemma_push_mod(wa + wb, "Alt"@, m.alt);
    lemma_push_mod(wa + wb + wc, "Shift"@, m.shift);
    assert(mod_words(m) == wa + wb + wc + wd);
    assert(m4 == m);
}

proof fn lemma_push_mod(ws: Seq<Seq<char>>, w: Seq<char>, on: bool)
    requires
        modifier_kind(w) is Some,
    ensures
        first_unknown_modifier(ws + (if on { seq![w] } else { Seq::empty() })) == first_unknown_modifier(ws),
        mods_of(ws + (if on { seq![w] } else { Seq::empty() })) == if on {
            mods_of(ws).with_kind(modifier_kind(w)->0)
        } else {
            mods_of(ws)
        },
{
    if on {
        assert((ws + seq![w]).drop_last() =~= ws);
        assert((ws + seq![w]).last() == w);
    } else {
        assert(ws + Seq::<Seq<char>>::empty() =~= ws);
    }
}

/// ASCII case changes keep white space and `+` as they are.
proof fn lemma_ascii_case_keeps(x: char)
    ensures
        is_white_space(ascii_lower(x)) == is_white_space(x),
        (ascii_lower(x) == '+') == (x == '+'),
        is_white_space(ascii_upper(ascii_lower(x))) == is_white_space(x),
        (ascii_upper(ascii_lower(x)) == '+') == (x == '+'),
        ascii_lower(ascii_upper(ascii_lower(x))) == ascii_lower(x),
{
}

/// Two texts equal when ASCII case is ignored agree on being clean tokens
/// and on the modifier they name.
proof fn lemma_same_lower_clean(a: Seq<char>, b: Seq<char>)
    requires
        ascii_lower_seq(a) == ascii_lower_seq(b),
        is_clean_token(b),
    ensures
        is_clean_token(a),
        modifier_kind(a) == modifier_kind(b),
{
    assert(a.len() == ascii_lower_seq(a).len());
    assert(b.len() == ascii_lower_seq(b).len());
    assert forall|i: int| 0 <= i < a.len() implies a[i] != '+' by {
        lemma_ascii_case_keeps(a[i]);
        lemma_ascii_case_keeps(b[i]);
        assert(ascii_lower_seq(a)[i] == ascii_lower(a[i]));
        assert(ascii_lower_seq(b)[i] == ascii_lower(b[i]));
        assert(ascii_lower_seq(a)[i] == ascii_lower_seq(b)[i]);
        if b[i] == '+' {
            assert(b.contains('+'));
        }
    }
    assert(!a.contains('+'));
    assert(a.len() > 0);
    lemma_ascii_case_keeps(a[0]);
    lemma_ascii_case_keeps(b[0]);
    assert(ascii_lower_seq(a)[0] == ascii_lower(a[0]));
    assert(ascii_lower_seq(b)[0] == ascii_lower(b[0]));
    assert(!is_white_space(a[0]));
    let n = a.len() - 1;
    lemma_ascii_case_keeps(a[n]);
    lemma_ascii_case_keeps(b[n]);
    assert(ascii_lower_seq(a)[n] == ascii_lower(a[n]));
    assert(ascii_lower_seq(b)[n] == ascii_lower(b[n]));
    assert(b.last() == b[n]);
    assert(!is_white_space(a[n]));
}

/// The canonical text of a key read from a clean token reads back as the
/// same key, and is itself a clean token that names no modifier.
proof fn lemma_key_text_reads_back(token: Seq<char>, key: KeyView)
    requires
        is_clean_token(token),
        modifier_kind(token) is None,
        key_of(token) == Ok::<KeyView, ShortcutParseErrorView>(key),
    ensures
        is_clean_token(key_text(key)),
        modifier_kind(key_text(key)) is None,
        key_of(key_text(key)) == Ok::<KeyView, ShortcutParseErrorView>(key),
{
    reveal_strlit("XF86");
    let k = key_text(key);
    if has_prefix(token, "XF86"@) {
        assert(k == token);
    } else if exists|i: int| is_first_named(token, i) {
        let i = choose|i: int| is_first_named(token, i);
        assert(k == named_keys()[i]);
        assert(eq_ignore_ascii_case(named_keys()[i], token));
        lemma_same_lower_clean(k, token);
        assert(is_first_named(k, i));
        lemma_first_named_unique(k, i);
    } else {
        let x = token[0];
        let c = ascii_lower(x);
        assert(key == KeyView::Char(c));
        assert(k =~= seq![ascii_upper(c)]);
        lemma_ascii_case_keeps(x);
        assert(ascii_lower_seq(k) =~= ascii_lower_seq(token));
        lemma_same_lower_clean(k, token);
        assert(!has_prefix(k, "XF86"@));
        assert forall|j: int| !is_first_named(k, j) by {
            if is_first_named(k, j) {
                assert(is_first_named(token, j));
            }
        }
        assert(ascii_lower(k[0]) == c);
    }
}

/// Showing a shortcut and reading the text back gives the same shortcut, so
/// the canonical text is a faithful way to store a binding.
pub proof fn law_text_reparses(s: Seq<char>)
    requires
        parse_shortcut(s) is Ok,
    ensures
        parse_shortcut(parse_shortcut(s)->Ok_0.text()) == parse_shortcut(s),
{
    let v = parse_shortcut(s)->Ok_0;
    let t = trim(s);
    let pieces = split_on(t, '+');
    let tokens = nonempty_trimmed(pieces);
    let k0 = tokens.last();
    lemma_split_pieces_lack_sep(t, '+');
    lemma_tokens_clean(pieces);
    assert(is_clean_token(tokens[tokens.len() - 1]));
    lemma_key_text_reads_back(k0, v.key);
    let key = key_text(v.key);
    let m = v.mods;
    let text = m.text() + key;
    assert(v.text() == text);
    lemma_split_mods(m, key);
    reveal_strlit("Super");
    reveal_strlit("Ctrl");
    reveal_strlit("Alt");
    reveal_strlit("Shift");
    reveal_strlit("Super+");
    reveal_strlit("Ctrl+");
    reveal_strlit("Alt+");
    reveal_strlit("Shift+");
    // The whole text is already trimmed.
    assert(text.last() == key.last());
    assert(!is_white_space(text[0])) by {
        if m.logo {
            assert(text[0] == 'S');
        } else if m.ctrl {
            assert(text[0] == 'C');
        } else if m.alt {
            assert(text[0] == 'A');
        } else if m.shift {
            assert(text[0] == 'S');
        } else {
            assert(m.text() =~= Seq::<char>::empty());
            assert(text[0] == key[0]);
        }
    }
    lemma_trim_fixed(text);
    let ws = mod_words(m);
    let toks = ws.push(key);
    assert forall|i: int| 0 <= i < toks.len() implies is_clean_token(#[trigger] toks[i]) by {
        if i < ws.len() {
            let w = toks[i];
            assert(w == "Super"@ || w == "Ctrl"@ || w == "Alt"@ || w == "Shift"@);
        }
    }
    lemma_clean_tokens_pass(toks);
    lemma_mod_words_read(m);
    assert(toks.drop_last() =~= ws);
    assert(toks.last() == key);
}

} // verus!
