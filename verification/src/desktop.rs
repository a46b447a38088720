//! Reading `.desktop` files for the application search.
//!
//! The format is the XDG one; the part read here is what the launcher needs:
//! name, command, icon and the "do not show" markers.

use vstd::prelude::*;

use crate::text::{
    bytes_less, bytes_lt, contains_seq, has_infix, has_prefix, lemma_bytes_lt_asym,
    lemma_bytes_lt_total, lemma_bytes_lt_trans, lowercase, starts_with, to_lowercase, utf8_len,
    chars_of, eq_ascii_case_insensitive, eq_ignore_ascii_case, is_white_space, is_whitespace,
    lines, lines_of, push_char, same_chars, split_chars, split_on, split_once,
    split_once_at, string_from, trim, trimmed, views,
};

use crate::ipc::texts;
use crate::path_ops::{extension_of, file_name_of, path_extension, path_file_name};

verus! {

/// An application found on the system.
#[derive(Debug, Clone, PartialEq)]
pub struct DesktopApp {
    pub name: String,
    /// The launch command (`Exec=`), with field codes such as `%U` already
    /// removed.
    pub command: String,
    pub icon: String,
    pub comment: String,
    /// Keywords for the search.
    pub keywords: Vec<String>,
    /// Must it run in a terminal.
    pub terminal: bool,
    pub path: String,
}

/// The mathematical picture of an application entry.
pub struct DesktopAppView {
    pub name: Seq<char>,
    pub command: Seq<char>,
    pub icon: Seq<char>,
    pub comment: Seq<char>,
    pub keywords: Seq<Seq<char>>,
    pub terminal: bool,
    pub path: Seq<char>,
}

impl View for DesktopApp {
    type V = DesktopAppView;

    open spec fn view(&self) -> DesktopAppView {
        DesktopAppView {
            name: self.name@,
            command: self.command@,
            icon: self.icon@,
            comment: self.comment@,
            keywords: Seq::new(self.keywords@.len(), |i: int| self.keywords@[i]@),
            terminal: self.terminal,
            path: self.path@,
        }
    }
}

/// Key-value pairs collected so far, and whether the current section is the
/// main one.
pub struct EntryScan {
    pub pairs: Seq<(Seq<char>, Seq<char>)>,
    pub in_main: bool,
}

/// One line of a desktop file: blank lines and comments are skipped, a
/// section header decides whether the following lines count (only
/// `[Desktop Entry]` does), and in the main section `key=value` adds a pair,
/// both sides trimmed.
pub open spec fn scan_line(st: EntryScan, raw: Seq<char>) -> EntryScan {
    let line = trim(raw);
    if line.len() == 0 || line[0] == '#' {
        st
    } else if line[0] == '[' {
        EntryScan { in_main: line == "[Desktop Entry]"@, ..st }
    } else if !st.in_main {
        st
    } else {
        match split_once(line, '=') {
            Some((k, v)) => EntryScan { pairs: st.pairs.push((trim(k), trim(v))), ..st },
            None => st,
        }
    }
}

/// The scan after the given lines.
pub open spec fn scan_lines(ls: Seq<Seq<char>>) -> EntryScan
    decreases ls.len(),
{
    if ls.len() == 0 {
        EntryScan { pairs: Seq::empty(), in_main: false }
    } else {
        scan_line(scan_lines(ls.drop_last()), ls.last())
    }
}

/// The value stored for `key`: a later line overrides an earlier one.
pub open spec fn lookup(pairs: Seq<(Seq<char>, Seq<char>)>, key: Seq<char>) -> Option<Seq<char>>
    decreases pairs.len(),
{
    if pairs.len() == 0 {
        None
    } else if pairs.last().0 == key {
        Some(pairs.last().1)
    } else {
        lookup(pairs.drop_last(), key)
    }
}

/// The localised value `key[locale]`, falling back to `key`.
pub open spec fn localised(pairs: Seq<(Seq<char>, Seq<char>)>, key: Seq<char>, locale: Seq<char>) -> Option<Seq<char>> {
    match lookup(pairs, key + "["@ + locale + "]"@) {
        Some(v) => Some(v),
        None => lookup(pairs, key),
    }
}

/// A boolean value of the format: `true`, in any ASCII case.
pub open spec fn is_true_value(v: Option<Seq<char>>) -> bool {
    match v {
        Some(s) => eq_ignore_ascii_case(s, "true"@),
        None => false,
    }
}

/// The non-empty pieces, in order.
pub open spec fn nonempty_pieces(pieces: Seq<Seq<char>>) -> Seq<Seq<char>>
    decreases pieces.len(),
{
    if pieces.len() == 0 {
        Seq::empty()
    } else {
        let r = nonempty_pieces(pieces.drop_last());
        if pieces.last().len() > 0 {
            r.push(pieces.last())
        } else {
            r
        }
    }
}

/// The command with field codes removed: `%%` stands for a percent sign,
/// `%` and any other character (or `%` at the very end) disappear.
pub open spec fn strip_field_codes(s: Seq<char>) -> Seq<char>
    decreases s.len(),
{
    if s.len() == 0 {
        Seq::empty()
    } else if s[0] != '%' {
        seq![s[0]] + strip_field_codes(s.drop_first())
    } else if s.len() == 1 {
        Seq::empty()
    } else if s[1] == '%' {
        seq!['%'] + strip_field_codes(s.skip(2))
    } else {
        strip_field_codes(s.skip(2))
    }
}

/// The words of a text: the maximal runs without white space
/// (`str::split_whitespace`), as (finished words, word being read).
pub open spec fn words_run(s: Seq<char>) -> (Seq<Seq<char>>, Seq<char>)
    decreases s.len(),
{
    if s.len() == 0 {
        (Seq::empty(), Seq::empty())
    } else {
        let (done, cur) = words_run(s.drop_last());
        if is_white_space(s.last()) {
            if cur.len() > 0 {
                (done.push(cur), Seq::empty())
            } else {
                (done, cur)
            }
        } else {
            (done, cur.push(s.last()))
        }
    }
}

/// The words of a text.
pub open spec fn words(s: Seq<char>) -> Seq<Seq<char>> {
    let (done, cur) = words_run(s);
    if cur.len() > 0 {
        done.push(cur)
    } else {
        done
    }
}

/// The words joined with single spaces.
pub open spec fn join_words(ws: Seq<Seq<char>>) -> Seq<char>
    decreases ws.len(),
{
    if ws.len() == 0 {
        Seq::empty()
    } else if ws.len() == 1 {
        ws[0]
    } else {
        join_words(ws.drop_last()) + seq![' '] + ws.last()
    }
}

/// What `clean_exec` gives: field codes removed, then the words joined with
/// single spaces.
pub open spec fn clean_exec_spec(s: Seq<char>) -> Seq<char> {
    join_words(words(strip_field_codes(s)))
}

/// What `parse_desktop_entry` gives.
///
/// Nothing for entries that are not applications, are marked `NoDisplay` or
/// `Hidden`, or lack a name or a command: showing them in the launcher makes
/// no sense.
pub open spec fn desktop_entry(text: Seq<char>, path: Seq<char>, locale: Seq<char>) -> Option<DesktopAppView> {
    let pairs = scan_lines(lines(text)).pairs;
    if lookup(pairs, "Type"@) != Some("Application"@) {
        None
    } else if is_true_value(lookup(pairs, "NoDisplay"@)) || is_true_value(lookup(pairs, "Hidden"@)) {
        None
    } else {
        match (localised(pairs, "Name"@, locale), lookup(pairs, "Exec"@)) {
            (Some(name), Some(run)) => if name.len() == 0 || run.len() == 0 {
                None
            } else {
                Some(
                    DesktopAppView {
                        name,
                        command: clean_exec_spec(run),
                        icon: match lookup(pairs, "Icon"@) {
                            Some(i) => i,
                            None => "application-x-executable"@,
                        },
                        comment: match localised(pairs, "Comment"@, locale) {
                            Some(c) => c,
                            None => Seq::empty(),
                        },
                        keywords: nonempty_pieces(
                            split_on(
                                match localised(pairs, "Keywords"@, locale) {
                                    Some(k) => k,
                                    None => Seq::empty(),
                                },
                                ';',
                            ),
                        ),
                        terminal: is_true_value(lookup(pairs, "Terminal"@)),
                        path,
                    },
                )
            },
            _ => None,
        }
    }
}

/// The name, the comment and the keywords of an application come in the
/// reader's language where the file has them so (`Key[locale]`), and from
/// the plain key only where it does not.
pub proof fn law_localised_texts_win(text: Seq<char>, path: Seq<char>, locale: Seq<char>)
    requires
        desktop_entry(text, path, locale) is Some,
    ensures
        ({
            let app = desktop_entry(text, path, locale)->0;
            let pairs = scan_lines(lines(text)).pairs;
            let tag = "["@ + locale + "]"@;
            &&& (lookup(pairs, "Name"@ + tag) matches Some(v) ==> app.name == v)
            &&& (lookup(pairs, "Name"@ + tag) is None ==> Some(app.name) == lookup(pairs, "Name"@))
            &&& (lookup(pairs, "Comment"@ + tag) matches Some(v) ==> app.comment == v)
            &&& (lookup(pairs, "Comment"@ + tag) is None ==> app.comment == match lookup(pairs, "Comment"@) {
                Some(c) => c,
                None => Seq::empty(),
            })
            &&& (lookup(pairs, "Keywords"@ + tag) matches Some(v) ==> app.keywords == nonempty_pieces(split_on(v, ';')))
            &&& (lookup(pairs, "Keywords"@ + tag) is None ==> app.keywords == nonempty_pieces(split_on(
                match lookup(pairs, "Keywords"@) {
                    Some(k) => k,
                    None => Seq::empty(),
                },
                ';',
            )))
        }),
{
    let tag = "["@ + locale + "]"@;
    assert("Name"@ + "["@ + locale + "]"@ =~= "Name"@ + tag);
    assert("Comment"@ + "["@ + locale + "]"@ =~= "Comment"@ + tag);
    assert("Keywords"@ + "["@ + locale + "]"@ =~= "Keywords"@ + tag);
}

/// The pairs of a list, as text.
pub open spec fn pair_views(v: Seq<(Vec<char>, Vec<char>)>) -> Seq<(Seq<char>, Seq<char>)> {
    Seq::new(v.len(), |i: int| (v[i].0@, v[i].1@))
}

fn scan_entry(ls: &Vec<Vec<char>>) -> (r: Vec<(Vec<char>, Vec<char>)>)
    ensures
        pair_views(r@) == scan_lines(views(ls@)).pairs,
{
    let header = chars_of("[Desktop Entry]");
    let mut pairs: Vec<(Vec<char>, Vec<char>)> = Vec::new();
    let mut in_main = false;
    let mut i: usize = 0;
    assert(views(ls@).take(0) =~= Seq::<Seq<char>>::empty());
    assert(pair_views(pairs@) =~= Seq::<(Seq<char>, Seq<char>)>::empty());
    while i < ls.len()
        invariant
            i <= ls@.len(),
            header@ == "[Desktop Entry]"@,
            scan_lines(views(ls@).take(i as int)) == (EntryScan { pairs: pair_views(pairs@), in_main }),
        decreases ls@.len() - i,
    {
        let ghost before = pair_views(pairs@);
        assert(views(ls@).take(i + 1).drop_last() =~= views(ls@).take(i as int));
        assert(views(ls@).take(i + 1).last() == ls@[i as int]@);
        let line = trimmed(&ls[i]);
        if line.len() == 0 || line[0] == '#' {
        } else if line[0] == '[' {
            // Only the main section counts: actions have names and commands
            // of their own that must not be taken for the application's.
            in_main = same_chars(&line, &header);
        } else if !in_main {
        } else {
            match split_once_at(&line, '=') {
                Some((k, v)) => {
                    let key = trimmed(&k);
                    let value = trimmed(&v);
                    pairs.push((key, value));
                    assert(pair_views(pairs@) =~= before.push((trim(k@), trim(v@))));
                },
                None => {},
            }
        }
        i = i + 1;
    }
    assert(views(ls@).take(ls@.len() as int) =~= views(ls@));
    pairs
}

fn lookup_in(pairs: &Vec<(Vec<char>, Vec<char>)>, key: &Vec<char>) -> (r: Option<Vec<char>>)
    ensures
        match r {
            Some(v) => lookup(pair_views(pairs@), key@) == Some(v@),
            None => lookup(pair_views(pairs@), key@) is None,
        },
{
    let mut i = pairs.len();
    assert(pair_views(pairs@).take(i as int) =~= pair_views(pairs@));
    while i > 0
        invariant
            i <= pairs@.len(),
            lookup(pair_views(pairs@), key@) == lookup(pair_views(pairs@).take(i as int), key@),
        decreases i,
    {
        let ghost prefix = pair_views(pairs@).take(i as int);
        assert(prefix.drop_last() =~= pair_views(pairs@).take(i - 1));
        assert(prefix.last() == (pairs@[i - 1].0@, pairs@[i - 1].1@));
        if same_chars(&pairs[i - 1].0, key) {
            let v = crate::text::slice_of(&pairs[i - 1].1, 0, pairs[i - 1].1.len());
            assert(v@ =~= pairs@[i - 1].1@);
            return Some(v);
        }
        i = i - 1;
    }
    None
}

fn localised_in(pairs: &Vec<(Vec<char>, Vec<char>)>, key: &str, locale: &str) -> (r: Option<Vec<char>>)
    ensures
        match r {
            Some(v) => localised(pair_views(pairs@), key@, locale@) == Some(v@),
            None => localised(pair_views(pairs@), key@, locale@) is None,
        },
{
    let mut full = key.to_owned();
    full.append("[");
    full.append(locale);
    full.append("]");
    let full_chars = chars_of(full.as_str());
    match lookup_in(pairs, &full_chars) {
        Some(v) => Some(v),
        None => {
            let plain = chars_of(key);
            lookup_in(pairs, &plain)
        },
    }
}

fn lookup_key(pairs: &Vec<(Vec<char>, Vec<char>)>, key: &str) -> (r: Option<Vec<char>>)
    ensures
        match r {
            Some(v) => lookup(pair_views(pairs@), key@) == Some(v@),
            None => lookup(pair_views(pairs@), key@) is None,
        },
{
    let k = chars_of(key);
    lookup_in(pairs, &k)
}

/// Is the value the format's `true`.
pub fn is_true(value: Option<&Vec<char>>) -> (r: bool)
    ensures
        r == is_true_value(match value {
            Some(v) => Some(v@),
            None => None,
        }),
{
    match value {
        Some(v) => {
            let t = chars_of("true");
            eq_ascii_case_insensitive(v, &t)
        },
        None => false,
    }
}

fn keyword_list(text: &Vec<char>) -> (r: Vec<String>)
    ensures
        Seq::new(r@.len(), |i: int| r@[i]@) == nonempty_pieces(split_on(text@, ';')),
{
    let pieces = split_chars(text, ';');
    let mut r: Vec<String> = Vec::new();
    let mut i: usize = 0;
    while i < pieces.len()
        invariant
            i <= pieces@.len(),
            views(pieces@) == split_on(text@, ';'),
            Seq::new(r@.len(), |k: int| r@[k]@) == nonempty_pieces(views(pieces@).take(i as int)),
        decreases pieces@.len() - i,
    {
        let ghost before = Seq::new(r@.len(), |k: int| r@[k]@);
        assert(views(pieces@).take(i + 1).drop_last() =~= views(pieces@).take(i as int));
        assert(views(pieces@).take(i + 1).last() == pieces@[i as int]@);
        if pieces[i].len() > 0 {
            r.push(string_from(&pieces[i]));
            assert(Seq::new(r@.len(), |k: int| r@[k]@) =~= before.push(pieces@[i as int]@));
        }
        i = i + 1;
    }
    assert(views(pieces@).take(pieces@.len() as int) =~= views(pieces@));
    r
}

/// Parses the contents of a `.desktop` file.
pub fn parse_desktop_entry(text: &str, path: &str, locale: &str) -> (r: Option<DesktopApp>)
    ensures
        match r {
            Some(app) => desktop_entry(text@, path@, locale@) == Some(app@),
            None => desktop_entry(text@, path@, locale@) is None,
        },
{
    let chars = chars_of(text);
    let ls = lines_of(&chars);
    let pairs = scan_entry(&ls);
    let ghost pv = pair_views(pairs@);
    let app_type = lookup_key(&pairs, "Type");
    let application = chars_of("Application");
    let is_application = match &app_type {
        Some(t) => same_chars(t, &application),
        None => false,
    };
    if !is_application {
        return None;
    }
    let no_display = lookup_key(&pairs, "NoDisplay");
    let hidden = lookup_key(&pairs, "Hidden");
    if is_true(no_display.as_ref()) || is_true(hidden.as_ref()) {
        return None;
    }
    // The localised name is preferred: `Name[ru]` wins over `Name`.
    let name = match localised_in(&pairs, "Name", locale) {
        Some(n) => n,
        None => {
            return None;
        },
    };
    let run = match lookup_key(&pairs, "Exec") {
        Some(e) => e,
        None => {
            return None;
        },
    };
    if name.len() == 0 || run.len() == 0 {
        return None;
    }
    let run_text = string_from(&run);
    let icon = match lookup_key(&pairs, "Icon") {
        Some(i) => string_from(&i),
        None => "application-x-executable".to_owned(),
    };
    let comment = match localised_in(&pairs, "Comment", locale) {
        Some(c) => string_from(&c),
        None => String::new(),
    };
    let keyword_text = match localised_in(&pairs, "Keywords", locale) {
        Some(k) => k,
        None => Vec::new(),
    };
    let keywords = keyword_list(&keyword_text);
    let terminal_value = lookup_key(&pairs, "Terminal");
    let terminal = is_true(terminal_value.as_ref());
    let app = DesktopApp {
        name: string_from(&name),
        command: clean_exec(run_text.as_str()),
        icon,
        comment,
        keywords,
        terminal,
        path: path.to_owned(),
    };
    assert(app@.keywords =~= desktop_entry(text@, path@, locale@)->0.keywords);
    Some(app)
}

/// Removes the field codes of the specification (`%U`, `%f`, `%i` and the
/// rest) from a command.
///
/// Without this the literal `%U` would end up on the command line and the
/// application would take it for a file name.
pub fn clean_exec(line: &str) -> (r: String)
    ensures
        r@ == clean_exec_spec(line@),
{
    let chars = chars_of(line);
    let mut out: Vec<char> = Vec::new();
    let mut i: usize = 0;
    assert(out@ + strip_field_codes(chars@.skip(0)) =~= strip_field_codes(chars@)) by {
        assert(chars@.skip(0) =~= chars@);
    }
    while i < chars.len()
        invariant
            i <= chars@.len(),
            out@ + strip_field_codes(chars@.skip(i as int)) == strip_field_codes(chars@),
        decreases chars@.len() - i,
    {
        let ghost rest = chars@.skip(i as int);
        let c = chars[i];
        if c != '%' {
            out.push(c);
            assert(rest.drop_first() =~= chars@.skip(i + 1));
            assert(out@ + strip_field_codes(chars@.skip(i + 1)) =~= strip_field_codes(chars@));
            i = i + 1;
        } else if i + 1 == chars.len() {
            assert(chars@.skip(i + 1) =~= Seq::<char>::empty());
            i = i + 1;
        } else {
            // `%%` is an escaped percent sign.
            if chars[i + 1] == '%' {
                out.push('%');
                assert(rest.skip(2) =~= chars@.skip(i + 2));
                assert(out@ + strip_field_codes(chars@.skip(i + 2)) =~= strip_field_codes(chars@));
            } else {
                assert(rest.skip(2) =~= chars@.skip(i + 2));
            }
            i = i + 2;
        }
    }
    assert(chars@.skip(chars@.len() as int) =~= Seq::<char>::empty());
    assert(out@ =~= strip_field_codes(chars@));
    join_words_of(&out)
}

/// The words of the characters (`str::split_whitespace`).
fn split_words(v: &Vec<char>) -> (r: Vec<Vec<char>>)
    ensures
        views(r@) == words(v@),
{
    let mut done: Vec<Vec<char>> = Vec::new();
    let mut cur: Vec<char> = Vec::new();
    let mut i: usize = 0;
    assert(v@.take(0) =~= Seq::<char>::empty());
    assert(views(done@) =~= Seq::<Seq<char>>::empty());
    while i < v.len()
        invariant
            i <= v@.len(),
            words_run(v@.take(i as int)) == (views(done@), cur@),
        decreases v@.len() - i,
    {
        let ghost before = views(done@);
        let ghost before_cur = cur@;
        assert(v@.take(i + 1).drop_last() =~= v@.take(i as int));
        if is_whitespace(v[i]) {
            if cur.len() > 0 {
                let mut word: Vec<char> = Vec::new();
                std::mem::swap(&mut word, &mut cur);
                done.push(word);
                assert(views(done@) =~= before.push(before_cur));
            }
        } else {
            cur.push(v[i]);
        }
        i = i + 1;
    }
    assert(v@.take(v@.len() as int) =~= v@);
    if cur.len() > 0 {
        let ghost before = views(done@);
        let ghost before_cur = cur@;
        done.push(cur);
        assert(views(done@) =~= before.push(before_cur));
    }
    done
}

fn join_words_of(v: &Vec<char>) -> (r: String)
    ensures
        r@ == join_words(words(v@)),
{
    let done = split_words(v);
    let ghost ws = views(done@);
    let mut out = String::new();
    let mut k: usize = 0;
    assert(ws.take(0) =~= Seq::<Seq<char>>::empty());
    while k < done.len()
        invariant
            k <= done@.len(),
            ws == views(done@),
            out@ == join_words(ws.take(k as int)),
        decreases done@.len() - k,
    {
        assert(ws.take(k + 1).drop_last() =~= ws.take(k as int));
        if k > 0 {
            push_char(&mut out, ' ');
        }
        let word = string_from(&done[k]);
        out.append(word.as_str());
        k = k + 1;
        assert(out@ =~= join_words(ws.take(k as int)));
    }
    assert(ws.take(done@.len() as int) =~= ws);
    out
}

/// How well an application matches a query; higher comes first, `None`
/// does not match.
///
/// The query is trimmed and lower-cased. An empty query matches everything
/// with 0. Then, on the lower-cased texts: the exact name 1000; a name
/// starting with the query 500 less the name's length in bytes, at most 199
/// less; an occurrence inside the name 300 less that length, at most 99
/// less (so among names of one kind the shorter wins, and every start of a
/// name still ranks above every occurrence inside one, and every name above
/// the rest); a keyword containing it 200; the comment 100; the command 50.
pub open spec fn score_spec(app: DesktopAppView, query: Seq<char>) -> Option<i32> {
    let q = lowercase(trim(query));
    let name = lowercase(app.name);
    if q.len() == 0 {
        Some(0)
    } else if name == q {
        Some(1000)
    } else if has_prefix(name, q) {
        Some((500 - length_penalty(utf8_len(name), 199)) as i32)
    } else if has_infix(name, q) {
        Some((300 - length_penalty(utf8_len(name), 99)) as i32)
    } else if exists|k: int| 0 <= k < app.keywords.len() && has_infix(lowercase(#[trigger] app.keywords[k]), q) {
        Some(200)
    } else if has_infix(lowercase(app.comment), q) {
        Some(100)
    } else if has_infix(lowercase(app.command), q) {
        Some(50)
    } else {
        None
    }
}

/// A text contains itself, and contains what it starts with.
proof fn lemma_prefix_is_infix(s: Seq<char>, q: Seq<char>)
    requires
        has_prefix(s, q) || s == q,
    ensures
        has_infix(s, q),
{
    if s == q {
        assert(s.subrange(0, q.len() as int) =~= q);
    } else {
        assert(s.take(q.len() as int) == q);
        assert(s.subrange(0, q.len() as int) =~= s.take(q.len() as int));
    }
    assert(s.subrange(0int, 0int + q.len()) == q);
}

/// An application matches a query exactly when the query, trimmed and
/// lower-cased, is empty or occurs in one of its lower-cased texts: the name,
/// a keyword, the comment or the launch command. No text that holds the
/// query is passed over, the command included.
pub proof fn law_every_field_can_match(app: DesktopAppView, query: Seq<char>)
    ensures
        score_spec(app, query) is Some <==> ({
            let q = lowercase(trim(query));
            ||| q.len() == 0
            ||| has_infix(lowercase(app.name), q)
            ||| (exists|k: int| 0 <= k < app.keywords.len() && has_infix(lowercase(#[trigger] app.keywords[k]), q))
            ||| has_infix(lowercase(app.comment), q)
            ||| has_infix(lowercase(app.command), q)
        }),
{
    let q = lowercase(trim(query));
    let name = lowercase(app.name);
    if q.len() > 0 && (name == q || has_prefix(name, q)) {
        lemma_prefix_is_infix(name, q);
    }
}

/// What a name's length in bytes takes off its score: the length, but no
/// more than `cap`.
pub open spec fn length_penalty(len: nat, cap: int) -> int {
    if len < cap {
        len as int
    } else {
        cap
    }
}

/// The name of the application starts with the query (and is not the
/// query itself).
pub open spec fn starts_name(app: DesktopAppView, query: Seq<char>) -> bool {
    let q = lowercase(trim(query));
    let name = lowercase(app.name);
    q.len() > 0 && name != q && has_prefix(name, q)
}

/// The query occurs in the name, but not at its start.
pub open spec fn inside_name(app: DesktopAppView, query: Seq<char>) -> bool {
    let q = lowercase(trim(query));
    let name = lowercase(app.name);
    q.len() > 0 && name != q && !has_prefix(name, q) && has_infix(name, q)
}

/// What the search promises of its scores: a name that starts with the query
/// ranks above every name that only contains it, every name hit ranks above a
/// hit in the keywords, the comment or the command, and of two names that
/// start with the query (or two that contain it) the shorter ranks at least
/// as high.
pub proof fn law_names_rank_first(a: DesktopAppView, b: DesktopAppView, query: Seq<char>)
    ensures
        starts_name(a, query) && inside_name(b, query) ==> score_spec(a, query)->0 > score_spec(b, query)->0,
        starts_name(a, query) || inside_name(a, query) ==> score_spec(a, query)->0 > 200,
        lowercase(trim(query)).len() > 0 && lowercase(b.name) != lowercase(trim(query)) && !starts_name(b, query)
            && !inside_name(b, query) && score_spec(b, query) is Some ==> score_spec(b, query)->0 <= 200,
        starts_name(a, query) && starts_name(b, query) && utf8_len(lowercase(a.name)) <= utf8_len(lowercase(b.name))
            ==> score_spec(a, query)->0 >= score_spec(b, query)->0,
        inside_name(a, query) && inside_name(b, query) && utf8_len(lowercase(a.name)) <= utf8_len(lowercase(b.name))
            ==> score_spec(a, query)->0 >= score_spec(b, query)->0,
{
}

/// Scores an application against a query.
///
/// An exact start of the name counts more than an occurrence inside it, and
/// the name more than the description: what the person was typing comes
/// first.
#[verifier::loop_isolation(false)]
pub fn match_score(app: &DesktopApp, query: &str) -> (r: Option<i32>)
    ensures
        r == score_spec(app@, query@),
{
    let query_chars = chars_of(query);
    let trimmed_query = string_from(&trimmed(&query_chars));
    let q_text = to_lowercase(trimmed_query.as_str());
    let q = chars_of(q_text.as_str());
    if q.len() == 0 {
        return Some(0);
    }
    let name_text = to_lowercase(app.name.as_str());
    let name = chars_of(name_text.as_str());
    if same_chars(&name, &q) {
        return Some(1000);
    }
    let name_len = name_text.as_str().as_bytes().len();
    if starts_with(&name, &q) {
        let penalty: i32 = if name_len < 199 { name_len as i32 } else { 199 };
        return Some(500 - penalty);
    }
    if contains_seq(&name, &q) {
        let penalty: i32 = if name_len < 99 { name_len as i32 } else { 99 };
        return Some(300 - penalty);
    }
    let mut k: usize = 0;
    while k < app.keywords.len()
        invariant
            k <= app.keywords@.len(),
            q@ == lowercase(trim(query@)),
            forall|j: int| 0 <= j < k ==> !has_infix(lowercase(#[trigger] app@.keywords[j]), q@),
        decreases app.keywords@.len() - k,
    {
        let keyword = to_lowercase(app.keywords[k].as_str());
        let kc = chars_of(keyword.as_str());
        assert(app@.keywords[k as int] == app.keywords@[k as int]@);
        if contains_seq(&kc, &q) {
            assert(has_infix(lowercase(app@.keywords[k as int]), q@));
            return Some(200);
        }
        k = k + 1;
    }
    let comment = to_lowercase(app.comment.as_str());
    if contains_seq(&chars_of(comment.as_str()), &q) {
        return Some(100);
    }
    // The launch command is the last resort: this finds `foot` when only
    // `Exec` mentions it.
    let command = to_lowercase(app.command.as_str());
    if contains_seq(&chars_of(command.as_str()), &q) {
        return Some(50);
    }
    None
}

/// Does application `i` come before application `j` in the search results:
/// a higher score first, then the name in byte order, then the order of
/// the input.
pub open spec fn ranks_before(scores: Seq<i32>, names: Seq<Seq<u8>>, i: int, j: int) -> bool {
    ||| scores[i] > scores[j]
    ||| (scores[i] == scores[j] && bytes_lt(names[i], names[j]))
    ||| (scores[i] == scores[j] && names[i] == names[j] && i < j)
}

proof fn lemma_ranks_total(scores: Seq<i32>, names: Seq<Seq<u8>>, i: int, j: int)
    requires
        i != j,
    ensures
        ranks_before(scores, names, i, j) || ranks_before(scores, names, j, i),
        !(ranks_before(scores, names, i, j) && ranks_before(scores, names, j, i)),
{
    lemma_bytes_lt_total(names[i], names[j]);
    lemma_bytes_lt_asym(names[i], names[j]);
}

proof fn lemma_ranks_trans(scores: Seq<i32>, names: Seq<Seq<u8>>, i: int, j: int, k: int)
    requires
        ranks_before(scores, names, i, j),
        ranks_before(scores, names, j, k),
    ensures
        ranks_before(scores, names, i, k),
{
    if scores[i] == scores[j] && scores[j] == scores[k] {
        if bytes_lt(names[i], names[j]) && bytes_lt(names[j], names[k]) {
            lemma_bytes_lt_trans(names[i], names[j], names[k]);
        }
    }
}

/// The search results: the indices of the matching applications, in order.
pub open spec fn is_search_order(scores: Seq<Option<i32>>, names: Seq<Seq<u8>>, order: Seq<int>) -> bool {
    let s = Seq::new(scores.len(), |i: int| scores[i]->0);
    &&& forall|k: int| 0 <= k < order.len() ==> 0 <= #[trigger] order[k] < scores.len() && scores[order[k]] is Some
    &&& forall|i: int| 0 <= i < scores.len() && scores[i] is Some ==> exists|k: int| 0 <= k < order.len() && #[trigger] order[k] == i
    &&& forall|a: int, b: int| 0 <= a < b < order.len() ==> ranks_before(s, names, #[trigger] order[a], #[trigger] order[b])
}

/// `order` lists the applications of `apps` that match `query`, best first.
pub open spec fn is_search_result(apps: Seq<DesktopApp>, query: Seq<char>, order: Seq<int>) -> bool {
    is_search_order(
        Seq::new(apps.len(), |i: int| score_spec(apps[i]@, query)),
        Seq::new(apps.len(), |i: int| utf8_len_bytes(apps[i].name@)),
        order,
    )
}

/// Picks the applications that match a query and orders them.
pub fn search<'a>(apps: &'a [DesktopApp], query: &str) -> (r: Vec<&'a DesktopApp>)
    ensures
        exists|order: Seq<int>| {
            &&& #[trigger] is_search_result(apps@, query@, order)
            &&& order.len() == r@.len()
            &&& forall|k: int| 0 <= k < r@.len() ==> *r@[k] == apps@[#[trigger] order[k]]
        },
{
    let ghost scores = Seq::new(apps@.len(), |i: int| score_spec(apps@[i]@, query@));
    let ghost names = Seq::new(apps@.len(), |i: int| utf8_len_bytes(apps@[i].name@));
    let ghost s = Seq::new(scores.len(), |i: int| scores[i]->0);
    let mut score_of: Vec<i32> = Vec::new();
    let mut order: Vec<usize> = Vec::new();
    let mut i: usize = 0;
    while i < apps.len()
        invariant
            i <= apps@.len(),
            scores == Seq::new(apps@.len(), |i: int| score_spec(apps@[i]@, query@)),
            names == Seq::new(apps@.len(), |i: int| utf8_len_bytes(apps@[i].name@)),
            s == Seq::new(scores.len(), |i: int| scores[i]->0),
            score_of@.len() == i,
            forall|j: int| 0 <= j < i ==> scores[j] is Some ==> #[trigger] score_of@[j] == scores[j]->0,
            forall|k: int| 0 <= k < order@.len() ==> (#[trigger] order@[k]) < i && scores[order@[k] as int] is Some,
            forall|j: int| 0 <= j < i && scores[j] is Some ==> exists|k: int| 0 <= k < order@.len() && #[trigger] order@[k] == j,
            forall|a: int, b: int| 0 <= a < b < order@.len() ==> ranks_before(s, names, #[trigger] order@[a] as int, #[trigger] order@[b] as int),
        decreases apps@.len() - i,
    {
        let found = match_score(&apps[i], query);
        match found {
            Some(score) => {
                score_of.push(score);
                // The first place whose application ranks after this one.
                let name_i = apps[i].name.as_str().as_bytes();
                let mut p: usize = 0;
                let mut placed = false;
                while !placed && p < order.len()
                    invariant
                        p <= order@.len(),
                        placed ==> p < order@.len() && ranks_before(s, names, i as int, order@[p as int] as int),
                        i < apps@.len(),
                        score_of@.len() == i + 1,
                        score == s[i as int],
                        scores[i as int] is Some,
                        name_i@ == names[i as int],
                        names == Seq::new(apps@.len(), |i: int| utf8_len_bytes(apps@[i].name@)),
                        s == Seq::new(scores.len(), |i: int| scores[i]->0),
                        scores.len() == apps@.len(),
                        forall|j: int| 0 <= j <= i ==> scores[j] is Some ==> #[trigger] score_of@[j] == scores[j]->0,
                        forall|k: int| 0 <= k < order@.len() ==> (#[trigger] order@[k]) < i && scores[order@[k] as int] is Some,
                        forall|k: int| 0 <= k < p ==> ranks_before(s, names, #[trigger] order@[k] as int, i as int),
                    decreases order@.len() - p, (if placed { 0int } else { 1int }),
                {
                    let j = order[p];
                    let sj = score_of[j];
                    let name_j = apps[j].name.as_str().as_bytes();
                    let after = sj < score || (sj == score && bytes_less(name_i, name_j));
                    if after {
                        proof {
                            assert(ranks_before(s, names, i as int, j as int));
                        }
                        placed = true;
                    } else {
                        proof {
                            lemma_ranks_total(s, names, i as int, j as int);
                        }
                        p = p + 1;
                    }
                }
                let ghost old_order = order@;
                order.insert(p, i);
                proof {
                    assert forall|a: int, b: int| 0 <= a < b < order@.len() implies ranks_before(s, names, #[trigger] order@[a] as int, #[trigger] order@[b] as int) by {
                        let pp = p as int;
                        if b < pp {
                            assert(order@[a] == old_order[a]);
                            assert(order@[b] == old_order[b]);
                        } else if b == pp {
                            assert(order@[a] == old_order[a]);
                        } else if a < pp {
                            assert(order@[a] == old_order[a]);
                            assert(order@[b] == old_order[b - 1]);
                        } else if a == pp {
                            assert(order@[b] == old_order[b - 1]);
                            if b > a + 1 {
                                lemma_ranks_trans(s, names, i as int, old_order[pp] as int, old_order[b - 1] as int);
                            }
                        } else {
                            assert(order@[a] == old_order[a - 1]);
                            assert(order@[b] == old_order[b - 1]);
                        }
                    }
                    assert forall|j: int| 0 <= j < i + 1 && scores[j] is Some implies exists|k: int| 0 <= k < order@.len() && #[trigger] order@[k] == j by {
                        if j == i {
                            assert(order@[p as int] == j);
                        } else {
                            let k = choose|k: int| 0 <= k < old_order.len() && old_order[k] == j;
                            if k < p {
                                assert(order@[k] == j);
                            } else {
                                assert(order@[k + 1] == j);
                            }
                        }
                    }
                }
            },
            None => {
                score_of.push(0);
            },
        }
        i = i + 1;
    }
    let mut r: Vec<&'a DesktopApp> = Vec::new();
    let mut k: usize = 0;
    while k < order.len()
        invariant
            k <= order@.len(),
            r@.len() == k,
            forall|m: int| 0 <= m < order@.len() ==> (#[trigger] order@[m]) < apps@.len(),
            forall|m: int| 0 <= m < k ==> *r@[m] == apps@[order@[m] as int],
        decreases order@.len() - k,
    {
        r.push(&apps[order[k]]);
        k = k + 1;
    }
    let ghost ord = Seq::new(order@.len(), |m: int| order@[m] as int);
    assert(is_search_result(apps@, query@, ord)) by {
        assert forall|j: int| 0 <= j < scores.len() && scores[j] is Some implies exists|k: int| 0 <= k < ord.len() && #[trigger] ord[k] == j by {
            let k = choose|k: int| 0 <= k < order@.len() && order@[k] == j;
            assert(ord[k] == j);
        }
    }
    r
}

/// The UTF-8 bytes of a text, by which `String` compares.
pub open spec fn utf8_len_bytes(s: Seq<char>) -> Seq<u8> {
    vstd::utf8::encode_utf8(s)
}

/// A file of application entries: its extension is exactly `desktop`.
pub open spec fn is_desktop_file(p: Seq<char>) -> bool {
    path_extension(p) == Some("desktop"@)
}

/// The name by which entries of different directories hide each other: the
/// file name, or nothing.
pub open spec fn file_key(p: Seq<char>) -> Seq<char> {
    match path_file_name(p) {
        Some(n) => n,
        None => Seq::empty(),
    }
}

/// File `i` is read: it is an entry file, and no earlier entry file has its
/// name. The directories come by priority, so a user's file hides the
/// system's file of the same name, whether or not that one can be read.
pub open spec fn is_chosen_file(paths: Seq<Seq<char>>, i: int) -> bool {
    &&& 0 <= i < paths.len()
    &&& is_desktop_file(paths[i])
    &&& forall|j: int| 0 <= j < i && is_desktop_file(#[trigger] paths[j]) ==> file_key(paths[j]) != file_key(paths[i])
}

fn is_desktop_path(path: &str) -> (r: bool)
    ensures
        r == is_desktop_file(path@),
{
    match extension_of(path) {
        Some(e) => crate::text::str_eq(e.as_str(), "desktop"),
        None => false,
    }
}

fn key_of_path(path: &str) -> (r: String)
    ensures
        r@ == file_key(path@),
{
    match file_name_of(path) {
        Some(n) => n,
        None => String::new(),
    }
}

/// Which of the listed files (all directories, in order) are to be read, in
/// increasing order.
pub fn desktop_files(paths: &Vec<String>) -> (r: Vec<usize>)
    ensures
        forall|a: int, b: int| 0 <= a < b < r@.len() ==> r@[a] < r@[b],
        forall|k: int| 0 <= k < r@.len() ==> is_chosen_file(texts(paths@), #[trigger] r@[k] as int),
        forall|i: int| is_chosen_file(texts(paths@), i) ==> r@.contains(i as usize),
{
    let ghost ps = texts(paths@);
    // The key of every entry file seen so far, `None` for other files.
    let mut keys: Vec<Option<String>> = Vec::new();
    let mut r: Vec<usize> = Vec::new();
    let mut i: usize = 0;
    while i < paths.len()
        invariant
            i <= paths@.len(),
            ps == texts(paths@),
            keys@.len() == i,
            forall|j: int| 0 <= j < i ==> match #[trigger] keys@[j] {
                Some(k) => is_desktop_file(ps[j]) && k@ == file_key(ps[j]),
                None => !is_desktop_file(ps[j]),
            },
            forall|a: int, b: int| 0 <= a < b < r@.len() ==> r@[a] < r@[b],
            forall|k: int| 0 <= k < r@.len() ==> r@[k] < i && is_chosen_file(ps, #[trigger] r@[k] as int),
            forall|j: int| 0 <= j < i && is_chosen_file(ps, j) ==> r@.contains(j as usize),
        decreases paths@.len() - i,
    {
        assert(ps[i as int] == paths@[i as int]@);
        let path = paths[i].as_str();
        if is_desktop_path(path) {
            let key = key_of_path(path);
            let mut earlier = false;
            let mut j: usize = 0;
            while j < i
                invariant
                    j <= i == keys@.len(),
                    i < paths@.len(),
                    ps == texts(paths@),
                    key@ == file_key(ps[i as int]),
                    forall|m: int| 0 <= m < i ==> match #[trigger] keys@[m] {
                        Some(k) => is_desktop_file(ps[m]) && k@ == file_key(ps[m]),
                        None => !is_desktop_file(ps[m]),
                    },
                    earlier == exists|m: int| 0 <= m < j && is_desktop_file(ps[m]) && file_key(ps[m]) == key@,
                decreases i - j,
            {
                let same = match &keys[j] {
                    Some(k) => crate::text::str_eq(k.as_str(), key.as_str()),
                    None => false,
                };
                if same {
                    earlier = true;
                }
                proof {
                    if !earlier {
                        assert forall|m: int| 0 <= m < j + 1 implies !(is_desktop_file(ps[m]) && file_key(ps[m]) == key@) by {
                            if m == j {
                                let km = keys@[m];
                            }
                        }
                    } else if same {
                        let km = keys@[j as int];
                        assert(is_desktop_file(ps[j as int]) && file_key(ps[j as int]) == key@);
                    }
                }
                j = j + 1;
            }
            let ghost before = r@;
            if !earlier {
                r.push(i);
                assert(is_chosen_file(ps, i as int));
                assert forall|m: int| 0 <= m < i + 1 && is_chosen_file(ps, m) implies r@.contains(m as usize) by {
                    if m < i {
                        assert(before.contains(m as usize));
                        let w = choose|w: int| 0 <= w < before.len() && before[w] == m as usize;
                        assert(r@[w] == m as usize);
                    } else {
                        assert(r@[r@.len() - 1] == m as usize);
                    }
                }
            } else {
                assert(!is_chosen_file(ps, i as int));
            }
            keys.push(Some(key));
        } else {
            assert(!is_chosen_file(ps, i as int));
            keys.push(None);
        }
        i = i + 1;
    }
    r
}

/// The entries that parse, in the order of their files.
pub open spec fn parsed_apps(files: Seq<(Seq<char>, Seq<char>)>, locale: Seq<char>) -> Seq<DesktopAppView>
    decreases files.len(),
{
    if files.len() == 0 {
        Seq::empty()
    } else {
        let rest = parsed_apps(files.drop_last(), locale);
        match desktop_entry(files.last().1, files.last().0, locale) {
            Some(a) => rest.push(a),
            None => rest,
        }
    }
}

/// The key by which the application list is ordered: the name in lower case,
/// compared as bytes.
pub open spec fn name_key(a: DesktopAppView) -> Seq<u8> {
    utf8_len_bytes(lowercase(a.name))
}

/// `new` is `old` sorted by name, equal names keeping their order.
pub open spec fn is_name_sorted(new: Seq<DesktopAppView>, old: Seq<DesktopAppView>, perm: Seq<int>) -> bool {
    &&& perm.len() == new.len() == old.len()
    &&& forall|k: int| 0 <= k < perm.len() ==> 0 <= #[trigger] perm[k] < old.len() && new[k] == old[perm[k]]
    &&& forall|k: int, m: int| 0 <= k < m < perm.len() ==> #[trigger] perm[k] != #[trigger] perm[m]
    &&& keys_in_order(Seq::new(new.len(), |k: int| name_key(new[k])), perm)
}

/// Neighbouring keys are in order, and equal neighbours keep the order of
/// the places they had before.
pub open spec fn keys_in_order(ks: Seq<Seq<u8>>, perm: Seq<int>) -> bool {
    forall|k: int| 0 <= k < ks.len() - 1 ==> {
        &&& !bytes_lt(ks[k + 1], #[trigger] ks[k])
        &&& (ks[k] == ks[k + 1] ==> perm[k] < perm[k + 1])
    }
}

/// Inserting a key after all keys that are not greater, and before the
/// first greater one, with a place later than all others, keeps the order.
proof fn lemma_insert_in_order(ks: Seq<Seq<u8>>, perm: Seq<int>, p: int, key: Seq<u8>, place: int)
    requires
        ks.len() == perm.len(),
        0 <= p <= ks.len(),
        keys_in_order(ks, perm),
        forall|k: int| 0 <= k < perm.len() ==> #[trigger] perm[k] < place,
        forall|k: int| 0 <= k < p ==> !bytes_lt(key, #[trigger] ks[k]),
        p < ks.len() ==> bytes_lt(key, ks[p]),
    ensures
        keys_in_order(ks.insert(p, key), perm.insert(p, place)),
{
    let nk = ks.insert(p, key);
    let np = perm.insert(p, place);
    assert forall|k: int| 0 <= k < nk.len() - 1 implies {
        &&& !bytes_lt(nk[k + 1], #[trigger] nk[k])
        &&& (nk[k] == nk[k + 1] ==> np[k] < np[k + 1])
    } by {
        if k + 1 < p {
            assert(nk[k] == ks[k] && nk[k + 1] == ks[k + 1] && np[k] == perm[k] && np[k + 1] == perm[k + 1]);
        } else if k + 1 == p {
            assert(nk[k] == ks[k] && nk[k + 1] == key && np[k] == perm[k] && np[k + 1] == place);
            assert(!bytes_lt(key, ks[k]));
        } else if k == p {
            assert(nk[k] == key && nk[k + 1] == ks[k] && np[k] == place);
            lemma_bytes_lt_asym(key, ks[k]);
            lemma_bytes_lt_asym(key, key);
        } else {
            assert(nk[k] == ks[k - 1] && nk[k + 1] == ks[k] && np[k] == perm[k - 1] && np[k + 1] == perm[k]);
        }
    }
}

/// The pictures of a list of applications.
pub open spec fn app_views(apps: Seq<DesktopApp>) -> Seq<DesktopAppView> {
    Seq::new(apps.len(), |i: int| apps[i]@)
}

/// The pictures of a list of (path, text) pairs.
pub open spec fn file_views(files: Seq<(String, String)>) -> Seq<(Seq<char>, Seq<char>)> {
    Seq::new(files.len(), |i: int| (files[i].0@, files[i].1@))
}

/// Puts `x` into the sorted list after every name that is not greater than
/// its own and before the first greater one; returns the place.
fn insert_by_name(sorted: &mut Vec<DesktopApp>, keys: &mut Vec<String>, x: DesktopApp, kx: String) -> (p: usize)
    requires
        old(sorted)@.len() == old(keys)@.len(),
    ensures
        p <= old(sorted)@.len(),
        final(sorted)@ == old(sorted)@.insert(p as int, x),
        final(keys)@ == old(keys)@.insert(p as int, kx),
        forall|k: int| 0 <= k < p ==> !bytes_lt(utf8_len_bytes(kx@), utf8_len_bytes(#[trigger] old(keys)@[k]@)),
        p < old(sorted)@.len() ==> bytes_lt(utf8_len_bytes(kx@), utf8_len_bytes(old(keys)@[p as int]@)),
{
    let mut p: usize = 0;
    while p < keys.len() && !bytes_less(kx.as_str().as_bytes(), keys[p].as_str().as_bytes())
        invariant
            p <= keys@.len(),
            keys@ == old(keys)@,
            forall|k: int| 0 <= k < p ==> !bytes_lt(utf8_len_bytes(kx@), utf8_len_bytes(#[trigger] keys@[k]@)),
        decreases keys@.len() - p,
    {
        p = p + 1;
    }
    sorted.insert(p, x);
    keys.insert(p, kx);
    p
}

/// The applications of the entry files that were read, as (path, text)
/// pairs: those that parse, ordered by name with case ignored.
pub fn applications_from(files: &Vec<(String, String)>, locale: &str) -> (r: Vec<DesktopApp>)
    ensures
        exists|perm: Seq<int>| #[trigger] is_name_sorted(app_views(r@), parsed_apps(file_views(files@), locale@), perm),
{
    let ghost fs = file_views(files@);
    // The parsed entries in file order.
    let mut parsed: Vec<DesktopApp> = Vec::new();
    let mut i: usize = 0;
    while i < files.len()
        invariant
            i <= files@.len(),
            fs == file_views(files@),
            app_views(parsed@) == parsed_apps(fs.take(i as int), locale@),
        decreases files@.len() - i,
    {
        assert(fs.take(i + 1).drop_last() =~= fs.take(i as int));
        assert(fs.take(i + 1).last() == (files@[i as int].0@, files@[i as int].1@));
        let ghost before = app_views(parsed@);
        match parse_desktop_entry(files[i].1.as_str(), files[i].0.as_str(), locale) {
            Some(app) => {
                parsed.push(app);
                assert(app_views(parsed@) =~= before.push(app@));
            },
            None => {},
        }
        i = i + 1;
    }
    assert(fs.take(fs.len() as int) =~= fs);
    let ghost orig = parsed@;
    let n = parsed.len();
    let mut rest = parsed;
    let mut sorted: Vec<DesktopApp> = Vec::new();
    let mut keys: Vec<String> = Vec::new();
    let ghost mut perm: Seq<int> = Seq::empty();
    let mut idx: usize = 0;
    assert(rest@ =~= orig.skip(0));
    while idx < n
        invariant
            idx <= n == orig.len(),
            rest@ == orig.skip(idx as int),
            perm.len() == sorted@.len() == keys@.len() == idx,
            forall|k: int| 0 <= k < idx ==> utf8_len_bytes(#[trigger] keys@[k]@) == name_key(sorted@[k]@),
            forall|k: int| 0 <= k < perm.len() ==> 0 <= #[trigger] perm[k] < idx && sorted@[k] == orig[perm[k]],
            forall|k: int, m: int| 0 <= k < m < perm.len() ==> #[trigger] perm[k] != #[trigger] perm[m],
            keys_in_order(Seq::new(idx as nat, |k: int| utf8_len_bytes(keys@[k]@)), perm),
        decreases n - idx,
    {
        let ghost rest_before = rest@;
        let x = rest.remove(0);
        assert(x == orig[idx as int]);
        assert(rest@ =~= orig.skip(idx + 1));
        let kx = to_lowercase(x.name.as_str());
        let ghost ks = Seq::new(idx as nat, |k: int| utf8_len_bytes(keys@[k]@));
        let ghost old_sorted = sorted@;
        let ghost old_keys = keys@;
        let ghost old_perm = perm;
        let p = insert_by_name(&mut sorted, &mut keys, x, kx);
        proof {
            let bx = utf8_len_bytes(keys@[p as int]@);
            assert(keys@[p as int] == kx);
            assert forall|k: int| 0 <= k < p implies !bytes_lt(bx, #[trigger] ks[k]) by {
                assert(ks[k] == utf8_len_bytes(old_keys[k]@));
            }
            if p < idx {
                assert(ks[p as int] == utf8_len_bytes(old_keys[p as int]@));
            }
            lemma_insert_in_order(ks, old_perm, p as int, bx, idx as int);
            perm = old_perm.insert(p as int, idx as int);
            assert(Seq::new((idx + 1) as nat, |k: int| utf8_len_bytes(keys@[k]@)) =~= ks.insert(p as int, bx));
            assert forall|k: int| 0 <= k < idx + 1 implies utf8_len_bytes(#[trigger] keys@[k]@) == name_key(sorted@[k]@) by {
                if k < p {
                    assert(keys@[k] == old_keys[k] && sorted@[k] == old_sorted[k]);
                } else if k > p {
                    assert(keys@[k] == old_keys[k - 1] && sorted@[k] == old_sorted[k - 1]);
                }
            }
            assert forall|k: int| 0 <= k < perm.len() implies 0 <= #[trigger] perm[k] < idx + 1 && sorted@[k] == orig[perm[k]] by {
                if k < p {
                    assert(sorted@[k] == old_sorted[k] && perm[k] == old_perm[k]);
                } else if k > p {
                    assert(sorted@[k] == old_sorted[k - 1] && perm[k] == old_perm[k - 1]);
                }
            }
            assert forall|k: int, m: int| 0 <= k < m < perm.len() implies #[trigger] perm[k] != #[trigger] perm[m] by {
                let pp = p as int;
                if k != pp && m != pp {
                    let ok = if k < pp { k } else { k - 1 };
                    let om = if m < pp { m } else { m - 1 };
                    assert(perm[k] == old_perm[ok] && perm[m] == old_perm[om]);
                } else if k == pp {
                    let om = if m < pp { m } else { m - 1 };
                    assert(perm[m] == old_perm[om]);
                } else {
                    let ok = if k < pp { k } else { k - 1 };
                    assert(perm[k] == old_perm[ok]);
                }
            }
        }
        idx = idx + 1;
    }
    proof {
        let nv = app_views(sorted@);
        let ov = app_views(orig);
        assert(Seq::new(nv.len(), |k: int| name_key(nv[k])) =~= Seq::new(idx as nat, |k: int| utf8_len_bytes(keys@[k]@)));
        assert(is_name_sorted(nv, ov, perm));
    }
    sorted
}


/// The program that starts an application and its arguments: the words of
/// its command, run in a terminal (`foot -e ...`) where the entry asks for
/// one, since a terminal program started without one closes at once. A
/// command without words starts nothing.
pub open spec fn launch_spec(app: DesktopAppView) -> Option<(Seq<char>, Seq<Seq<char>>)> {
    let ws = words(app.command);
    if ws.len() == 0 {
        None
    } else if app.terminal {
        Some(("foot"@, seq!["-e"@] + ws))
    } else {
        Some((ws[0], ws.drop_first()))
    }
}

/// The program and arguments to start for an application.
pub fn launch_command(app: &DesktopApp) -> (r: Option<(String, Vec<String>)>)
    ensures
        match r {
            Some((program, args)) => launch_spec(app@) == Some((program@, texts(args@))),
            None => launch_spec(app@) is None,
        },
{
    let chars = chars_of(app.command.as_str());
    let ws = split_words(&chars);
    if ws.len() == 0 {
        return None;
    }
    let ghost wv = views(ws@);
    let mut args: Vec<String> = Vec::new();
    let mut k: usize = 1;
    if app.terminal {
        args.push("-e".to_owned());
        k = 0;
    }
    let start: usize = k;
    let ghost prefix = texts(args@);
    while k < ws.len()
        invariant
            start <= k <= ws@.len(),
            wv == views(ws@),
            texts(args@) == prefix + wv.subrange(start as int, k as int),
        decreases ws@.len() - k,
    {
        let ghost before = texts(args@);
        let word = string_from(&ws[k]);
        assert(word@ == wv[k as int]);
        args.push(word);
        assert(texts(args@) =~= before.push(wv[k as int]));
        k = k + 1;
        assert(wv.subrange(start as int, k as int) =~= wv.subrange(start as int, k - 1).push(wv[k - 1]));
        assert(texts(args@) =~= prefix + wv.subrange(start as int, k as int));
    }
    if app.terminal {
        assert(wv.subrange(0, wv.len() as int) =~= wv);
        assert(texts(args@) =~= seq!["-e"@] + wv);
        Some(("foot".to_owned(), args))
    } else {
        assert(wv.subrange(1, wv.len() as int) =~= wv.drop_first());
        assert(texts(args@) =~= wv.drop_first());
        Some((string_from(&ws[0]), args))
    }
}

} // verus!
