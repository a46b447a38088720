//! The side bar of the file manager: home and the user's standard folders.

use vstd::prelude::*;

use crate::path_ops::{join_path, joined_path, paths_equal, same_path};
use crate::text::{
    chars_of, has_prefix, lines, lines_of, same_chars, slice_of, split_once, split_once_at,
    starts_with, string_from, trim, trimmed, views,
};

verus! {

/// An entry of the side bar.
#[derive(Debug, Clone, PartialEq)]
pub struct Place {
    pub label: String,
    pub path: String,
    pub icon: &'static str,
}

/// Leading double quotes removed.
pub open spec fn strip_quotes_start(s: Seq<char>) -> Seq<char>
    decreases s.len(),
{
    if s.len() > 0 && s[0] == '"' {
        strip_quotes_start(s.drop_first())
    } else {
        s
    }
}

/// Trailing double quotes removed.
pub open spec fn strip_quotes_end(s: Seq<char>) -> Seq<char>
    decreases s.len(),
{
    if s.len() > 0 && s.last() == '"' {
        strip_quotes_end(s.drop_last())
    } else {
        s
    }
}

/// Double quotes removed at both ends (`str::trim_matches('"')`).
pub open spec fn strip_quotes(s: Seq<char>) -> Seq<char> {
    strip_quotes_end(strip_quotes_start(s))
}

/// The path a value of `user-dirs.dirs` stands for: `$HOME/rest` is `rest`
/// under the home directory, `$HOME` is the home directory, anything else is
/// taken as it is.
pub open spec fn expand_home(value: Seq<char>, home: Seq<char>) -> Seq<char> {
    if has_prefix(value, "$HOME/"@) {
        joined_path(home, value.skip(6))
    } else if value == "$HOME"@ {
        home
    } else {
        value
    }
}

/// The entry a line of `user-dirs.dirs` gives, if any: blank lines,
/// comments and lines without `=` give none.
pub open spec fn user_dir_line(raw: Seq<char>, home: Seq<char>) -> Option<(Seq<char>, Seq<char>)> {
    let line = trim(raw);
    if line.len() == 0 || line[0] == '#' {
        None
    } else {
        match split_once(line, '=') {
            Some((k, v)) => Some((trim(k), expand_home(strip_quotes(trim(v)), home))),
            None => None,
        }
    }
}

/// The entries of the whole file, in order.
pub open spec fn user_dir_entries(ls: Seq<Seq<char>>, home: Seq<char>) -> Seq<(Seq<char>, Seq<char>)>
    decreases ls.len(),
{
    if ls.len() == 0 {
        Seq::empty()
    } else {
        let r = user_dir_entries(ls.drop_last(), home);
        match user_dir_line(ls.last(), home) {
            Some(e) => r.push(e),
            None => r,
        }
    }
}

proof fn lemma_strip_start_step(s: Seq<char>, i: int)
    requires
        0 <= i < s.len(),
        s[i] == '"',
    ensures
        strip_quotes_start(s.skip(i)) == strip_quotes_start(s.skip(i + 1)),
{
    assert(s.skip(i).drop_first() =~= s.skip(i + 1));
}

proof fn lemma_strip_end_step(s: Seq<char>, j: int)
    requires
        0 < j <= s.len(),
        s[j - 1] == '"',
    ensures
        strip_quotes_end(s.take(j)) == strip_quotes_end(s.take(j - 1)),
{
    assert(s.take(j).drop_last() =~= s.take(j - 1));
}

fn unquoted(v: &Vec<char>) -> (r: Vec<char>)
    ensures
        r@ == strip_quotes(v@),
{
    let mut a: usize = 0;
    assert(v@.skip(0) =~= v@);
    while a < v.len() && v[a] == '"'
        invariant
            a <= v@.len(),
            strip_quotes_start(v@) == strip_quotes_start(v@.skip(a as int)),
        decreases v@.len() - a,
    {
        proof {
            lemma_strip_start_step(v@, a as int);
        }
        a = a + 1;
    }
    let ghost t = v@.skip(a as int);
    assert(strip_quotes_start(t) == t);
    let mut b = v.len();
    assert(t.take(t.len() as int) =~= t);
    while b > a && v[b - 1] == '"'
        invariant
            a <= b <= v@.len(),
            t == v@.skip(a as int),
            strip_quotes_end(t) == strip_quotes_end(t.take(b - a)),
        decreases b - a,
    {
        proof {
            lemma_strip_end_step(t, b - a);
        }
        b = b - 1;
    }
    assert(t.take(b - a) =~= v@.subrange(a as int, b as int));
    slice_of(v, a, b)
}

fn expanded(value: &Vec<char>, home: &str) -> (r: String)
    ensures
        r@ == expand_home(value@, home@),
{
    let prefix = chars_of("$HOME/");
    let whole = chars_of("$HOME");
    if starts_with(value, &prefix) {
        proof {
            reveal_strlit("$HOME/");
        }
        let rest = string_from(&slice_of(value, 6, value.len()));
        assert(rest@ =~= value@.skip(6));
        join_path(home, rest.as_str())
    } else if same_chars(value, &whole) {
        home.to_owned()
    } else {
        string_from(value)
    }
}

/// Parses the contents of `user-dirs.dirs`.
///
/// The file writes paths as `"$HOME/Downloads"`.
pub fn parse_user_dirs(text: &str, home: &str) -> (r: Vec<(String, String)>)
    ensures
        Seq::new(r@.len(), |i: int| (r@[i].0@, r@[i].1@)) == user_dir_entries(lines(text@), home@),
{
    let chars = chars_of(text);
    let ls = lines_of(&chars);
    let mut r: Vec<(String, String)> = Vec::new();
    let mut i: usize = 0;
    assert(views(ls@).take(0) =~= Seq::<Seq<char>>::empty());
    assert(Seq::new(r@.len(), |k: int| (r@[k].0@, r@[k].1@)) =~= Seq::<(Seq<char>, Seq<char>)>::empty());
    while i < ls.len()
        invariant
            i <= ls@.len(),
            views(ls@) == lines(text@),
            Seq::new(r@.len(), |k: int| (r@[k].0@, r@[k].1@)) == user_dir_entries(views(ls@).take(i as int), home@),
        decreases ls@.len() - i,
    {
        let ghost before = Seq::new(r@.len(), |k: int| (r@[k].0@, r@[k].1@));
        assert(views(ls@).take(i + 1).drop_last() =~= views(ls@).take(i as int));
        assert(views(ls@).take(i + 1).last() == ls@[i as int]@);
        let line = trimmed(&ls[i]);
        if line.len() > 0 && line[0] != '#' {
            match split_once_at(&line, '=') {
                Some((k, v)) => {
                    let key = string_from(&trimmed(&k));
                    let value = unquoted(&trimmed(&v));
                    let path = expanded(&value, home);
                    r.push((key, path));
                    assert(Seq::new(r@.len(), |m: int| (r@[m].0@, r@[m].1@)) =~= before.push(
                        user_dir_line(ls@[i as int]@, home@)->0,
                    ));
                },
                None => {},
            }
        }
        i = i + 1;
    }
    assert(views(ls@).take(ls@.len() as int) =~= views(ls@));
    r
}

/// The value of the first entry for `key`.
pub open spec fn first_value(dirs: Seq<(Seq<char>, Seq<char>)>, key: Seq<char>) -> Option<Seq<char>>
    decreases dirs.len(),
{
    if dirs.len() == 0 {
        None
    } else if dirs[0].0 == key {
        Some(dirs[0].1)
    } else {
        first_value(dirs.drop_first(), key)
    }
}

/// The standard folders offered, in the order shown: XDG key, label, icon.
pub open spec fn candidate_folders() -> Seq<(Seq<char>, Seq<char>, Seq<char>)> {
    seq![
        ("XDG_DESKTOP_DIR"@, "Рабочий стол"@, "user-desktop"@),
        ("XDG_DOWNLOAD_DIR"@, "Загрузки"@, "folder-download"@),
        ("XDG_DOCUMENTS_DIR"@, "Документы"@, "folder-documents"@),
        ("XDG_PICTURES_DIR"@, "Изображения"@, "folder-pictures"@),
        ("XDG_MUSIC_DIR"@, "Музыка"@, "folder-music"@),
        ("XDG_VIDEOS_DIR"@, "Видео"@, "folder-videos"@),
    ]
}

/// The text view of a place.
pub open spec fn place_view(p: Place) -> (Seq<char>, Seq<char>, Seq<char>) {
    (p.label@, p.path@, p.icon@)
}

fn lookup_first(dirs: &Vec<(String, String)>, key: &str) -> (r: Option<String>)
    ensures
        match r {
            Some(v) => first_value(Seq::new(dirs@.len(), |i: int| (dirs@[i].0@, dirs@[i].1@)), key@) == Some(v@),
            None => first_value(Seq::new(dirs@.len(), |i: int| (dirs@[i].0@, dirs@[i].1@)), key@) is None,
        },
{
    let ghost all = Seq::new(dirs@.len(), |i: int| (dirs@[i].0@, dirs@[i].1@));
    let mut i: usize = 0;
    assert(all.skip(0) =~= all);
    while i < dirs.len()
        invariant
            i <= dirs@.len(),
            all == Seq::new(dirs@.len(), |i: int| (dirs@[i].0@, dirs@[i].1@)),
            first_value(all, key@) == first_value(all.skip(i as int), key@),
        decreases dirs@.len() - i,
    {
        assert(all.skip(i as int)[0] == all[i as int]);
        assert(all.skip(i as int).drop_first() =~= all.skip(i + 1));
        if crate::text::str_eq(dirs[i].0.as_str(), key) {
            return Some(dirs[i].1.clone());
        }
        i = i + 1;
    }
    None
}

/// The side bar: home first, then each standard folder that the user's
/// folder list names, that is not home itself and that `is_dir` reports as
/// an existing directory, then the root of the file system.
///
/// Folders that are missing are left out: an entry leading nowhere is worse
/// than no entry.
pub fn standard_places(home: &str, user_dirs: &Vec<(String, String)>, is_dir: impl Fn(&str) -> bool) -> (r: Vec<Place>)
    requires
        forall|p: &str| #[trigger] is_dir.requires((p,)),
    ensures
        r@.len() >= 2,
        place_view(r@[0]) == ("Домашняя папка"@, home@, "user-home"@),
        place_view(r@.last()) == ("Файловая система"@, "/"@, "drive-harddisk"@),
        exists|chosen: Seq<int>| {
            &&& #[trigger] chosen.len() == r@.len() - 2
            &&& forall|k: int, m: int| 0 <= k < m < chosen.len() ==> chosen[k] < chosen[m]
            &&& forall|k: int| 0 <= k < chosen.len() ==> {
                let c = candidate_folders()[chosen[k]];
                let dirs = Seq::new(user_dirs@.len(), |i: int| (user_dirs@[i].0@, user_dirs@[i].1@));
                &&& 0 <= #[trigger] chosen[k] < 6
                &&& first_value(dirs, c.0) is Some
                &&& !same_path(first_value(dirs, c.0)->0, home@)
                &&& place_view(r@[k + 1]) == (c.1, first_value(dirs, c.0)->0, c.2)
                &&& exists|p: &str| p@ == r@[k + 1].path@ && is_dir.ensures((p,), true)
            }
            &&& forall|j: int| 0 <= j < 6 && !chosen.contains(j) ==> {
                let c = candidate_folders()[j];
                let dirs = Seq::new(user_dirs@.len(), |i: int| (user_dirs@[i].0@, user_dirs@[i].1@));
                ||| first_value(dirs, c.0) is None
                ||| same_path(first_value(dirs, c.0)->0, home@)
                ||| exists|p: &str| p@ == first_value(dirs, c.0)->0 && is_dir.ensures((p,), false)
            }
        },
{
    let ghost dirs = Seq::new(user_dirs@.len(), |i: int| (user_dirs@[i].0@, user_dirs@[i].1@));
    let mut places: Vec<Place> = Vec::new();
    places.push(Place { label: "Домашняя папка".to_owned(), path: home.to_owned(), icon: "user-home" });
    let keys: [&str; 6] = ["XDG_DESKTOP_DIR", "XDG_DOWNLOAD_DIR", "XDG_DOCUMENTS_DIR", "XDG_PICTURES_DIR", "XDG_MUSIC_DIR", "XDG_VIDEOS_DIR"];
    let labels: [&str; 6] = ["Рабочий стол", "Загрузки", "Документы", "Изображения", "Музыка", "Видео"];
    let icons: [&'static str; 6] = ["user-desktop", "folder-download", "folder-documents", "folder-pictures", "folder-music", "folder-videos"];
    proof {
        assert(keys@ =~= seq!["XDG_DESKTOP_DIR", "XDG_DOWNLOAD_DIR", "XDG_DOCUMENTS_DIR", "XDG_PICTURES_DIR", "XDG_MUSIC_DIR", "XDG_VIDEOS_DIR"]);
        assert(labels@ =~= seq!["Рабочий стол", "Загрузки", "Документы", "Изображения", "Музыка", "Видео"]);
        assert(icons@ =~= seq!["user-desktop", "folder-download", "folder-documents", "folder-pictures", "folder-music", "folder-videos"]);
    }
    let ghost mut chosen: Seq<int> = Seq::empty();
    let mut c: usize = 0;
    while c < 6
        invariant
            c <= 6,
            dirs == Seq::new(user_dirs@.len(), |i: int| (user_dirs@[i].0@, user_dirs@[i].1@)),
            forall|j: int| 0 <= j < 6 ==> (#[trigger] keys@[j])@ == candidate_folders()[j].0
                && labels@[j]@ == candidate_folders()[j].1 && icons@[j]@ == candidate_folders()[j].2,
            places@.len() == chosen.len() + 1,
            place_view(places@[0]) == ("Домашняя папка"@, home@, "user-home"@),
            forall|k: int, m: int| 0 <= k < m < chosen.len() ==> chosen[k] < chosen[m],
            forall|k: int| 0 <= k < chosen.len() ==> 0 <= #[trigger] chosen[k] < c,
            forall|k: int| 0 <= k < chosen.len() ==> {
                let cf = candidate_folders()[#[trigger] chosen[k]];
                &&& first_value(dirs, cf.0) is Some
                &&& !same_path(first_value(dirs, cf.0)->0, home@)
                &&& place_view(places@[k + 1]) == (cf.1, first_value(dirs, cf.0)->0, cf.2)
                &&& exists|p: &str| p@ == places@[k + 1].path@ && is_dir.ensures((p,), true)
            },
            forall|j: int| 0 <= j < c && !chosen.contains(j) ==> {
                let cf = candidate_folders()[j];
                ||| first_value(dirs, cf.0) is None
                ||| same_path(first_value(dirs, cf.0)->0, home@)
                ||| exists|p: &str| p@ == first_value(dirs, cf.0)->0 && is_dir.ensures((p,), false)
            },
            forall|p: &str| #[trigger] is_dir.requires((p,)),
        decreases 6 - c,
    {
        let found = lookup_first(user_dirs, keys[c]);
        let ghost cf = candidate_folders()[c as int];
        assert(keys@[c as int]@ == cf.0);
        match found {
            Some(path) => {
                if !paths_equal(path.as_str(), home) {
                    let path_str = path.as_str();
                    let exists = is_dir(path_str);
                    let ghost ps: &str = path_str;
                    if exists {
                        let ghost before = chosen;
                        proof {
                            assert(is_dir.ensures((ps,), true));
                        }
                        places.push(Place { label: labels[c].to_owned(), path, icon: icons[c] });
                        proof {
                            chosen = chosen.push(c as int);
                            assert forall|j: int| 0 <= j < c + 1 && !chosen.contains(j) implies {
                                let cf2 = candidate_folders()[j];
                                ||| first_value(dirs, cf2.0) is None
                                ||| same_path(first_value(dirs, cf2.0)->0, home@)
                                ||| exists|p: &str| p@ == first_value(dirs, cf2.0)->0 && is_dir.ensures((p,), false)
                            } by {
                                if j < c {
                                    assert(!before.contains(j)) by {
                                        if before.contains(j) {
                                            let k = choose|k: int| 0 <= k < before.len() && before[k] == j;
                                            assert(chosen[k] == j);
                                        }
                                    }
                                } else {
                                    assert(chosen[chosen.len() - 1] == j);
                                }
                            }
                        }
                    } else {
                        proof {
                            assert(is_dir.ensures((ps,), false));
                            assert forall|j: int| 0 <= j < c + 1 && !chosen.contains(j) implies {
                                let cf2 = candidate_folders()[j];
                                ||| first_value(dirs, cf2.0) is None
                                ||| same_path(first_value(dirs, cf2.0)->0, home@)
                                ||| exists|p: &str| p@ == first_value(dirs, cf2.0)->0 && is_dir.ensures((p,), false)
                            } by {
                                if j == c {
                                    assert(ps@ == first_value(dirs, candidate_folders()[j].0)->0);
                                }
                            }
                        }
                    }
                }
            },
            None => {},
        }
        c = c + 1;
    }
    places.push(Place { label: "Файловая система".to_owned(), path: "/".to_owned(), icon: "drive-harddisk" });
    proof {
        assert forall|k: int| 0 <= k < chosen.len() implies 0 <= #[trigger] chosen[k] < 6 by {}
    }
    places
}

} // verus!
