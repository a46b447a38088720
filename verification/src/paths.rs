//! Where the desktop keeps its files.
//!
//! Everything follows the XDG Base Directory rules: settings under
//! `$XDG_CONFIG_HOME`, derived files under `$XDG_CACHE_HOME`, sockets under
//! `$XDG_RUNTIME_DIR`, and no dot directories right in the home folder.
//! The environment is read by the caller; these functions decide what its
//! values mean.

use vstd::prelude::*;

use crate::path_ops::{join_path, joined_path, parent_of, parent_path};
use crate::sound::{answered_no, answered_yes};
use crate::text::{chars_of, split_chars, split_on, string_from, views};

verus! {

/// The name of the desktop's directory inside the standard XDG places.
pub const APP_DIR: &'static str = "hypede";

/// The value of an environment variable, an empty one counting as unset.
pub open spec fn set_value(v: Option<Seq<char>>) -> Option<Seq<char>> {
    match v {
        Some(s) => if s.len() > 0 {
            Some(s)
        } else {
            None
        },
        None => None,
    }
}

/// The desktop's directory under an XDG base: the variable when it is set,
/// else `fallback` under the home directory.
pub open spec fn xdg_dir(xdg: Option<Seq<char>>, home: Option<Seq<char>>, fallback: Seq<char>) -> Option<Seq<char>> {
    match set_value(xdg) {
        Some(x) => Some(joined_path(x, "hypede"@)),
        None => match home {
            Some(h) => Some(joined_path(joined_path(h, fallback), "hypede"@)),
            None => None,
        },
    }
}

/// The text of an optional string slice.
pub open spec fn opt_view(v: Option<&str>) -> Option<Seq<char>> {
    match v {
        Some(s) => Some(s@),
        None => None,
    }
}

/// The text of an optional string.
pub open spec fn opt_string(v: Option<String>) -> Option<Seq<char>> {
    match v {
        Some(s) => Some(s@),
        None => None,
    }
}

fn non_empty(v: Option<&str>) -> (r: Option<&str>)
    ensures
        opt_view(r) == set_value(opt_view(v)),
{
    match v {
        Some(s) => if !s.is_empty() {
            Some(s)
        } else {
            None
        },
        None => None,
    }
}

fn xdg_dir_of(xdg: Option<&str>, home: Option<&str>, fallback: &str) -> (r: Option<String>)
    ensures
        opt_string(r) == xdg_dir(opt_view(xdg), opt_view(home), fallback@),
{
    match non_empty(xdg) {
        Some(x) => Some(join_path(x, APP_DIR)),
        None => match home {
            Some(h) => {
                let base = join_path(h, fallback);
                Some(join_path(base.as_str(), APP_DIR))
            },
            None => None,
        },
    }
}

/// The settings directory, usually `~/.config/hypede`, from
/// `$XDG_CONFIG_HOME` and the home directory.
pub fn config_dir_from(xdg_config_home: Option<&str>, home: Option<&str>) -> (r: Option<String>)
    ensures
        opt_string(r) == xdg_dir(opt_view(xdg_config_home), opt_view(home), ".config"@),
{
    xdg_dir_of(xdg_config_home, home, ".config")
}

/// The directory of derived files, usually `~/.cache/hypede`, from
/// `$XDG_CACHE_HOME` and the home directory.
pub fn cache_dir_from(xdg_cache_home: Option<&str>, home: Option<&str>) -> (r: Option<String>)
    ensures
        opt_string(r) == xdg_dir(opt_view(xdg_cache_home), opt_view(home), ".cache"@),
{
    xdg_dir_of(xdg_cache_home, home, ".cache")
}

/// The main settings file inside the settings directory.
pub fn config_file(config_dir: Option<&str>) -> (r: Option<String>)
    ensures
        opt_string(r) == match config_dir {
            Some(d) => Some(joined_path(d@, "config.toml"@)),
            None => None,
        },
{
    match config_dir {
        Some(d) => Some(join_path(d, "config.toml")),
        None => None,
    }
}

/// The CSS made from the theme for the desktop's GTK applications. The file
/// is derived and rewritten at every change of theme, so it lives in the
/// cache, not among the settings.
pub fn generated_css_file(cache_dir: Option<&str>) -> (r: Option<String>)
    ensures
        opt_string(r) == match cache_dir {
            Some(d) => Some(joined_path(d@, "theme.css"@)),
            None => None,
        },
{
    match cache_dir {
        Some(d) => Some(join_path(d, "theme.css")),
        None => None,
    }
}

/// The socket that controls the compositor. Its name holds
/// `$WAYLAND_DISPLAY` (`wayland-0` when that is unset), so that two sessions
/// on one machine do not fight over one file.
pub fn control_socket_from(runtime_dir: Option<&str>, wayland_display: Option<&str>) -> (r: Option<String>)
    ensures
        opt_string(r) == match set_value(opt_view(runtime_dir)) {
            Some(d) => Some(joined_path(
                d,
                "hypede-"@ + match wayland_display {
                    Some(w) => w@,
                    None => "wayland-0"@,
                } + ".sock"@,
            )),
            None => None,
        },
{
    match non_empty(runtime_dir) {
        Some(d) => {
            let mut name = "hypede-".to_owned();
            match wayland_display {
                Some(w) => name.append(w),
                None => name.append("wayland-0"),
            }
            name.append(".sock");
            Some(join_path(d, name.as_str()))
        },
        None => None,
    }
}

/// `p` after going up `n` directories, stopping at the top.
pub open spec fn ancestor(p: Seq<char>, n: nat) -> Seq<char>
    decreases n,
{
    if n == 0 {
        p
    } else {
        match parent_path(p) {
            Some(q) => ancestor(q, (n - 1) as nat),
            None => p,
        }
    }
}

/// The directory the user named for the desktop's files, if any.
pub open spec fn custom_assets(custom: Option<Seq<char>>) -> Seq<Seq<char>> {
    match set_value(custom) {
        Some(c) => seq![c],
        None => Seq::empty(),
    }
}

/// The desktop's directory in the user's data directory, if one is known.
pub open spec fn user_assets(data_home: Option<Seq<char>>, home: Option<Seq<char>>) -> Seq<Seq<char>> {
    match set_value(data_home) {
        Some(d) => seq![joined_path(d, "hypede"@)],
        None => match home {
            Some(h) => seq![joined_path(joined_path(h, ".local/share"@), "hypede"@)],
            None => Seq::empty(),
        },
    }
}

/// The desktop's directories among the system's data.
pub open spec fn system_assets() -> Seq<Seq<char>> {
    seq![joined_path("/usr/share"@, "hypede"@), joined_path("/usr/local/share"@, "hypede"@)]
}

/// The `assets` directories beside the program and up to three levels above.
pub open spec fn build_assets(exe: Option<Seq<char>>) -> Seq<Seq<char>> {
    match exe {
        Some(e) => match parent_path(e) {
            Some(dir) => seq![
                joined_path(dir, "assets"@),
                joined_path(ancestor(dir, 1), "assets"@),
                joined_path(ancestor(dir, 2), "assets"@),
                joined_path(ancestor(dir, 3), "assets"@),
            ],
            None => Seq::empty(),
        },
        None => Seq::empty(),
    }
}

/// Where the desktop's own files (wallpapers, sounds, icons) are looked for,
/// in this order: the directory the user named, the user's data directory,
/// the system's, and last the `assets` directories beside the program and up
/// to three levels above it, so that a build runs without installing.
pub open spec fn asset_dirs_spec(
    custom: Option<Seq<char>>,
    data_home: Option<Seq<char>>,
    home: Option<Seq<char>>,
    exe: Option<Seq<char>>,
) -> Seq<Seq<char>> {
    custom_assets(custom) + user_assets(data_home, home) + system_assets() + build_assets(exe)
}

fn ancestor_of(p: &str, n: usize) -> (r: String)
    ensures
        r@ == ancestor(p@, n as nat),
    decreases n,
{
    if n == 0 {
        p.to_owned()
    } else {
        match parent_of(p) {
            Some(q) => ancestor_of(q.as_str(), n - 1),
            None => p.to_owned(),
        }
    }
}

fn push_dir(dirs: &mut Vec<String>, d: String)
    ensures
        views_of(final(dirs)@) == views_of(old(dirs)@).push(d@),
{
    dirs.push(d);
    assert(views_of(dirs@) =~= views_of(old(dirs)@).push(d@));
}

/// The directories of the desktop's own files, from `$HYPEDE_ASSETS_DIR`,
/// `$XDG_DATA_HOME`, the home directory and the path of the running program.
pub fn asset_dirs_from(
    custom: Option<&str>,
    data_home: Option<&str>,
    home: Option<&str>,
    exe: Option<&str>,
) -> (r: Vec<String>)
    ensures
        views_of(r@) == asset_dirs_spec(opt_view(custom), opt_view(data_home), opt_view(home), opt_view(exe)),
{
    let mut dirs: Vec<String> = Vec::new();
    match non_empty(custom) {
        Some(c) => push_dir(&mut dirs, c.to_owned()),
        None => {},
    }
    assert(views_of(dirs@) =~= custom_assets(opt_view(custom)));
    let ghost a = views_of(dirs@);
    match non_empty(data_home) {
        Some(d) => push_dir(&mut dirs, join_path(d, APP_DIR)),
        None => match home {
            Some(h) => {
                let share = join_path(h, ".local/share");
                push_dir(&mut dirs, join_path(share.as_str(), APP_DIR));
            },
            None => {},
        },
    }
    assert(views_of(dirs@) =~= a + user_assets(opt_view(data_home), opt_view(home)));
    let ghost b = views_of(dirs@);
    push_dir(&mut dirs, join_path("/usr/share", APP_DIR));
    push_dir(&mut dirs, join_path("/usr/local/share", APP_DIR));
    assert(views_of(dirs@) =~= b + system_assets());
    let ghost c = views_of(dirs@);
    match exe {
        Some(e) => match parent_of(e) {
            Some(dir) => {
                push_dir(&mut dirs, join_path(dir.as_str(), "assets"));
                let mut up: usize = 1;
                while up <= 3
                    invariant
                        1 <= up <= 4,
                        views_of(dirs@) == c + seq![joined_path(dir@, "assets"@)] + Seq::new(
                            (up - 1) as nat,
                            |k: int| joined_path(ancestor(dir@, (k + 1) as nat), "assets"@),
                        ),
                    decreases 4 - up,
                {
                    let candidate = ancestor_of(dir.as_str(), up);
                    let ghost before = views_of(dirs@);
                    push_dir(&mut dirs, join_path(candidate.as_str(), "assets"));
                    assert(views_of(dirs@) =~= c + seq![joined_path(dir@, "assets"@)] + Seq::new(
                        up as nat,
                        |k: int| joined_path(ancestor(dir@, (k + 1) as nat), "assets"@),
                    ));
                    up = up + 1;
                }
                assert(views_of(dirs@) =~= c + build_assets(opt_view(exe)));
            },
            None => {
                assert(views_of(dirs@) =~= c + build_assets(opt_view(exe)));
            },
        },
        None => {
            assert(views_of(dirs@) =~= c + build_assets(opt_view(exe)));
        },
    }
    dirs
}

/// The texts of a list of strings.
pub open spec fn views_of(v: Seq<String>) -> Seq<Seq<char>> {
    Seq::new(v.len(), |i: int| v[i]@)
}

/// The `applications` directories of the non-empty pieces, in order.
pub open spec fn applications_in(pieces: Seq<Seq<char>>) -> Seq<Seq<char>>
    decreases pieces.len(),
{
    if pieces.len() == 0 {
        Seq::empty()
    } else {
        let r = applications_in(pieces.drop_last());
        if pieces.last().len() > 0 {
            r.push(joined_path(pieces.last(), "applications"@))
        } else {
            r
        }
    }
}

/// Where the `.desktop` files of applications lie, by priority: the user's
/// data directory first, then each directory of `$XDG_DATA_DIRS` (by default
/// `/usr/local/share:/usr/share`).
pub open spec fn application_dirs_spec(
    data_home: Option<Seq<char>>,
    home: Option<Seq<char>>,
    data_dirs: Option<Seq<char>>,
) -> Seq<Seq<char>> {
    let user = match set_value(data_home) {
        Some(d) => seq![joined_path(d, "applications"@)],
        None => match home {
            Some(h) => seq![joined_path(h, ".local/share/applications"@)],
            None => Seq::empty(),
        },
    };
    let system = match set_value(data_dirs) {
        Some(d) => d,
        None => "/usr/local/share:/usr/share"@,
    };
    user + applications_in(split_on(system, ':'))
}

/// The directories of application entries, from `$XDG_DATA_HOME`, the home
/// directory and `$XDG_DATA_DIRS`.
pub fn application_dirs_from(data_home: Option<&str>, home: Option<&str>, data_dirs: Option<&str>) -> (r: Vec<String>)
    ensures
        views_of(r@) == application_dirs_spec(opt_view(data_home), opt_view(home), opt_view(data_dirs)),
{
    let mut dirs: Vec<String> = Vec::new();
    match non_empty(data_home) {
        Some(d) => dirs.push(join_path(d, "applications")),
        None => match home {
            Some(h) => dirs.push(join_path(h, ".local/share/applications")),
            None => {},
        },
    }
    let ghost user = views_of(dirs@);
    let system = match non_empty(data_dirs) {
        Some(d) => chars_of(d),
        None => chars_of("/usr/local/share:/usr/share"),
    };
    let pieces = split_chars(&system, ':');
    let ghost ps = views(pieces@);
    let mut i: usize = 0;
    while i < pieces.len()
        invariant
            i <= pieces@.len(),
            ps == views(pieces@),
            views_of(dirs@) == user + applications_in(ps.take(i as int)),
        decreases pieces@.len() - i,
    {
        assert(ps.take(i + 1).drop_last() =~= ps.take(i as int));
        assert(ps.take(i + 1).last() == pieces@[i as int]@);
        let ghost before = views_of(dirs@);
        if pieces[i].len() > 0 {
            let piece = string_from(&pieces[i]);
            let d = join_path(piece.as_str(), "applications");
            dirs.push(d);
            assert(views_of(dirs@) =~= before.push(d@));
        }
        assert(views_of(dirs@) =~= user + applications_in(ps.take(i + 1)));
        i = i + 1;
    }
    assert(ps.take(ps.len() as int) =~= ps);
    dirs
}

/// `p` is the first of the candidates `dir/relative` for which `present`
/// answered yes, having answered no for all before it.
pub open spec fn first_found<F: Fn(&str) -> bool>(present: F, dirs: Seq<Seq<char>>, relative: Seq<char>, p: Seq<char>) -> bool {
    exists|i: int| #![trigger dirs[i]] {
        &&& 0 <= i < dirs.len()
        &&& p == joined_path(dirs[i], relative)
        &&& answered_yes(present, p)
        &&& forall|j: int| 0 <= j < i ==> answered_no(present, joined_path(#[trigger] dirs[j], relative))
    }
}

/// `present` answered no for every candidate `dir/relative`.
pub open spec fn none_found<F: Fn(&str) -> bool>(present: F, dirs: Seq<Seq<char>>, relative: Seq<char>) -> bool {
    forall|j: int| 0 <= j < dirs.len() ==> answered_no(present, joined_path(#[trigger] dirs[j], relative))
}

/// Looks for one of the desktop's files, such as `"wallpapers/bay.png"`: the
/// first directory in which `present` finds it.
pub fn find_asset<F: Fn(&str) -> bool>(dirs: &Vec<String>, relative: &str, present: F) -> (r: Option<String>)
    requires
        forall|p: &str| #[trigger] present.requires((p,)),
    ensures
        match r {
            Some(p) => first_found(present, views_of(dirs@), relative@, p@),
            None => none_found(present, views_of(dirs@), relative@),
        },
{
    let ghost ds = views_of(dirs@);
    let mut i: usize = 0;
    while i < dirs.len()
        invariant
            i <= dirs@.len(),
            ds == views_of(dirs@),
            forall|p: &str| #[trigger] present.requires((p,)),
            forall|j: int| 0 <= j < i ==> answered_no(present, joined_path(#[trigger] ds[j], relative@)),
        decreases dirs@.len() - i,
    {
        let candidate = join_path(dirs[i].as_str(), relative);
        assert(ds[i as int] == dirs@[i as int]@);
        if present(candidate.as_str()) {
            assert(answered_yes(present, candidate@));
            return Some(candidate);
        }
        assert(answered_no(present, joined_path(ds[i as int], relative@)));
        i = i + 1;
    }
    None
}

/// The wallpaper the desktop shows until the user picks one.
pub fn default_wallpaper<F: Fn(&str) -> bool>(dirs: &Vec<String>, present: F) -> (r: Option<String>)
    requires
        forall|p: &str| #[trigger] present.requires((p,)),
    ensures
        match r {
            Some(p) => first_found(present, views_of(dirs@), "wallpapers/bay.png"@, p@),
            None => none_found(present, views_of(dirs@), "wallpapers/bay.png"@),
        },
{
    find_asset(dirs, "wallpapers/bay.png", present)
}

} // verus!
