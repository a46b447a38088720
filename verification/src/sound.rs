//! Sounds of the desktop.
//!
//! The desktop has no sound engine of its own: the system already has
//! PipeWire or PulseAudio with their players. The shell only picks one that is
//! available and starts it as a separate process.

use vstd::prelude::*;

use crate::path_ops::{join_path, joined_path};
use crate::paths::{find_asset, first_found, none_found, views_of};

verus! {

/// An event that has a sound of its own.
#[derive(Debug, Clone, Copy, PartialEq, Eq, Structural)]
pub enum Sound {
    /// Start of the session.
    Startup,
    /// A notification.
    Notification,
    /// The volume changed.
    Volume,
    /// An error.
    Error,
    /// End of the session.
    Logout,
}

/// The file of each sound in a sound set.
pub open spec fn sound_file(s: Sound) -> Seq<char> {
    match s {
        Sound::Startup => "startup.wav"@,
        Sound::Notification => "notification.wav"@,
        Sound::Volume => "volume.wav"@,
        Sound::Error => "error.wav"@,
        Sound::Logout => "logout.wav"@,
    }
}

impl Sound {
    /// The file name in the sound set.
    pub fn file_name(self) -> (r: &'static str)
        ensures
            r@ == sound_file(self),
    {
        match self {
            Sound::Startup => "startup.wav",
            Sound::Notification => "notification.wav",
            Sound::Volume => "volume.wav",
            Sound::Error => "error.wav",
            Sound::Logout => "logout.wav",
        }
    }
}

/// The players, in order of preference: `pw-play` first, since PipeWire
/// holds the sound and talking to it directly is the shorter way.
pub open spec fn players() -> Seq<Seq<char>> {
    seq!["pw-play"@, "paplay"@, "aplay"@]
}

/// `present` answered no for the program called `name`.
pub open spec fn answered_no<F: Fn(&str) -> bool>(present: F, name: Seq<char>) -> bool {
    exists|q: &str| q@ == name && present.ensures((q,), false)
}

/// `present` answered yes for the file or program called `name`.
pub open spec fn answered_yes<F: Fn(&str) -> bool>(present: F, name: Seq<char>) -> bool {
    exists|q: &str| q@ == name && present.ensures((q,), true)
}

/// Picks an available player: the first of the list for which `present`
/// answers yes.
///
/// `present` says whether a program is installed; taking it as a parameter
/// lets the choice be checked without installing anything.
pub fn pick_player<F: Fn(&str) -> bool>(present: F) -> (r: Option<&'static str>)
    requires
        forall|p: &str| #[trigger] present.requires((p,)),
    ensures
        match r {
            Some(p) => exists|i: int| {
                &&& 0 <= i < 3
                &&& p@ == #[trigger] players()[i]
                &&& present.ensures((p,), true)
                &&& forall|j: int| 0 <= j < i ==> answered_no(present, #[trigger] players()[j])
            },
            None => forall|j: int| 0 <= j < 3 ==> answered_no(present, #[trigger] players()[j]),
        },
{
    let list: [&'static str; 3] = ["pw-play", "paplay", "aplay"];
    let mut i: usize = 0;
    while i < 3
        invariant
            i <= 3,
            list@ == seq!["pw-play", "paplay", "aplay"],
            forall|j: int| 0 <= j < i ==> answered_no(present, #[trigger] players()[j]),
            forall|p: &str| #[trigger] present.requires((p,)),
        decreases 3 - i,
    {
        let player = list[i];
        assert(player@ == players()[i as int]);
        if present(player) {
            return Some(player);
        }
        assert(answered_no(present, players()[i as int]));
        i = i + 1;
    }
    None
}

/// The file of a sound: in the user's sound set when `present` finds it
/// there, else among the desktop's own files under `sounds/`.
pub fn sound_path<F: Fn(&str) -> bool>(
    theme_dir: Option<&str>,
    sound: Sound,
    asset_dirs: &Vec<String>,
    present: F,
) -> (r: Option<String>)
    requires
        forall|p: &str| #[trigger] present.requires((p,)),
    ensures
        match r {
            Some(p) => {
                ||| (theme_dir matches Some(d) && p@ == joined_path(d@, sound_file(sound)) && answered_yes(present, p@))
                ||| ((theme_dir matches Some(d) ==> answered_no(present, joined_path(d@, sound_file(sound))))
                    && first_found(present, views_of(asset_dirs@), "sounds/"@ + sound_file(sound), p@))
            },
            None => (theme_dir matches Some(d) ==> answered_no(present, joined_path(d@, sound_file(sound))))
                && none_found(present, views_of(asset_dirs@), "sounds/"@ + sound_file(sound)),
        },
{
    match theme_dir {
        Some(dir) => {
            let candidate = join_path(dir, sound.file_name());
            if present(candidate.as_str()) {
                return Some(candidate);
            }
        },
        None => {},
    }
    let mut relative = "sounds/".to_owned();
    relative.append(sound.file_name());
    find_asset(asset_dirs, relative.as_str(), present)
}

} // verus!
