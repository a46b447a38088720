//! The keyboard of the file manager's window: what each key does to the
//! state of the window, and which directory has to be read and shown after
//! it. Reading the directory and drawing it happen in the window itself.

use vstd::prelude::*;

use crate::fs::{Sort, SortBy};
use crate::history::{History, HistoryView};
use crate::path_ops::{parent_of, parent_path};

verus! {

/// The state of a file manager window.
pub struct BrowserState {
    pub history: History,
    pub sort: Sort,
    /// Are entries whose names start with a dot shown.
    pub show_hidden: bool,
}

/// The keys the window reacts to.
#[derive(Debug, Clone, Copy, PartialEq, Eq, Structural)]
pub enum BrowserKey {
    /// The letter H (without Shift).
    H,
    Left,
    Right,
    Up,
    F5,
    /// Any other key.
    Other,
}

/// What the window does after a key.
#[derive(Debug, Clone, PartialEq, Eq)]
pub enum KeyOutcome {
    /// Read the directory at this path and show it.
    Show(String),
    /// The key was taken; there is nothing new to show.
    Stay,
    /// The key is not the window's: it goes on to the widget under focus.
    Pass,
}

/// The outcome by its view: the path to show as characters.
pub enum OutcomeView {
    Show(Seq<char>),
    Stay,
    Pass,
}

impl View for KeyOutcome {
    type V = OutcomeView;

    open spec fn view(&self) -> OutcomeView {
        match self {
            KeyOutcome::Show(path) => OutcomeView::Show(path@),
            KeyOutcome::Stay => OutcomeView::Stay,
            KeyOutcome::Pass => OutcomeView::Pass,
        }
    }
}

/// The field the sort button goes to from `by`.
pub open spec fn next_field(by: SortBy) -> SortBy {
    match by {
        SortBy::Name => SortBy::Size,
        SortBy::Size => SortBy::Modified,
        _ => SortBy::Name,
    }
}

/// What a key does, as a change of the history and the hidden-entries switch
/// and an outcome:
/// - Ctrl+H shows or hides the hidden entries, and the directory is read
///   again;
/// - Alt+Left and Alt+Right step back and forward in the history and show
///   where they lead, if there is a step to take;
/// - Alt+Up goes to the parent directory, recorded in the history, if there is
///   one;
/// - F5 reads the directory again;
/// - every other key passes on.
pub open spec fn key_effect(h: HistoryView, show_hidden: bool, key: BrowserKey, ctrl: bool, alt: bool) -> (
    HistoryView,
    bool,
    OutcomeView,
) {
    if key == BrowserKey::H && ctrl {
        (h, !show_hidden, OutcomeView::Show(h.current()))
    } else if key == BrowserKey::Left && alt {
        if h.can_go_back() {
            (h.stepped_back(), show_hidden, OutcomeView::Show(h.stepped_back().current()))
        } else {
            (h, show_hidden, OutcomeView::Stay)
        }
    } else if key == BrowserKey::Right && alt {
        if h.can_go_forward() {
            (h.stepped_forward(), show_hidden, OutcomeView::Show(h.stepped_forward().current()))
        } else {
            (h, show_hidden, OutcomeView::Stay)
        }
    } else if key == BrowserKey::Up && alt {
        match parent_path(h.current()) {
            Some(parent) => (h.pushed(parent), show_hidden, OutcomeView::Show(parent)),
            None => (h, show_hidden, OutcomeView::Stay),
        }
    } else if key == BrowserKey::F5 {
        (h, show_hidden, OutcomeView::Show(h.current()))
    } else {
        (h, show_hidden, OutcomeView::Pass)
    }
}

impl BrowserState {
    /// A window opened at `start`.
    pub fn new(start: &str, sort: Sort, show_hidden: bool) -> (r: Self)
        ensures
            r.history.wf(),
            r.history@ == (HistoryView { entries: seq![start@], position: 0 }),
            r.sort == sort,
            r.show_hidden == show_hidden,
    {
        BrowserState { history: History::new(start), sort, show_hidden }
    }

    /// The sort button: it goes round the fields (name, size, date, and back
    /// to name; sorting by kind also goes back to name), ascending, and the
    /// directory is read again. Returns the directory to show.
    pub fn click_sort(&mut self) -> (r: String)
        requires
            old(self).history.wf(),
        ensures
            final(self).sort == old(self).sort.toggled(next_field(old(self).sort.by)),
            final(self).sort == (Sort { by: next_field(old(self).sort.by), descending: false }),
            final(self).history@ == old(self).history@,
            final(self).history.wf(),
            final(self).show_hidden == old(self).show_hidden,
            r@ == old(self).history@.current(),
    {
        let next = match self.sort.by {
            SortBy::Name => SortBy::Size,
            SortBy::Size => SortBy::Modified,
            _ => SortBy::Name,
        };
        self.sort = self.sort.toggle(next);
        self.history.current().to_owned()
    }

    /// Handles a key pressed with the given modifiers.
    pub fn press_key(&mut self, key: BrowserKey, ctrl: bool, alt: bool) -> (r: KeyOutcome)
        requires
            old(self).history.wf(),
        ensures
            final(self).history.wf(),
            final(self).sort == old(self).sort,
            (final(self).history@, final(self).show_hidden, r@) == key_effect(
                old(self).history@,
                old(self).show_hidden,
                key,
                ctrl,
                alt,
            ),
    {
        if key == BrowserKey::H && ctrl {
            self.show_hidden = !self.show_hidden;
            KeyOutcome::Show(self.history.current().to_owned())
        } else if key == BrowserKey::Left && alt {
            match self.history.back() {
                Some(path) => KeyOutcome::Show(path.to_owned()),
                None => KeyOutcome::Stay,
            }
        } else if key == BrowserKey::Right && alt {
            match self.history.forward() {
                Some(path) => KeyOutcome::Show(path.to_owned()),
                None => KeyOutcome::Stay,
            }
        } else if key == BrowserKey::Up && alt {
            match parent_of(self.history.current()) {
                Some(parent) => {
                    self.history.push(parent.as_str());
                    KeyOutcome::Show(parent)
                },
                None => KeyOutcome::Stay,
            }
        } else if key == BrowserKey::F5 {
            KeyOutcome::Show(self.history.current().to_owned())
        } else {
            KeyOutcome::Pass
        }
    }
}

/// Reading the directory again (Ctrl+H twice, or F5) leaves the window where
/// it was: the history is untouched and the same directory is shown.
pub proof fn law_showing_again_stays_in_place(h: HistoryView, show_hidden: bool, ctrl: bool, alt: bool)
    requires
        h.wf(),
    ensures
        key_effect(h, show_hidden, BrowserKey::F5, ctrl, alt).0 == h,
        key_effect(h, show_hidden, BrowserKey::F5, ctrl, alt).2 == OutcomeView::Show(h.current()),
        ({
            let once = key_effect(h, show_hidden, BrowserKey::H, true, alt);
            let twice = key_effect(once.0, once.1, BrowserKey::H, true, alt);
            twice.0 == h && twice.1 == show_hidden
        }),
{
}

/// Alt+Left then Alt+Right comes back to the same directory and the same
/// history, when there was a step back to take.
pub proof fn law_back_then_forward_returns(h: HistoryView, show_hidden: bool)
    requires
        h.wf(),
        h.can_go_back(),
    ensures
        ({
            let back = key_effect(h, show_hidden, BrowserKey::Left, false, true);
            let forth = key_effect(back.0, back.1, BrowserKey::Right, false, true);
            forth.0 == h && forth.1 == show_hidden && forth.2 == OutcomeView::Show(h.current())
        }),
{
    let back = h.stepped_back();
    assert(back.can_go_forward());
    assert(back.stepped_forward() =~= h);
}

} // verus!
