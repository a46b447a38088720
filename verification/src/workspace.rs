//! Workspaces and focus.
//!
//! The whole memory of the session about which window sits on which
//! workspace and which of them has the keyboard focus. Nothing here talks to
//! Wayland, so every rule about focus is a contract proved below.

use vstd::prelude::*;

use crate::ipc::WorkspaceInfo;
use crate::text::{decimal, decimal_string};

verus! {

/// One workspace.
#[derive(Debug, Clone, PartialEq)]
pub struct Workspace {
    pub index: u8,
    /// Windows in layout order: the first one is the master.
    pub windows: Vec<u64>,
}

/// The mathematical picture of all workspaces of a session.
#[verifier::ext_equal]
pub struct WorkspacesView {
    /// Windows of each workspace; workspace number `i + 1` sits at `spaces[i]`.
    pub spaces: Seq<Seq<u64>>,
    /// Number (from one) of the active workspace.
    pub active: int,
    /// The window with the keyboard focus.
    pub focused: Option<u64>,
}

/// `p` is the first place where `w` occurs in `s`.
pub open spec fn is_first_pos(s: Seq<u64>, w: u64, p: int) -> bool {
    &&& 0 <= p < s.len()
    &&& s[p] == w
    &&& forall|j: int| 0 <= j < p ==> s[j] != w
}

/// The first place where `w` occurs in `s` (meaningful when `s` contains `w`).
pub open spec fn first_pos(s: Seq<u64>, w: u64) -> int {
    choose|p: int| is_first_pos(s, w, p)
}

/// `s` with the first occurrence of `w` taken out; `s` itself when `w` is absent.
pub open spec fn remove_first(s: Seq<u64>, w: u64) -> Seq<u64> {
    if s.contains(w) {
        s.remove(first_pos(s, w))
    } else {
        s
    }
}

/// The window that inherits the focus when `w` leaves the list `s`: the one
/// that moves into its place, else the new last one, else nobody.
pub open spec fn neighbour_after_removal(s: Seq<u64>, w: u64) -> Option<u64> {
    if s.contains(w) {
        let rest = remove_first(s, w);
        let p = first_pos(s, w);
        if p < rest.len() {
            Some(rest[p])
        } else if rest.len() > 0 {
            Some(rest.last())
        } else {
            None
        }
    } else {
        None
    }
}

/// The first element of a list, if any.
pub open spec fn first_of(s: Seq<u64>) -> Option<u64> {
    if s.len() > 0 {
        Some(s[0])
    } else {
        None
    }
}

impl WorkspacesView {
    /// At least one workspace, the active one exists, and the focus is either
    /// nowhere or on a window of the active workspace.
    pub open spec fn wf(self) -> bool {
        &&& 1 <= self.spaces.len() <= 255
        &&& 1 <= self.active <= self.spaces.len()
        &&& (self.focused matches Some(f) ==> self.visible().contains(f))
    }

    /// Windows of the active workspace.
    pub open spec fn visible(self) -> Seq<u64> {
        self.spaces[self.active - 1]
    }

    /// Does workspace number `index` exist.
    pub open spec fn exists_index(self, index: int) -> bool {
        1 <= index <= self.spaces.len()
    }

    /// A fresh session with `count` workspaces (at least one), all empty.
    pub open spec fn fresh(count: u8) -> WorkspacesView {
        let n = if count == 0 { 1 } else { count as int };
        WorkspacesView { spaces: Seq::new(n as nat, |i: int| Seq::<u64>::empty()), active: 1, focused: None }
    }

    /// The window goes to the front of the active workspace and takes the focus.
    pub open spec fn with_window(self, w: u64) -> WorkspacesView {
        WorkspacesView {
            spaces: self.spaces.update(self.active - 1, seq![w] + self.visible()),
            active: self.active,
            focused: Some(w),
        }
    }

    /// The window leaves every workspace; if it had the focus, its neighbour on
    /// the active workspace inherits it.
    pub open spec fn without_window(self, w: u64) -> WorkspacesView {
        WorkspacesView {
            spaces: Seq::new(self.spaces.len(), |i: int| remove_first(self.spaces[i], w)),
            active: self.active,
            focused: if self.focused == Some(w) {
                neighbour_after_removal(self.visible(), w)
            } else {
                self.focused
            },
        }
    }

    /// Workspace `index` becomes active, with the focus on its first window.
    pub open spec fn switched_to(self, index: int) -> WorkspacesView {
        WorkspacesView {
            spaces: self.spaces,
            active: index,
            focused: first_of(self.spaces[index - 1]),
        }
    }

    /// Number of the workspace after the active one, going round.
    pub open spec fn next_index(self) -> int {
        if self.active >= self.spaces.len() { 1 } else { self.active + 1 }
    }

    /// Number of the workspace before the active one, going round.
    pub open spec fn prev_index(self) -> int {
        if self.active <= 1 { self.spaces.len() as int } else { self.active - 1 }
    }

    /// The focused window `w` leaves every workspace, goes to the front of
    /// workspace `index`, which becomes active with `w` focused.
    pub open spec fn moved_to(self, w: u64, index: int) -> WorkspacesView {
        let removed = self.without_window(w);
        WorkspacesView {
            spaces: removed.spaces.update(index - 1, seq![w] + removed.spaces[index - 1]),
            active: index,
            focused: Some(w),
        }
    }

    /// Can the focused window be sent to workspace `index`.
    pub open spec fn can_move_to(self, index: int) -> bool {
        &&& self.focused is Some
        &&& self.exists_index(index)
        &&& index != self.active
    }

    /// Workspace number holding `w` first, counting from workspace one.
    pub open spec fn is_first_holder(self, w: u64, index: int) -> bool {
        &&& self.exists_index(index)
        &&& self.spaces[index - 1].contains(w)
        &&& forall|j: int| 0 <= j < index - 1 ==> !self.spaces[j].contains(w)
    }

    /// `a` and `b` trade places on the active workspace.
    pub open spec fn swapped(self, a: u64, b: u64) -> WorkspacesView {
        let s = self.visible();
        let pa = first_pos(s, a);
        let pb = first_pos(s, b);
        WorkspacesView {
            spaces: self.spaces.update(self.active - 1, s.update(pa, s[pb]).update(pb, s[pa])),
            active: self.active,
            focused: self.focused,
        }
    }
}

/// All workspaces of a session.
#[derive(Debug, Clone, PartialEq)]
pub struct Workspaces {
    spaces: Vec<Workspace>,
    active: u8,
    focused: Option<u64>,
}

proof fn lemma_first_pos_unique(s: Seq<u64>, w: u64, p: int)
    requires
        is_first_pos(s, w, p),
    ensures
        first_pos(s, w) == p,
        s.contains(w),
{
    assert(s[p] == w);
    let q = first_pos(s, w);
    assert(is_first_pos(s, w, q));
    if q < p {
        assert(s[q] != w);
    }
    if p < q {
        assert(s[p] != w);
    }
}

proof fn lemma_first_pos_exists(s: Seq<u64>, w: u64)
    requires
        s.contains(w),
    ensures
        is_first_pos(s, w, first_pos(s, w)),
    decreases s.len(),
{
    let i = choose|i: int| 0 <= i < s.len() && s[i] == w;
    if s[0] == w {
        assert(is_first_pos(s, w, 0));
    } else {
        let t = s.drop_first();
        assert(t[i - 1] == w);
        lemma_first_pos_exists(t, w);
        let q = first_pos(t, w);
        assert forall|j: int| 0 <= j < q + 1 implies s[j] != w by {
            if j > 0 {
                assert(s[j] == t[j - 1]);
            }
        }
        assert(is_first_pos(s, w, q + 1));
    }
}

/// Removing `w` keeps every other window.
proof fn lemma_remove_first_keeps_others(s: Seq<u64>, w: u64, x: u64)
    requires
        s.contains(x),
        x != w,
    ensures
        remove_first(s, w).contains(x),
{
    if s.contains(w) {
        lemma_first_pos_exists(s, w);
        let p = first_pos(s, w);
        let i = choose|i: int| 0 <= i < s.len() && s[i] == x;
        let r = s.remove(p);
        if i < p {
            assert(r[i] == x);
        } else {
            assert(i != p);
            assert(r[i - 1] == x);
        }
    }
}

/// Finds the first place of `w` in `v`.
fn position_of(v: &Vec<u64>, w: u64) -> (r: Option<usize>)
    ensures
        match r {
            Some(p) => is_first_pos(v@, w, p as int),
            None => !v@.contains(w),
        },
{
    let mut i: usize = 0;
    while i < v.len()
        invariant
            i <= v@.len(),
            forall|j: int| 0 <= j < i ==> v@[j] != w,
        decreases v@.len() - i,
    {
        if v[i] == w {
            return Some(i);
        }
        i = i + 1;
    }
    None
}

impl Workspace {
    fn new(index: u8) -> (r: Self)
        ensures
            r.index == index,
            r.windows@ == Seq::<u64>::empty(),
    {
        Workspace { index, windows: Vec::new() }
    }
}

impl View for Workspaces {
    type V = WorkspacesView;

    closed spec fn view(&self) -> WorkspacesView {
        WorkspacesView {
            spaces: Seq::new(self.spaces@.len(), |i: int| self.spaces@[i].windows@),
            active: self.active as int,
            focused: self.focused,
        }
    }
}

impl Workspaces {
    /// Well-formed: the picture is well-formed and every workspace knows its
    /// own number.
    pub closed spec fn wf(&self) -> bool {
        &&& self@.wf()
        &&& forall|i: int| 0 <= i < self.spaces@.len() ==> self.spaces@[i].index == i + 1
    }

    /// A well-formed session has a well-formed picture, so the laws about
    /// `WorkspacesView` apply to it.
    pub proof fn view_is_well_formed(&self)
        requires
            self.wf(),
        ensures
            self@.wf(),
    {
    }

    /// Creates `count` workspaces numbered from one.
    ///
    /// Zero workspaces is impossible: there would be nowhere to show windows.
    pub fn new(count: u8) -> (r: Self)
        ensures
            r.wf(),
            r@ =~= WorkspacesView::fresh(count),
    {
        let count = if count == 0 { 1 } else { count };
        let mut spaces: Vec<Workspace> = Vec::new();
        let mut i: u8 = 0;
        while i < count
            invariant
                i <= count,
                spaces@.len() == i,
                forall|j: int| 0 <= j < spaces@.len() ==> spaces@[j].index == j + 1,
                forall|j: int| 0 <= j < spaces@.len() ==> spaces@[j].windows@ == Seq::<u64>::empty(),
            decreases count - i,
        {
            spaces.push(Workspace::new(i + 1));
            i = i + 1;
        }
        let r = Workspaces { spaces, active: 1, focused: None };
        assert(r@.spaces =~= WorkspacesView::fresh(count).spaces);
        r
    }

    pub fn count(&self) -> (r: u8)
        requires
            self.wf(),
        ensures
            r as int == self@.spaces.len(),
    {
        self.spaces.len() as u8
    }

    pub fn active_index(&self) -> (r: u8)
        ensures
            r as int == self@.active,
    {
        self.active
    }

    pub fn focused(&self) -> (r: Option<u64>)
        ensures
            r == self@.focused,
    {
        self.focused
    }

    pub fn active(&self) -> (r: &Workspace)
        requires
            self.wf(),
        ensures
            r.index as int == self@.active,
            r.windows@ == self@.visible(),
    {
        &self.spaces[self.active as usize - 1]
    }

    /// Workspace number `index`, counting from one.
    pub fn get(&self, index: u8) -> (r: Option<&Workspace>)
        requires
            self.wf(),
        ensures
            r is Some <==> self@.exists_index(index as int),
            r matches Some(ws) ==> ws.index == index && ws.windows@ == self@.spaces[index - 1],
    {
        if index == 0 || index as usize > self.spaces.len() {
            None
        } else {
            Some(&self.spaces[index as usize - 1])
        }
    }

    pub fn all(&self) -> (r: &[Workspace])
        requires
            self.wf(),
        ensures
            r@.len() == self@.spaces.len(),
            forall|i: int| 0 <= i < r@.len() ==> r@[i].index == i + 1 && #[trigger] r@[i].windows@ == self@.spaces[i],
    {
        self.spaces.as_slice()
    }

    /// Windows of the active workspace.
    pub fn visible_windows(&self) -> (r: &[u64])
        requires
            self.wf(),
        ensures
            r@ == self@.visible(),
    {
        self.active().windows.as_slice()
    }

    /// The workspace a window sits on.
    pub fn workspace_of(&self, window: u64) -> (r: Option<u8>)
        requires
            self.wf(),
        ensures
            match r {
                Some(index) => self@.is_first_holder(window, index as int),
                None => forall|j: int| 0 <= j < self@.spaces.len() ==> !self@.spaces[j].contains(window),
            },
    {
        let mut i: usize = 0;
        while i < self.spaces.len()
            invariant
                self.wf(),
                i <= self.spaces@.len(),
                forall|j: int| 0 <= j < i ==> !self@.spaces[j].contains(window),
            decreases self.spaces@.len() - i,
        {
            if position_of(&self.spaces[i].windows, window).is_some() {
                assert(self@.spaces[i as int] == self.spaces@[i as int].windows@);
                return Some(self.spaces[i].index);
            }
            assert(self@.spaces[i as int] == self.spaces@[i as int].windows@);
            i = i + 1;
        }
        None
    }

    /// Puts a new window on the active workspace and gives it the focus.
    ///
    /// The window goes to the front: a freshly opened application becomes the
    /// master instead of disappearing at the tail of the stack.
    pub fn add_window(&mut self, window: u64)
        requires
            old(self).wf(),
        ensures
            final(self).wf(),
            final(self)@ =~= old(self)@.with_window(window),
    {
        let index = self.active as usize - 1;
        self.spaces[index].windows.insert(0, window);
        self.focused = Some(window);
        assert(self@.spaces[index as int] =~= seq![window] + old(self)@.visible());
        assert(self@.spaces =~= old(self)@.with_window(window).spaces);
        assert(self@.visible()[0] == window);
    }

    /// Takes a window away from every workspace.
    ///
    /// If it had the focus, the focus goes to its neighbour on the same
    /// workspace: leaving the user with no focus after closing a window is
    /// not an option.
    pub fn remove_window(&mut self, window: u64)
        requires
            old(self).wf(),
        ensures
            final(self).wf(),
            final(self)@ =~= old(self)@.without_window(window),
    {
        let ghost pre = self@;
        let was_focused = match self.focused {
            Some(f) => f == window,
            None => false,
        };
        let mut neighbour: Option<u64> = None;
        let mut i: usize = 0;
        while i < self.spaces.len()
            invariant
                i <= self.spaces@.len(),
                self.spaces@.len() == pre.spaces.len(),
                self.active as int == pre.active,
                self.focused == pre.focused,
                pre.wf(),
                forall|j: int| 0 <= j < self.spaces@.len() ==> self.spaces@[j].index == j + 1,
                forall|j: int| 0 <= j < i ==> self.spaces@[j].windows@ == remove_first(pre.spaces[j], window),
                forall|j: int| i <= j < self.spaces@.len() ==> self.spaces@[j].windows@ == pre.spaces[j],
                i < pre.active ==> neighbour is None,
                i >= pre.active ==> neighbour == neighbour_after_removal(pre.visible(), window),
            decreases self.spaces@.len() - i,
        {
            let found = position_of(&self.spaces[i].windows, window);
            match found {
                Some(position) => {
                    proof {
                        lemma_first_pos_unique(self.spaces@[i as int].windows@, window, position as int);
                    }
                    self.spaces[i].windows.remove(position);
                    if self.spaces[i].index == self.active {
                        let len = self.spaces[i].windows.len();
                        if position < len {
                            neighbour = Some(self.spaces[i].windows[position]);
                        } else if len > 0 {
                            neighbour = Some(self.spaces[i].windows[len - 1]);
                        } else {
                            neighbour = None;
                        }
                    }
                },
                None => {
                    if self.spaces[i].index == self.active {
                        neighbour = None;
                    }
                },
            }
            i = i + 1;
        }
        if was_focused {
            self.focused = neighbour;
        }
        assert(self@.spaces =~= pre.without_window(window).spaces);
        proof {
            let post = pre.without_window(window);
            if let Some(f) = post.focused {
                if was_focused {
                    lemma_first_pos_exists(pre.visible(), window);
                    let rest = remove_first(pre.visible(), window);
                    let p = first_pos(pre.visible(), window);
                    if p < rest.len() {
                        assert(rest[p] == f);
                    } else {
                        assert(rest[rest.len() - 1] == f);
                    }
                    assert(post.visible().contains(f));
                } else {
                    lemma_remove_first_keeps_others(pre.visible(), window, f);
                }
            }
        }
    }

    /// Switches to another workspace.
    ///
    /// Returns `false` when there is no such workspace. The focus moves to the
    /// first window of the new workspace; an empty one leaves the focus on
    /// nothing.
    pub fn activate(&mut self, index: u8) -> (r: bool)
        requires
            old(self).wf(),
        ensures
            final(self).wf(),
            r == old(self)@.exists_index(index as int),
            r ==> final(self)@ =~= old(self)@.switched_to(index as int),
            !r ==> final(self)@ =~= old(self)@,
    {
        if index == 0 || index as usize > self.spaces.len() {
            return false;
        }
        self.active = index;
        let first = if self.spaces[index as usize - 1].windows.len() > 0 {
            Some(self.spaces[index as usize - 1].windows[0])
        } else {
            None
        };
        self.focused = first;
        proof {
            if let Some(f) = self.focused {
                assert(self@.visible()[0] == f);
            }
        }
        true
    }

    /// The next workspace, going round.
    pub fn activate_next(&mut self)
        requires
            old(self).wf(),
        ensures
            final(self).wf(),
            final(self)@ =~= old(self)@.switched_to(old(self)@.next_index()),
    {
        let next = if self.active as usize >= self.spaces.len() { 1 } else { self.active + 1 };
        self.activate(next);
    }

    /// The previous workspace, going round.
    pub fn activate_prev(&mut self)
        requires
            old(self).wf(),
        ensures
            final(self).wf(),
            final(self)@ =~= old(self)@.switched_to(old(self)@.prev_index()),
    {
        let prev = if self.active <= 1 { self.count() } else { self.active - 1 };
        self.activate(prev);
    }

    /// Sends the focused window to another workspace and follows it there.
    ///
    /// Following is deliberate: whoever sends a window away almost always
    /// wants to go on working with it.
    pub fn move_focused_to(&mut self, index: u8) -> (r: bool)
        requires
            old(self).wf(),
        ensures
            final(self).wf(),
            r == old(self)@.can_move_to(index as int),
            r ==> final(self)@ =~= old(self)@.moved_to(old(self)@.focused->0, index as int),
            !r ==> final(self)@ =~= old(self)@,
    {
        let window = match self.focused {
            Some(w) => w,
            None => {
                return false;
            },
        };
        if index == 0 || index as usize > self.spaces.len() || index == self.active {
            return false;
        }
        let ghost pre = self@;
        self.remove_window(window);
        let ghost mid = self@;
        assert(mid =~= pre.without_window(window));
        let target = index as usize - 1;
        self.spaces[target].windows.insert(0, window);
        self.active = index;
        self.focused = Some(window);
        assert(self@.spaces[target as int] =~= seq![window] + mid.spaces[target as int]);
        assert(self@.spaces =~= pre.moved_to(window, index as int).spaces);
        assert(self@.visible()[0] == window);
        true
    }

    /// Puts the focus on a given window if it is visible.
    pub fn focus_window(&mut self, window: u64) -> (r: bool)
        requires
            old(self).wf(),
        ensures
            final(self).wf(),
            r == old(self)@.visible().contains(window),
            r ==> final(self)@ =~= (WorkspacesView { focused: Some(window), ..old(self)@ }),
            !r ==> final(self)@ =~= old(self)@,
    {
        let index = self.active as usize - 1;
        if position_of(&self.spaces[index].windows, window).is_none() {
            return false;
        }
        self.focused = Some(window);
        true
    }

    /// Two windows of the active workspace trade places in the layout order.
    ///
    /// The tiling follows the order of the list, so this is how a window is
    /// moved inside the tiling. Returns `false`, changing nothing, unless both
    /// windows are on the active workspace.
    pub fn swap_windows(&mut self, a: u64, b: u64) -> (r: bool)
        requires
            old(self).wf(),
        ensures
            final(self).wf(),
            r == (old(self)@.visible().contains(a) && old(self)@.visible().contains(b)),
            r ==> final(self)@ =~= old(self)@.swapped(a, b),
            !r ==> final(self)@ =~= old(self)@,
    {
        let index = self.active as usize - 1;
        let pa = match position_of(&self.spaces[index].windows, a) {
            Some(p) => p,
            None => {
                return false;
            },
        };
        let pb = match position_of(&self.spaces[index].windows, b) {
            Some(p) => p,
            None => {
                return false;
            },
        };
        let ghost pre = self@;
        proof {
            lemma_first_pos_unique(pre.visible(), a, pa as int);
            lemma_first_pos_unique(pre.visible(), b, pb as int);
        }
        let wa = self.spaces[index].windows[pa];
        let wb = self.spaces[index].windows[pb];
        self.spaces[index].windows.set(pa, wb);
        self.spaces[index].windows.set(pb, wa);
        assert(self@.spaces =~= pre.swapped(a, b).spaces);
        proof {
            if let Some(f) = pre.focused {
                let s = pre.visible();
                let t = self@.visible();
                let i = choose|i: int| 0 <= i < s.len() && s[i] == f;
                if i == pa {
                    assert(t[pb as int] == f);
                } else if i == pb {
                    assert(t[pa as int] == f);
                } else {
                    assert(t[i] == f);
                }
            }
        }
        true
    }
}

/// Every operation keeps the session well-formed: there is always at least
/// one workspace, the active one exists, and the focus is either on nothing
/// or on a window of the active workspace.
pub proof fn law_operations_keep_well_formed(m: WorkspacesView, w: u64, index: int, count: u8)
    requires
        m.wf(),
    ensures
        WorkspacesView::fresh(count).wf(),
        m.with_window(w).wf(),
        m.without_window(w).wf(),
        m.exists_index(index) ==> m.switched_to(index).wf(),
        m.switched_to(m.next_index()).wf(),
        m.switched_to(m.prev_index()).wf(),
        m.can_move_to(index) ==> m.moved_to(m.focused->0, index).wf(),
{
    assert(m.with_window(w).visible()[0] == w);
    lemma_without_window_wf(m, w);
    if m.exists_index(index) {
        lemma_switched_wf(m, index);
    }
    lemma_switched_wf(m, m.next_index());
    lemma_switched_wf(m, m.prev_index());
    if m.can_move_to(index) {
        let r = m.without_window(m.focused->0);
        let moved = m.moved_to(m.focused->0, index);
        assert(moved.visible()[0] == m.focused->0);
    }
}

proof fn lemma_switched_wf(m: WorkspacesView, index: int)
    requires
        m.wf(),
        m.exists_index(index),
    ensures
        m.switched_to(index).wf(),
{
    let n = m.switched_to(index);
    if let Some(f) = n.focused {
        assert(n.visible()[0] == f);
    }
}

proof fn lemma_without_window_wf(m: WorkspacesView, w: u64)
    requires
        m.wf(),
    ensures
        m.without_window(w).wf(),
{
    let post = m.without_window(w);
    assert(post.visible() == remove_first(m.visible(), w));
    if let Some(f) = post.focused {
        if m.focused == Some(w) {
            lemma_first_pos_exists(m.visible(), w);
            let rest = remove_first(m.visible(), w);
            let p = first_pos(m.visible(), w);
            if p < rest.len() {
                assert(rest[p] == f);
            } else {
                assert(rest[rest.len() - 1] == f);
            }
        } else {
            lemma_remove_first_keeps_others(m.visible(), w, f);
        }
    }
}

/// Closing a window that was just opened gives back the workspaces as they
/// were, with the focus on the window that was the master before.
pub proof fn law_open_then_close_restores(m: WorkspacesView, w: u64)
    requires
        m.wf(),
        forall|i: int| 0 <= i < m.spaces.len() ==> !m.spaces[i].contains(w),
    ensures
        m.with_window(w).without_window(w).spaces == m.spaces,
        m.with_window(w).without_window(w).active == m.active,
        m.with_window(w).without_window(w).focused == first_of(m.visible()),
{
    let a = m.with_window(w);
    let b = a.without_window(w);
    assert(is_first_pos(a.visible(), w, 0));
    lemma_first_pos_unique(a.visible(), w, 0);
    assert forall|i: int| 0 <= i < m.spaces.len() implies b.spaces[i] == m.spaces[i] by {
        if i == m.active - 1 {
            assert(remove_first(a.spaces[i], w) =~= m.spaces[i]);
        } else {
            assert(a.spaces[i] == m.spaces[i]);
        }
    }
    assert(b.spaces =~= m.spaces);
    if m.visible().len() > 0 {
        assert(remove_first(a.visible(), w) =~= m.visible());
    }
}

/// Going to the next workspace and back to the previous one returns to the
/// workspace we started on, and neither step moves a window.
pub proof fn law_next_then_prev_returns(m: WorkspacesView)
    requires
        m.wf(),
    ensures
        m.switched_to(m.next_index()).switched_to(m.switched_to(m.next_index()).prev_index()).active
            == m.active,
        m.switched_to(m.next_index()).spaces == m.spaces,
        m.switched_to(m.prev_index()).switched_to(m.switched_to(m.prev_index()).next_index()).active
            == m.active,
{
}

/// A window that appears at most once on each workspace is gone from all of
/// them once it is removed.
pub proof fn law_removed_window_is_gone(m: WorkspacesView, w: u64)
    requires
        m.wf(),
        forall|i: int, p: int, q: int|
            0 <= i < m.spaces.len() && 0 <= p < m.spaces[i].len() && 0 <= q < m.spaces[i].len()
                && m.spaces[i][p] == w && m.spaces[i][q] == w ==> p == q,
    ensures
        forall|i: int| 0 <= i < m.spaces.len() ==> !(#[trigger] m.without_window(w).spaces[i]).contains(w),
        m.without_window(w).focused != Some(w),
{
    assert forall|i: int| 0 <= i < m.spaces.len() implies !(#[trigger] m.without_window(w).spaces[i]).contains(w) by {
        let s = m.spaces[i];
        if s.contains(w) {
            lemma_first_pos_exists(s, w);
            let p = first_pos(s, w);
            let r = s.remove(p);
            assert forall|k: int| 0 <= k < r.len() implies r[k] != w by {
                if k < p {
                    assert(r[k] == s[k]);
                } else {
                    assert(r[k] == s[k + 1]);
                }
            }
        }
    }
    let post = m.without_window(w);
    law_operations_keep_well_formed(m, w, 1, 1);
    if post.focused == Some(w) {
        assert(post.visible() == post.spaces[m.active - 1]);
    }
}

/// Closing the focused window hands the focus on within its workspace: to
/// the window that slides into its place (the one right after it); where it
/// was the last, to the one before it; where it was alone, to nobody.
pub proof fn law_focus_passes_to_the_next_window(m: WorkspacesView, w: u64, p: int)
    requires
        m.wf(),
        m.focused == Some(w),
        0 <= p < m.visible().len(),
        m.visible()[p] == w,
        forall|j: int| 0 <= j < p ==> m.visible()[j] != w,
    ensures
        p + 1 < m.visible().len() ==> m.without_window(w).focused == Some(m.visible()[p + 1]),
        p + 1 == m.visible().len() && p > 0 ==> m.without_window(w).focused == Some(m.visible()[p - 1]),
        m.visible().len() == 1 ==> m.without_window(w).focused is None,
{
    let s = m.visible();
    assert(is_first_pos(s, w, p));
    lemma_first_pos_unique(s, w, p);
    let rest = s.remove(p);
    assert(remove_first(s, w) == rest);
    if p + 1 < s.len() {
        assert(rest[p] == s[p + 1]);
    } else if p > 0 {
        assert(rest.last() == s[p - 1]);
    }
}

/// A window sent to another workspace ends up at the front of it, that
/// workspace becomes the active one, and the window keeps the focus.
pub proof fn law_moved_window_follows(m: WorkspacesView, index: int)
    requires
        m.wf(),
        m.can_move_to(index),
    ensures
        m.moved_to(m.focused->0, index).active == index,
        m.moved_to(m.focused->0, index).visible()[0] == m.focused->0,
        m.moved_to(m.focused->0, index).focused == m.focused,
        m.moved_to(m.focused->0, index).spaces.len() == m.spaces.len(),
{
}


/// What the control protocol reports of workspace `i` (from zero): its
/// number, named by its digits, how many windows it holds, whether it is the
/// active one, and the monitor that shows it.
pub open spec fn is_info_of(info: WorkspaceInfo, m: WorkspacesView, i: int, output: Seq<char>) -> bool {
    &&& info.index == i + 1
    &&& info.name@ == decimal((i + 1) as nat)
    &&& info.windows == m.spaces[i].len()
    &&& info.active == (i + 1 == m.active)
    &&& info.output@ == output
}

/// The workspaces as the control protocol reports them, all on the monitor
/// named `output`.
pub fn workspace_infos(spaces: &Workspaces, output: &str) -> (r: Vec<WorkspaceInfo>)
    requires
        spaces.wf(),
    ensures
        r@.len() == spaces@.spaces.len(),
        forall|i: int| 0 <= i < r@.len() ==> is_info_of(#[trigger] r@[i], spaces@, i, output@),
{
    let all = spaces.all();
    let active = spaces.active_index();
    let mut r: Vec<WorkspaceInfo> = Vec::new();
    assert forall|j: int| 0 <= j < all@.len() implies #[trigger] all@[j].index == j + 1 by {
        assert(all@[j].windows@ == spaces@.spaces[j]);
    }
    let mut i: usize = 0;
    while i < all.len()
        invariant
            i <= all@.len() == spaces@.spaces.len(),
            active as int == spaces@.active,
            r@.len() == i,
            forall|j: int| 0 <= j < all@.len() ==> #[trigger] all@[j].index == j + 1,
            forall|j: int| 0 <= j < all@.len() ==> #[trigger] all@[j].windows@ == spaces@.spaces[j],
            forall|j: int| 0 <= j < i ==> is_info_of(#[trigger] r@[j], spaces@, j, output@),
        decreases all@.len() - i,
    {
        let workspace = &all[i];
        assert(workspace.windows@ == spaces@.spaces[i as int]);
        let info = WorkspaceInfo {
            index: workspace.index,
            name: decimal_string(workspace.index as u64),
            windows: workspace.windows.len(),
            active: workspace.index == active,
            output: output.to_owned(),
        };
        r.push(info);
        i = i + 1;
    }
    r
}

} // verus!
