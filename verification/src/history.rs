//! Navigation history: the "back" and "forward" buttons of the file manager.

use vstd::prelude::*;

use crate::path_ops::{
    component_names, join_path, joined_path, path_components, paths_equal, same_path,
    strip_path_prefix, stripped_prefix,
};

verus! {

/// How many steps are kept. Beyond that the history is cut from the start: a
/// million jumps in one session must not become a million paths in memory.
pub const LIMIT: usize = 256;

/// The mathematical picture of a history.
#[verifier::ext_equal]
pub struct HistoryView {
    /// Visited directories, oldest first.
    pub entries: Seq<Seq<char>>,
    /// Where in `entries` the user is now.
    pub position: int,
}

impl HistoryView {
    /// Never empty, never longer than the limit, the position inside.
    pub open spec fn wf(self) -> bool {
        &&& 1 <= self.entries.len() <= LIMIT
        &&& 0 <= self.position < self.entries.len()
    }

    pub open spec fn current(self) -> Seq<char> {
        self.entries[self.position]
    }

    pub open spec fn can_go_back(self) -> bool {
        self.position > 0
    }

    pub open spec fn can_go_forward(self) -> bool {
        self.position + 1 < self.entries.len()
    }

    /// The history after visiting `path`: a visit to the directory already
    /// shown changes nothing; otherwise everything "forward" is dropped, the
    /// path is appended, the oldest entries beyond the limit are dropped, and
    /// the new path becomes current.
    pub open spec fn pushed(self, path: Seq<char>) -> HistoryView {
        if same_path(self.current(), path) {
            self
        } else {
            let kept = self.entries.take(self.position + 1).push(path);
            let trimmed = if kept.len() > LIMIT { kept.skip(kept.len() - LIMIT) } else { kept };
            HistoryView { entries: trimmed, position: trimmed.len() - 1 }
        }
    }

    /// One step back (meaningful when possible).
    pub open spec fn stepped_back(self) -> HistoryView {
        HistoryView { entries: self.entries, position: self.position - 1 }
    }

    /// One step forward (meaningful when possible).
    pub open spec fn stepped_forward(self) -> HistoryView {
        HistoryView { entries: self.entries, position: self.position + 1 }
    }
}

/// The log of visited directories.
///
/// Behaves like a browser history: going somewhere new from the middle of the
/// log cuts off everything that was "forward".
#[derive(Debug, Clone)]
pub struct History {
    entries: Vec<String>,
    position: usize,
}

impl View for History {
    type V = HistoryView;

    closed spec fn view(&self) -> HistoryView {
        HistoryView {
            entries: Seq::new(self.entries@.len(), |i: int| self.entries@[i]@),
            position: self.position as int,
        }
    }
}

impl History {
    pub closed spec fn wf(&self) -> bool {
        self@.wf()
    }

    /// A well-formed history has a well-formed picture, so the laws about
    /// `HistoryView` apply to it.
    pub proof fn view_is_well_formed(&self)
        requires
            self.wf(),
        ensures
            self@.wf(),
    {
    }

    pub fn new(start: &str) -> (r: Self)
        ensures
            r.wf(),
            r@ =~= (HistoryView { entries: seq![start@], position: 0 }),
    {
        let mut entries: Vec<String> = Vec::new();
        entries.push(start.to_owned());
        History { entries, position: 0 }
    }

    pub fn current(&self) -> (r: &str)
        requires
            self.wf(),
        ensures
            r@ == self@.current(),
    {
        self.entries[self.position].as_str()
    }

    pub fn can_go_back(&self) -> (r: bool)
        ensures
            r == self@.can_go_back(),
    {
        self.position > 0
    }

    pub fn can_go_forward(&self) -> (r: bool)
        requires
            self.wf(),
        ensures
            r == self@.can_go_forward(),
    {
        self.position + 1 < self.entries.len()
    }

    /// Records a visit to a new directory.
    ///
    /// Visiting the same directory again does not clutter the history:
    /// otherwise "back" would stop working after a refresh of the view.
    pub fn push(&mut self, path: &str)
        requires
            old(self).wf(),
        ensures
            final(self).wf(),
            final(self)@ =~= old(self)@.pushed(path@),
    {
        let ghost pre = self@;
        if paths_equal(self.current(), path) {
            return;
        }
        self.entries.truncate(self.position + 1);
        self.entries.push(path.to_owned());
        let ghost kept = pre.entries.take(pre.position + 1).push(path@);
        let ghost kept_s = self.entries@;
        assert(self@.entries =~= kept);
        if self.entries.len() > LIMIT {
            let excess = self.entries.len() - LIMIT;
            let mut removed: usize = 0;
            while removed < excess
                invariant
                    removed <= excess,
                    excess == kept_s.len() - LIMIT,
                    kept_s.len() == kept.len(),
                    forall|k: int| 0 <= k < kept.len() ==> #[trigger] kept_s[k]@ == kept[k],
                    self.entries@ =~= kept_s.skip(removed as int),
                decreases excess - removed,
            {
                self.entries.remove(0);
                removed = removed + 1;
                assert(self.entries@ =~= kept_s.skip(removed as int));
            }
            assert(self@.entries =~= kept.skip(excess as int));
        }
        self.position = self.entries.len() - 1;
    }

    /// One step back. Returns the new current directory.
    pub fn back(&mut self) -> (r: Option<&str>)
        requires
            old(self).wf(),
        ensures
            final(self).wf(),
            r is Some == old(self)@.can_go_back(),
            r is Some ==> final(self)@ =~= old(self)@.stepped_back() && r->0@ == final(self)@.current(),
            r is None ==> final(self)@ =~= old(self)@,
    {
        if !self.can_go_back() {
            return None;
        }
        self.position = self.position - 1;
        Some(self.entries[self.position].as_str())
    }

    /// One step forward.
    pub fn forward(&mut self) -> (r: Option<&str>)
        requires
            old(self).wf(),
        ensures
            final(self).wf(),
            r is Some == old(self)@.can_go_forward(),
            r is Some ==> final(self)@ =~= old(self)@.stepped_forward() && r->0@ == final(self)@.current(),
            r is None ==> final(self)@ =~= old(self)@,
    {
        if !self.can_go_forward() {
            return None;
        }
        self.position = self.position + 1;
        Some(self.entries[self.position].as_str())
    }
}

/// After visiting a new directory, "back" leads to the directory that was
/// current before, and there is nothing "forward".
pub proof fn law_back_after_push_returns(h: HistoryView, path: Seq<char>)
    requires
        h.wf(),
        !same_path(h.current(), path),
    ensures
        h.pushed(path).wf(),
        h.pushed(path).current() == path,
        !h.pushed(path).can_go_forward(),
        h.pushed(path).can_go_back(),
        h.pushed(path).stepped_back().current() == h.current(),
{
    let kept = h.entries.take(h.position + 1).push(path);
    let n = h.pushed(path);
    assert(kept[kept.len() - 2] == h.current());
    if kept.len() > LIMIT {
        let t = kept.skip(kept.len() - LIMIT);
        assert(t[t.len() - 2] == kept[kept.len() - 2]);
    }
}

/// Visiting the directory already shown changes nothing.
pub proof fn law_push_same_is_noop(h: HistoryView, path: Seq<char>)
    requires
        h.wf(),
        same_path(h.current(), path),
    ensures
        h.pushed(path) == h,
{
}

/// A step back undone by a step forward (and the other way round) leaves the
/// history as it was.
pub proof fn law_back_and_forward_undo_each_other(h: HistoryView)
    requires
        h.wf(),
    ensures
        h.can_go_back() ==> h.stepped_back().wf() && h.stepped_back().can_go_forward()
            && h.stepped_back().stepped_forward() == h,
        h.can_go_forward() ==> h.stepped_forward().wf() && h.stepped_forward().can_go_back()
            && h.stepped_forward().stepped_back() == h,
{
}

/// The path reached by joining `parts[..n]` one by one onto `start`.
pub open spec fn folded_path(start: Seq<char>, parts: Seq<Seq<char>>, n: nat) -> Seq<char>
    decreases n,
{
    if n == 0 {
        start
    } else {
        joined_path(folded_path(start, parts, (n - 1) as nat), parts[n - 1])
    }
}

/// A crumb for `start` labelled `label`, then one crumb per part: the part's
/// text and the path reached so far.
pub open spec fn crumb_trail(label: Seq<char>, start: Seq<char>, parts: Seq<Seq<char>>) -> Seq<(Seq<char>, Seq<char>)> {
    seq![(label, start)] + Seq::new(parts.len(), |k: int| (parts[k], folded_path(start, parts, (k + 1) as nat)))
}

/// All components but the first (the root), if there are any.
pub open spec fn after_root(names: Seq<Seq<char>>) -> Seq<Seq<char>> {
    if names.len() == 0 { names } else { names.skip(1) }
}

/// What `breadcrumbs` returns.
pub open spec fn breadcrumbs_spec(path: Seq<char>, home: Option<Seq<char>>) -> Seq<(Seq<char>, Seq<char>)> {
    if home is Some && stripped_prefix(path, home->0) is Some {
        crumb_trail(seq!['~'], home->0, component_names(stripped_prefix(path, home->0)->0))
    } else {
        crumb_trail(seq!['/'], seq!['/'], after_root(component_names(path)))
    }
}

fn trail(label: &str, start: &str, parts: &Vec<String>, skip: usize) -> (r: Vec<(String, String)>)
    requires
        skip <= parts@.len(),
    ensures
        r@.len() == parts@.len() - skip + 1,
        forall|i: int| 0 <= i < r@.len() ==> (#[trigger] r@[i]).0@ == crumb_trail(label@, start@,
            Seq::new((parts@.len() - skip) as nat, |k: int| parts@[k + skip]@))[i].0
            && r@[i].1@ == crumb_trail(label@, start@,
            Seq::new((parts@.len() - skip) as nat, |k: int| parts@[k + skip]@))[i].1,
{
    let ghost names = Seq::new((parts@.len() - skip) as nat, |k: int| parts@[k + skip]@);
    let ghost expected = crumb_trail(label@, start@, names);
    let mut crumbs: Vec<(String, String)> = Vec::new();
    crumbs.push((label.to_owned(), start.to_owned()));
    let mut current: String = start.to_owned();
    let mut i: usize = skip;
    while i < parts.len()
        invariant
            skip <= i <= parts@.len(),
            names == Seq::new((parts@.len() - skip) as nat, |k: int| parts@[k + skip]@),
            expected == crumb_trail(label@, start@, names),
            crumbs@.len() == i - skip + 1,
            current@ == folded_path(start@, names, (i - skip) as nat),
            forall|j: int| 0 <= j < crumbs@.len() ==> (#[trigger] crumbs@[j]).0@ == expected[j].0
                && crumbs@[j].1@ == expected[j].1,
        decreases parts@.len() - i,
    {
        let part = parts[i].as_str();
        current = join_path(current.as_str(), part);
        assert(names[(i - skip) as int] == parts@[i as int]@);
        crumbs.push((part.to_owned(), current.clone()));
        i = i + 1;
    }
    crumbs
}

/// Splits a path into breadcrumbs: a label and the path it leads to.
///
/// The home directory is shown as a single `~` crumb rather than the chain
/// `/ home name`: what matters to the user is the start of their own tree.
pub fn breadcrumbs(path: &str, home: Option<&str>) -> (r: Vec<(String, String)>)
    ensures
        r@.len() == breadcrumbs_spec(path@, match home { Some(h) => Some(h@), None => None }).len(),
        forall|i: int| 0 <= i < r@.len() ==> (#[trigger] r@[i]).0@
            == breadcrumbs_spec(path@, match home { Some(h) => Some(h@), None => None })[i].0
            && r@[i].1@ == breadcrumbs_spec(path@, match home { Some(h) => Some(h@), None => None })[i].1,
{
    if let Some(home) = home {
        if let Some(relative) = strip_path_prefix(path, home) {
            let parts = path_components(relative.as_str());
            let r = trail("~", home, &parts, 0);
            proof {
                reveal_strlit("~");
                assert("~"@ =~= seq!['~']);
                let names = Seq::new((parts@.len() - 0) as nat, |k: int| parts@[k + 0]@);
                assert(names =~= component_names(relative@));
            }
            return r;
        }
    }
    let parts = path_components(path);
    if parts.len() == 0 {
        let mut crumbs: Vec<(String, String)> = Vec::new();
        crumbs.push(("/".to_owned(), "/".to_owned()));
        proof {
            reveal_strlit("/");
            assert("/"@ =~= seq!['/']);
            assert(after_root(component_names(path@)) =~= Seq::<Seq<char>>::empty());
        }
        return crumbs;
    }
    let r = trail("/", "/", &parts, 1);
    proof {
        reveal_strlit("/");
        assert("/"@ =~= seq!['/']);
        let names = Seq::new((parts@.len() - 1) as nat, |k: int| parts@[k + 1]@);
        assert(names =~= after_root(component_names(path@)));
    }
    r
}

} // verus!
