use vstd::prelude::*;

use crate::bookmarks::Bookmark;
use crate::settings::FMSettings;

verus! {

/// Shared state of one file manager window.
///
/// A location is the canonical path or URI string of a directory; two
/// locations are the same exactly when their strings are equal.
///
/// Observers are registered by `connect_path_changed`, which hands back a
/// handle; `set_path` answers with the handles to notify, in registration
/// order, and the caller runs the callbacks it keeps under those handles.
pub struct FmState {
    pub current_path: String,
    pub on_path_changed: Vec<usize>,
    pub settings: FMSettings,
    pub hovered_file: Option<String>,
    pub popup_focused_file: Option<String>,
    pub clipboard: Vec<String>,
    pub clipboard_is_cut: bool,
    pub history: Vec<String>,
    pub history_index: usize,
    pub bookmarks: Vec<Bookmark>,
}

/// Why a bookmark operation was refused.
pub enum BookmarkError {
    /// The index is not below the number of bookmarks.
    IndexOutOfRange { index: usize, len: usize },
}

impl FmState {
    /// The history is never empty and its cursor points into it.
    pub open spec fn wf(&self) -> bool {
        &&& self.history@.len() > 0
        &&& self.history_index < self.history@.len()
    }

    /// The entry under the history cursor is the current location.
    pub open spec fn in_step(&self) -> bool {
        self.history@[self.history_index as int] == self.current_path
    }

    /// Everything but the location and its history is as in `other`.
    pub open spec fn same_scratch(&self, other: &FmState) -> bool {
        &&& self.on_path_changed@ == other.on_path_changed@
        &&& self.settings == other.settings
        &&& self.hovered_file == other.hovered_file
        &&& self.popup_focused_file == other.popup_focused_file
        &&& self.clipboard@ == other.clipboard@
        &&& self.clipboard_is_cut == other.clipboard_is_cut
        &&& self.bookmarks@ == other.bookmarks@
    }

    /// Everything but the bookmarks is as in `other`.
    pub open spec fn same_but_bookmarks(&self, other: &FmState) -> bool {
        &&& self.current_path == other.current_path
        &&& self.history@ == other.history@
        &&& self.history_index == other.history_index
        &&& self.on_path_changed@ == other.on_path_changed@
        &&& self.settings == other.settings
        &&& self.hovered_file == other.hovered_file
        &&& self.popup_focused_file == other.popup_focused_file
        &&& self.clipboard@ == other.clipboard@
        &&& self.clipboard_is_cut == other.clipboard_is_cut
    }

    /// What `update_history` makes of `h` with cursor `i`: the entries after
    /// the cursor are dropped and `loc` is appended.
    pub open spec fn pushed_history(h: Seq<String>, i: int, loc: String) -> Seq<String> {
        h.subrange(0, i + 1).push(loc)
    }

    /// `self`'s history is what recording `loc` makes of `old`'s: the
    /// entries after the cursor dropped, `loc` appended, the cursor on it.
    pub open spec fn recorded(&self, old: &FmState, loc: String) -> bool {
        &&& self.history@ == Self::pushed_history(old.history@, old.history_index as int, loc)
        &&& self.history_index == old.history_index + 1
    }

    /// `self` is what navigating to `loc` makes of `old`.
    pub open spec fn navigated(&self, old: &FmState, loc: String) -> bool {
        &&& self.recorded(old, loc)
        &&& self.current_path == loc
        &&& self.same_scratch(old)
    }

    /// `self` is `old` with the cursor moved to `idx` and the location set
    /// to the history entry there.
    pub open spec fn moved_to(&self, old: &FmState, idx: int) -> bool {
        &&& self.history@ == old.history@
        &&& self.history_index == idx
        &&& self.current_path == old.history@[idx]
        &&& self.same_scratch(old)
    }

    pub fn new(current_path: String) -> (s: Self)
        ensures
            s.wf(),
            s.in_step(),
            s.current_path == current_path,
            s.history@ == seq![current_path],
            s.history_index == 0,
            s.on_path_changed@.len() == 0,
            s.settings.is_default(),
            s.hovered_file is None,
            s.popup_focused_file is None,
            s.clipboard@.len() == 0,
            !s.clipboard_is_cut,
            s.bookmarks@.len() == 0,
    {
        let mut history: Vec<String> = Vec::new();
        history.push(current_path.clone());
        FmState {
            current_path,
            on_path_changed: Vec::new(),
            settings: FMSettings::new(),
            hovered_file: None,
            popup_focused_file: None,
            clipboard: Vec::new(),
            clipboard_is_cut: false,
            history,
            history_index: 0,
            bookmarks: Vec::new(),
        }
    }

    /// Makes `new_path` the current location, history untouched; returns
    /// the observers to notify, in registration order.
    pub fn set_path(&mut self, new_path: String) -> (notify: Vec<usize>)
        ensures
            final(self).current_path == new_path,
            notify@ == old(self).on_path_changed@,
            final(self).history@ == old(self).history@,
            final(self).history_index == old(self).history_index,
            final(self).same_scratch(old(self)),
    {
        self.current_path = new_path;
        self.on_path_changed.clone()
    }

    /// Registers an observer; returns its handle, which differs from the
    /// handles of all observers registered before.
    pub fn connect_path_changed(&mut self) -> (handle: usize)
        requires
            old(self).on_path_changed@.len() < usize::MAX,
            forall|k: int|
                0 <= k < old(self).on_path_changed@.len() ==> old(self).on_path_changed@[k] == k,
        ensures
            handle == old(self).on_path_changed@.len(),
            final(self).on_path_changed@ == old(self).on_path_changed@.push(handle),
            forall|k: int|
                0 <= k < final(self).on_path_changed@.len() ==> final(self).on_path_changed@[k]
                    == k,
            final(self).current_path == old(self).current_path,
            final(self).history@ == old(self).history@,
            final(self).history_index == old(self).history_index,
            final(self).settings == old(self).settings,
            final(self).hovered_file == old(self).hovered_file,
            final(self).popup_focused_file == old(self).popup_focused_file,
            final(self).clipboard@ == old(self).clipboard@,
            final(self).clipboard_is_cut == old(self).clipboard_is_cut,
            final(self).bookmarks@ == old(self).bookmarks@,
    {
        let handle = self.on_path_changed.len();
        self.on_path_changed.push(handle);
        handle
    }

    /// Records `file` as the newest history entry, dropping every entry
    /// after the cursor first.
    pub fn update_history(&mut self, file: String)
        requires
            old(self).wf(),
        ensures
            final(self).wf(),
            final(self).recorded(old(self), file),
            final(self).history_index == final(self).history@.len() - 1,
            final(self).current_path == old(self).current_path,
            final(self).same_scratch(old(self)),
    {
        if self.history_index < self.history.len() - 1 {
            self.history.truncate(self.history_index + 1);
        }
        self.history.push(file);
        self.history_index = self.history.len() - 1;
        assert(self.history@ =~= Self::pushed_history(
            old(self).history@,
            old(self).history_index as int,
            self.history@.last(),
        ));
    }

    /// Goes to `loc` and records it in the history.
    pub fn navigate(&mut self, loc: String) -> (notify: Vec<usize>)
        requires
            old(self).wf(),
        ensures
            final(self).wf(),
            final(self).in_step(),
            final(self).navigated(old(self), loc),
            final(self).history_index == final(self).history@.len() - 1,
            notify@ == old(self).on_path_changed@,
    {
        let notify = self.set_path(loc.clone());
        self.update_history(loc);
        notify
    }

    /// Marks `file` as the entry under the pointer, or none.
    pub fn set_hovered_file(&mut self, file: Option<String>)
        ensures
            final(self).hovered_file == file,
            final(self).popup_focused_file == old(self).popup_focused_file,
            final(self).current_path == old(self).current_path,
            final(self).history@ == old(self).history@,
            final(self).history_index == old(self).history_index,
            final(self).on_path_changed@ == old(self).on_path_changed@,
            final(self).settings == old(self).settings,
            final(self).clipboard@ == old(self).clipboard@,
            final(self).clipboard_is_cut == old(self).clipboard_is_cut,
            final(self).bookmarks@ == old(self).bookmarks@,
    {
        self.hovered_file = file;
    }

    /// Marks `file` as the entry a context menu was opened against, or none.
    pub fn set_popup_focused_file(&mut self, file: Option<String>)
        ensures
            final(self).popup_focused_file == file,
            final(self).hovered_file == old(self).hovered_file,
            final(self).current_path == old(self).current_path,
            final(self).history@ == old(self).history@,
            final(self).history_index == old(self).history_index,
            final(self).on_path_changed@ == old(self).on_path_changed@,
            final(self).settings == old(self).settings,
            final(self).clipboard@ == old(self).clipboard@,
            final(self).clipboard_is_cut == old(self).clipboard_is_cut,
            final(self).bookmarks@ == old(self).bookmarks@,
    {
        self.popup_focused_file = file;
    }

    /// A context click: over an entry, that entry becomes the menu's focus
    /// and is returned (the entry menu opens); elsewhere nothing changes and
    /// `None` is returned (the empty-area menu opens).
    pub fn context_menu_target(&mut self) -> (r: Option<String>)
        ensures
            r == old(self).hovered_file,
            old(self).hovered_file is Some ==> final(self).popup_focused_file
                == old(self).hovered_file,
            old(self).hovered_file is None ==> final(self).popup_focused_file
                == old(self).popup_focused_file,
            final(self).hovered_file == old(self).hovered_file,
            final(self).current_path == old(self).current_path,
            final(self).history@ == old(self).history@,
            final(self).history_index == old(self).history_index,
            final(self).on_path_changed@ == old(self).on_path_changed@,
            final(self).settings == old(self).settings,
            final(self).clipboard@ == old(self).clipboard@,
            final(self).clipboard_is_cut == old(self).clipboard_is_cut,
            final(self).bookmarks@ == old(self).bookmarks@,
    {
        match &self.hovered_file {
            Some(f) => {
                let target = f.clone();
                self.popup_focused_file = Some(target.clone());
                Some(target)
            },
            None => None,
        }
    }

    /// Appends a bookmark; names and paths need not be unique.
    pub fn add_bookmark(&mut self, bookmark: Bookmark)
        ensures
            final(self).bookmarks@ == old(self).bookmarks@.push(bookmark),
            final(self).same_but_bookmarks(old(self)),
    {
        self.bookmarks.push(bookmark);
    }

    /// Removes the bookmark at `index` and returns it; the others keep their
    /// order. An index past the end is refused and changes nothing.
    pub fn remove_bookmark(&mut self, index: usize) -> (r: Result<Bookmark, BookmarkError>)
        ensures
            index < old(self).bookmarks@.len() ==> {
                &&& r == Ok::<Bookmark, BookmarkError>(old(self).bookmarks@[index as int])
                &&& final(self).bookmarks@ == old(self).bookmarks@.remove(index as int)
            },
            index >= old(self).bookmarks@.len() ==> {
                &&& r == Err::<Bookmark, BookmarkError>(
                    BookmarkError::IndexOutOfRange { index, len: old(self).bookmarks@.len() as usize },
                )
                &&& final(self).bookmarks@ == old(self).bookmarks@
            },
            final(self).same_but_bookmarks(old(self)),
    {
        let len = self.bookmarks.len();
        if index >= len {
            return Err(BookmarkError::IndexOutOfRange { index, len });
        }
        Ok(self.bookmarks.remove(index))
    }

    /// Steps the cursor one entry back and goes there; `None`, with the
    /// state unchanged, at the oldest entry.
    pub fn go_back_in_history(&mut self) -> (r: Option<String>)
        requires
            old(self).wf(),
        ensures
            final(self).wf(),
            old(self).history_index == 0 ==> r is None && *final(self) == *old(self),
            old(self).history_index > 0 ==> {
                &&& r == Some(old(self).history@[old(self).history_index - 1])
                &&& final(self).moved_to(old(self), old(self).history_index - 1)
                &&& final(self).in_step()
            },
    {
        if self.history_index == 0 {
            return None;
        }
        self.history_index = self.history_index - 1;
        let file = self.history[self.history_index].clone();
        self.set_path(file.clone());
        Some(file)
    }

    /// Steps the cursor one entry forward and goes there; `None`, with the
    /// state unchanged, at the newest entry.
    pub fn go_forward_in_history(&mut self) -> (r: Option<String>)
        requires
            old(self).wf(),
        ensures
            final(self).wf(),
            old(self).history_index + 1 == old(self).history@.len() ==> r is None && *final(self)
                == *old(self),
            old(self).history_index + 1 < old(self).history@.len() ==> {
                &&& r == Some(old(self).history@[old(self).history_index + 1])
                &&& final(self).moved_to(old(self), old(self).history_index + 1)
                &&& final(self).in_step()
            },
    {
        if self.history_index >= self.history.len() - 1 {
            return None;
        }
        self.history_index = self.history_index + 1;
        let file = self.history[self.history_index].clone();
        self.set_path(file.clone());
        Some(file)
    }
}

/// Recording `locs[0]`, ..., `locs[n-1]` in the history in turn (by
/// `update_history`, as every navigation does), starting from a history
/// that holds only `l0`, leaves the history `[l0] + locs` with the cursor
/// on its last entry, `n`.
pub proof fn lemma_record_sequence(l0: String, locs: Seq<String>, states: Seq<FmState>)
    requires
        states.len() == locs.len() + 1,
        states[0].history@ == seq![l0],
        states[0].history_index == 0,
        forall|k: int| 0 <= k < locs.len() ==> #[trigger] states[k + 1].recorded(&states[k], locs[k]),
    ensures
        states.last().history@ == seq![l0] + locs,
        states.last().history_index == locs.len(),
    decreases locs.len(),
{
    if locs.len() > 0 {
        let n = locs.len() - 1;
        let prefix_locs = locs.subrange(0, n as int);
        let prefix_states = states.subrange(0, n + 1);
        assert forall|k: int| 0 <= k < prefix_locs.len() implies #[trigger] prefix_states[k
            + 1].recorded(&prefix_states[k], prefix_locs[k]) by {
            assert(states[k + 1].recorded(&states[k], locs[k]));
        }
        lemma_record_sequence(l0, prefix_locs, prefix_states);
        assert(states[n + 1].recorded(&states[n as int], locs[n as int]));
        assert(states[n as int] == prefix_states.last());
        assert(states.last().history@ =~= seq![l0] + locs);
    }
}

/// Navigating to `locs[0]`, ..., `locs[n-1]` in turn from a state whose
/// history holds only `l0`, with no step back or forward in between, leaves
/// the history `[l0] + locs` with the cursor on its last entry, `n`, which
/// is the current location.
pub proof fn lemma_navigate_sequence(l0: String, locs: Seq<String>, states: Seq<FmState>)
    requires
        states.len() == locs.len() + 1,
        states[0].history@ == seq![l0],
        states[0].history_index == 0,
        forall|k: int| 0 <= k < locs.len() ==> #[trigger] states[k + 1].navigated(&states[k], locs[k]),
    ensures
        states.last().history@ == seq![l0] + locs,
        states.last().history_index == locs.len(),
        locs.len() > 0 ==> states.last().current_path == locs.last(),
        locs.len() > 0 ==> states.last().in_step(),
{
    assert forall|k: int| 0 <= k < locs.len() implies #[trigger] states[k + 1].recorded(
        &states[k],
        locs[k],
    ) by {
        assert(states[k + 1].navigated(&states[k], locs[k]));
    }
    lemma_record_sequence(l0, locs, states);
    if locs.len() > 0 {
        let k = locs.len() - 1;
        assert(states[k + 1].navigated(&states[k], locs[k]));
        assert(states.last() == states[k + 1]);
        assert((seq![l0] + locs)[locs.len() as int] == locs.last());
    }
}

/// Stepping back and then forward again, from a state whose location is
/// the entry under its cursor, returns to that location with the history
/// unchanged; the step forward is always possible there.
pub proof fn lemma_back_then_forward(s0: FmState, s1: FmState, s2: FmState)
    requires
        s0.wf(),
        s0.in_step(),
        s0.history_index > 0,
        s1.moved_to(&s0, s0.history_index - 1),
        s2.moved_to(&s1, s1.history_index + 1),
    ensures
        s1.history_index + 1 < s1.history@.len(),
        s2.current_path == s0.current_path,
        s2.history@ == s0.history@,
        s2.history_index == s0.history_index,
{
}

/// Removing the bookmark at a valid index takes out exactly that one and
/// keeps the others in their order; an index past the end changes nothing.
pub proof fn lemma_remove_bookmark(before: Seq<Bookmark>, after: Seq<Bookmark>, index: int)
    requires
        0 <= index < before.len() ==> after == before.remove(index),
        !(0 <= index < before.len()) ==> after == before,
    ensures
        0 <= index < before.len() ==> {
            &&& after.len() == before.len() - 1
            &&& forall|k: int| 0 <= k < index ==> after[k] == before[k]
            &&& forall|k: int| index < k < before.len() ==> after[k - 1] == before[k]
        },
        !(0 <= index < before.len()) ==> after == before,
{
}

/// Navigating after a step back drops the entries after the cursor before
/// the new location is appended: the history becomes the entries up to the
/// one stepped back to, then the new location.
pub proof fn lemma_navigate_after_back(s0: FmState, s1: FmState, s2: FmState, loc: String)
    requires
        s0.wf(),
        s0.history_index > 0,
        s1.moved_to(&s0, s0.history_index - 1),
        s2.navigated(&s1, loc),
    ensures
        s2.history@ == s0.history@.subrange(0, s0.history_index as int).push(loc),
        s2.history_index == s0.history_index,
        s2.current_path == loc,
{
}

} // verus!
