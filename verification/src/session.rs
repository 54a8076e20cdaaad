//! An unlocked editing session: the open tabs, the active tab, the unsaved
//! flag, and the per-tab undo/redo history.

use std::collections::HashMap;
use vstd::prelude::*;
use crate::crypto::{password_matches, verify_password};
use crate::storage::{Tab, TabModel, tabs_view};
use crate::search::{regex_replace, regex_replace_all, regex_valid, replace_byte_range, replace_from, replace_plain, search_outcome, Search};
use crate::text::{chars_of, slice_chars, string_from_chars, string_push, trim_chars, trim_spec};
use vstd::utf8::{decode_utf8, encode_utf8, is_char_boundary};

verus! {

broadcast use vstd::std_specs::hash::group_hash_axioms;

/// At most this many tabs can be open.
pub const MAX_TABS: usize = 5;

/// Undo history kept per tab.
pub const MAX_UNDO: usize = 50;

/// Which screen is shown.
#[derive(Clone, Copy, PartialEq, Eq, Debug, Structural)]
pub enum Screen {
    Lock,
    Editor,
}

/// The modal dialog that is open, if any.
#[derive(Clone, Copy, PartialEq, Eq, Debug, Structural)]
pub enum Modal {
    /// No dialog is open.
    Closed,
    Erase,
    ChangePassword,
    /// Confirm closing the tab at this index.
    CloseTab(usize),
}

/// What an undo or redo request did.
#[derive(Clone, Copy, PartialEq, Eq, Debug, Structural)]
pub enum HistoryStep {
    /// The active tab's content moved one step in its history.
    Applied,
    /// The history has no earlier (or later) state.
    NothingMore,
    /// No active tab, or no recorded state to move to.
    Skipped,
}

// ─── Undo history model ───────────────────────────────────────────────────────

pub open spec fn min_int(a: int, b: int) -> int {
    if a < b {
        a
    } else {
        b
    }
}

/// Record `c` in a history `stack` whose current state is at `pos`: unless it
/// is already the current state, drop everything after the current state,
/// append `c`, keep at most 50 states (dropping the oldest), and make `c` the
/// current state.
pub open spec fn push_snap(stack: Seq<Seq<char>>, pos: int, c: Seq<char>) -> (Seq<Seq<char>>, int) {
    if 0 <= pos < stack.len() && stack[pos] == c {
        (stack, pos)
    } else {
        let kept = stack.take(min_int(pos + 1, stack.len() as int));
        let pushed = kept.push(c);
        let trimmed = if pushed.len() > MAX_UNDO {
            pushed.skip(1)
        } else {
            pushed
        };
        (trimmed, trimmed.len() - 1)
    }
}

/// The position undo moves to, if any.
pub open spec fn undo_target(stack: Seq<Seq<char>>, pos: int) -> Option<int> {
    if pos > 0 && pos - 1 < stack.len() {
        Some(pos - 1)
    } else {
        None
    }
}

/// The position redo moves to, if any.
pub open spec fn redo_target(stack: Seq<Seq<char>>, pos: int) -> Option<int> {
    if 0 <= pos && pos + 1 < stack.len() {
        Some(pos + 1)
    } else {
        None
    }
}

pub open spec fn strings_view(v: Seq<String>) -> Seq<Seq<char>> {
    v.map_values(|s: String| s@)
}

/// A tab model with its content replaced.
pub open spec fn with_content(t: TabModel, c: Seq<char>) -> TabModel {
    TabModel { content: c, ..t }
}

/// The open tabs of an unlocked vault and their editing history.
pub struct Session {
    pub tabs: Vec<Tab>,
    pub active_tab: usize,
    pub dirty: bool,
    /// Per-tab undo history, keyed by tab id.
    pub undo_stacks: HashMap<u32, Vec<String>>,
    /// Per-tab current position in the undo history.
    pub undo_positions: HashMap<u32, usize>,
    /// The Find & Replace state.
    pub search: Search,
}

impl Session {
    /// The active tab index is valid (or 0 with no tabs), and every undo
    /// history is bounded with its position inside the bound.
    pub open spec fn wf(&self) -> bool {
        &&& (self.tabs.len() == 0 ==> self.active_tab == 0)
        &&& (self.tabs.len() > 0 ==> self.active_tab < self.tabs.len())
        &&& forall|id: u32| #[trigger] self.undo_stacks@.contains_key(id) ==> self.undo_stacks@[id].len() <= MAX_UNDO
        &&& forall|id: u32| #[trigger] self.undo_positions@.contains_key(id) ==> self.undo_positions@[id] < MAX_UNDO
        &&& self.search.wf()
    }

    /// The undo history of a tab (empty if none is recorded).
    pub open spec fn stack_of(&self, id: u32) -> Seq<Seq<char>> {
        if self.undo_stacks@.contains_key(id) {
            strings_view(self.undo_stacks@[id]@)
        } else {
            Seq::empty()
        }
    }

    /// The current position in a tab's undo history (0 if none is recorded).
    pub open spec fn pos_of(&self, id: u32) -> int {
        if self.undo_positions@.contains_key(id) {
            self.undo_positions@[id] as int
        } else {
            0
        }
    }

    pub open spec fn tabs_model(&self) -> Seq<TabModel> {
        tabs_view(self.tabs@)
    }

    /// A session with no tabs (the locked state).
    pub fn new() -> (s: Session)
        ensures
            s.wf(),
            s.tabs@.len() == 0,
            s.active_tab == 0,
            !s.dirty,
            s.undo_stacks@ == Map::<u32, Vec<String>>::empty(),
            s.undo_positions@ == Map::<u32, usize>::empty(),
    {
        Session {
            tabs: Vec::new(),
            active_tab: 0,
            dirty: false,
            undo_stacks: HashMap::new(),
            undo_positions: HashMap::new(),
            search: Search::new(),
        }
    }

    /// Record `content` as the newest state of tab `tab_id`'s history.
    pub fn push_undo_snap(&mut self, tab_id: u32, content: String)
        requires
            old(self).wf(),
        ensures
            final(self).wf(),
            (final(self).stack_of(tab_id), final(self).pos_of(tab_id)) == push_snap(
                old(self).stack_of(tab_id),
                old(self).pos_of(tab_id),
                content@,
            ),
            final(self).undo_stacks@.contains_key(tab_id),
            final(self).undo_positions@.contains_key(tab_id),
            forall|id: u32| id != tab_id ==> #[trigger] final(self).stack_of(id) == old(self).stack_of(id),
            forall|id: u32| id != tab_id ==> #[trigger] final(self).pos_of(id) == old(self).pos_of(id),
            final(self).tabs@ == old(self).tabs@,
            final(self).active_tab == old(self).active_tab,
            final(self).dirty == old(self).dirty,
    {
        let ghost old_stack = self.stack_of(tab_id);
        let ghost old_pos = self.pos_of(tab_id);
        let mut stack = match self.undo_stacks.remove(&tab_id) {
            Some(s) => s,
            None => Vec::new(),
        };
        let pos = match self.undo_positions.get(&tab_id) {
            Some(p) => *p,
            None => 0,
        };
        assert(strings_view(stack@) == old_stack);
        assert(pos == old_pos);
        if pos < stack.len() && stack[pos] == content {
            self.undo_stacks.insert(tab_id, stack);
            self.undo_positions.insert(tab_id, pos);
            return;
        }
        proof {
            assert(pos < MAX_UNDO);
        }
        stack.truncate(pos + 1);
        stack.push(content);
        if stack.len() > MAX_UNDO {
            stack.remove(0);
        }
        let np = stack.len() - 1;
        proof {
            let kept = old_stack.take(min_int(pos + 1, old_stack.len() as int));
            let pushed = kept.push(content@);
            let trimmed = if pushed.len() > MAX_UNDO {
                pushed.skip(1)
            } else {
                pushed
            };
            assert(strings_view(stack@) =~= trimmed);
        }
        self.undo_stacks.insert(tab_id, stack);
        self.undo_positions.insert(tab_id, np);
    }

    /// `(can_undo, can_redo)` for the active tab.
    pub fn active_undo_state(&self) -> (r: (bool, bool))
        requires
            self.wf(),
        ensures
            self.tabs.len() == 0 ==> r == (false, false),
            self.tabs.len() > 0 ==> {
                let id = self.tabs@[self.active_tab as int].id;
                r == (self.pos_of(id) > 0, self.pos_of(id) + 1 < self.stack_of(id).len())
            },
    {
        if self.active_tab < self.tabs.len() {
            let id = self.tabs[self.active_tab].id;
            let pos = match self.undo_positions.get(&id) {
                Some(p) => *p,
                None => 0,
            };
            let len = match self.undo_stacks.get(&id) {
                Some(s) => s.len(),
                None => 0,
            };
            (pos > 0, pos + 1 < len)
        } else {
            (false, false)
        }
    }

    /// Replace the active tab's content with the previous state of its history.
    pub fn do_undo(&mut self) -> (r: HistoryStep)
        requires
            old(self).wf(),
        ensures
            final(self).wf(),
            final(self).active_tab == old(self).active_tab,
            final(self).undo_stacks@ == old(self).undo_stacks@,
            old(self).tabs.len() == 0 ==> r == HistoryStep::Skipped && *final(self) == *old(self),
            old(self).tabs.len() > 0 ==> {
                let a = old(self).active_tab as int;
                let id = old(self).tabs@[a].id;
                let stack = old(self).stack_of(id);
                let pos = old(self).pos_of(id);
                match undo_target(stack, pos) {
                    Some(q) => {
                        &&& r == HistoryStep::Applied
                        &&& final(self).tabs_model() == old(self).tabs_model().update(
                            a,
                            with_content(old(self).tabs_model()[a], stack[q]),
                        )
                        &&& final(self).pos_of(id) == q
                        &&& forall|other: u32| other != id ==> #[trigger] final(self).pos_of(other) == old(self).pos_of(other)
                        &&& final(self).dirty
                    },
                    None => {
                        &&& r == (if pos > 0 {
                            HistoryStep::Skipped
                        } else {
                            HistoryStep::NothingMore
                        })
                        &&& *final(self) == *old(self)
                    },
                }
            },
    {
        if self.active_tab >= self.tabs.len() {
            return HistoryStep::Skipped;
        }
        let a = self.active_tab;
        let id = self.tabs[a].id;
        let pos = match self.undo_positions.get(&id) {
            Some(p) => *p,
            None => 0,
        };
        if pos == 0 {
            return HistoryStep::NothingMore;
        }
        let new_pos = pos - 1;
        let content = match self.undo_stacks.get(&id) {
            Some(st) => if new_pos < st.len() {
                proof {
                    assert(self.stack_of(id)[new_pos as int] == st@[new_pos as int]@);
                }
                st[new_pos].clone()
            } else {
                return HistoryStep::Skipped;
            },
            None => return HistoryStep::Skipped,
        };
        self.set_tab_content(a, content);
        self.undo_positions.insert(id, new_pos);
        self.dirty = true;
        HistoryStep::Applied
    }

    /// Replace the active tab's content with the next state of its history.
    pub fn do_redo(&mut self) -> (r: HistoryStep)
        requires
            old(self).wf(),
        ensures
            final(self).wf(),
            final(self).active_tab == old(self).active_tab,
            final(self).undo_stacks@ == old(self).undo_stacks@,
            old(self).tabs.len() == 0 ==> r == HistoryStep::Skipped && *final(self) == *old(self),
            old(self).tabs.len() > 0 ==> {
                let a = old(self).active_tab as int;
                let id = old(self).tabs@[a].id;
                let stack = old(self).stack_of(id);
                let pos = old(self).pos_of(id);
                match redo_target(stack, pos) {
                    Some(q) => {
                        &&& r == HistoryStep::Applied
                        &&& final(self).tabs_model() == old(self).tabs_model().update(
                            a,
                            with_content(old(self).tabs_model()[a], stack[q]),
                        )
                        &&& final(self).pos_of(id) == q
                        &&& forall|other: u32| other != id ==> #[trigger] final(self).pos_of(other) == old(self).pos_of(other)
                        &&& final(self).dirty
                    },
                    None => {
                        &&& r == HistoryStep::NothingMore
                        &&& *final(self) == *old(self)
                    },
                }
            },
    {
        if self.active_tab >= self.tabs.len() {
            return HistoryStep::Skipped;
        }
        let a = self.active_tab;
        let id = self.tabs[a].id;
        let pos = match self.undo_positions.get(&id) {
            Some(p) => *p,
            None => 0,
        };
        let content = match self.undo_stacks.get(&id) {
            Some(st) => if pos + 1 < st.len() {
                proof {
                    assert(self.stack_of(id)[pos + 1] == st@[pos + 1]@);
                }
                st[pos + 1].clone()
            } else {
                return HistoryStep::NothingMore;
            },
            None => return HistoryStep::NothingMore,
        };
        self.set_tab_content(a, content);
        self.undo_positions.insert(id, pos + 1);
        self.dirty = true;
        HistoryStep::Applied
    }

    /// Replace one tab's content.
    pub fn set_tab_content(&mut self, idx: usize, content: String)
        requires
            idx < old(self).tabs.len(),
        ensures
            final(self).tabs_model() == old(self).tabs_model().update(
                idx as int,
                with_content(old(self).tabs_model()[idx as int], content@),
            ),
            final(self).tabs.len() == old(self).tabs.len(),
            final(self).active_tab == old(self).active_tab,
            final(self).dirty == old(self).dirty,
            final(self).undo_stacks == old(self).undo_stacks,
            final(self).undo_positions == old(self).undo_positions,
            final(self).search == old(self).search,
    {
        let t = Tab {
            id: self.tabs[idx].id,
            name: self.tabs[idx].name.clone(),
            content,
            locked: self.tabs[idx].locked,
        };
        self.tabs.set(idx, t);
        proof {
            assert(self.tabs_model() =~= old(self).tabs_model().update(
                idx as int,
                with_content(old(self).tabs_model()[idx as int], t.content@),
            ));
        }
    }

    /// Start every tab's history afresh with its current content.
    pub fn init_undo_stacks(&mut self)
        requires
            old(self).wf(),
        ensures
            final(self).wf(),
            final(self).tabs@ == old(self).tabs@,
            final(self).active_tab == old(self).active_tab,
            final(self).dirty == old(self).dirty,
            forall|id: u32| #[trigger] final(self).undo_stacks@.contains_key(id) <==> exists|k: int| 0 <= k < final(self).tabs.len() && final(self).tabs@[k].id == id,
            forall|id: u32| #[trigger] final(self).undo_positions@.contains_key(id) <==> exists|k: int| 0 <= k < final(self).tabs.len() && final(self).tabs@[k].id == id,
            forall|k: int| 0 <= k < final(self).tabs.len() && (forall|j: int| k < j < final(self).tabs.len() ==> final(self).tabs@[j].id != final(self).tabs@[k].id)
                ==> final(self).stack_of(#[trigger] final(self).tabs@[k].id) == seq![final(self).tabs@[k].content@]
                && final(self).pos_of(final(self).tabs@[k].id) == 0,
    {
        self.undo_stacks.clear();
        self.undo_positions.clear();
        let n = self.tabs.len();
        let mut i: usize = 0;
        while i < n
            invariant
                i <= n == self.tabs.len(),
                self.wf(),
                self.tabs@ == old(self).tabs@,
                self.active_tab == old(self).active_tab,
                self.dirty == old(self).dirty,
                forall|id: u32| #[trigger] self.undo_stacks@.contains_key(id) <==> exists|k: int| 0 <= k < i && self.tabs@[k].id == id,
                forall|id: u32| #[trigger] self.undo_positions@.contains_key(id) <==> exists|k: int| 0 <= k < i && self.tabs@[k].id == id,
                forall|k: int| 0 <= k < i && (forall|j: int| k < j < i ==> self.tabs@[j].id != self.tabs@[k].id)
                    ==> self.stack_of(#[trigger] self.tabs@[k].id) == seq![self.tabs@[k].content@]
                    && self.pos_of(self.tabs@[k].id) == 0,
            decreases n - i,
        {
            let id = self.tabs[i].id;
            let c = self.tabs[i].content.clone();
            let v = vec![c];
            proof {
                assert(strings_view(v@) =~= seq![self.tabs@[i as int].content@]);
            }
            let ghost before_s = self.undo_stacks@;
            let ghost before_p = self.undo_positions@;
            self.undo_stacks.insert(id, v);
            self.undo_positions.insert(id, 0);
            proof {
                assert forall|idx: u32| #[trigger] self.undo_stacks@.contains_key(idx) <==> exists|k: int| 0 <= k < i + 1 && self.tabs@[k].id == idx by {
                    if idx == id {
                        assert(self.tabs@[i as int].id == idx);
                    } else {
                        if before_s.contains_key(idx) {
                            let k = choose|k: int| 0 <= k < i && self.tabs@[k].id == idx;
                            assert(0 <= k < i + 1 && self.tabs@[k].id == idx);
                        }
                        if exists|k: int| 0 <= k < i + 1 && self.tabs@[k].id == idx {
                            let k = choose|k: int| 0 <= k < i + 1 && self.tabs@[k].id == idx;
                            assert(k != i);
                            assert(0 <= k < i && self.tabs@[k].id == idx);
                        }
                    }
                }
                assert forall|idx: u32| #[trigger] self.undo_positions@.contains_key(idx) <==> exists|k: int| 0 <= k < i + 1 && self.tabs@[k].id == idx by {
                    if idx == id {
                        assert(self.tabs@[i as int].id == idx);
                    } else {
                        if before_p.contains_key(idx) {
                            let k = choose|k: int| 0 <= k < i && self.tabs@[k].id == idx;
                            assert(0 <= k < i + 1 && self.tabs@[k].id == idx);
                        }
                        if exists|k: int| 0 <= k < i + 1 && self.tabs@[k].id == idx {
                            let k = choose|k: int| 0 <= k < i + 1 && self.tabs@[k].id == idx;
                            assert(k != i);
                            assert(0 <= k < i && self.tabs@[k].id == idx);
                        }
                    }
                }
            }
            i += 1;
        }
    }

    /// Open a new empty tab named "Note N" (N the new tab count), unless five
    /// tabs are open.
    pub fn add_tab(&mut self)
        requires
            old(self).wf(),
        ensures
            final(self).wf(),
            old(self).tabs.len() <= MAX_TABS ==> final(self).tabs.len() <= MAX_TABS,
            old(self).tabs.len() >= MAX_TABS ==> *final(self) == *old(self),
            old(self).tabs.len() < MAX_TABS ==> {
                let id = next_id(old(self).tabs_model());
                &&& final(self).tabs_model() == old(self).tabs_model().push(
                    TabModel {
                        id,
                        name: "Note "@.push(digit_char((old(self).tabs.len() + 1) as int)),
                        content: Seq::empty(),
                        locked: false,
                    },
                )
                &&& final(self).active_tab == old(self).tabs.len()
                &&& final(self).dirty
                &&& final(self).stack_of(id) == seq![Seq::<char>::empty()]
                &&& final(self).pos_of(id) == 0
                &&& forall|other: u32| other != id ==> #[trigger] final(self).stack_of(other) == old(self).stack_of(other)
                &&& forall|other: u32| other != id ==> #[trigger] final(self).pos_of(other) == old(self).pos_of(other)
            },
    {
        if self.tabs.len() >= MAX_TABS {
            return;
        }
        let n = self.tabs.len();
        let mut name = String::from_str("Note ");
        string_push(&mut name, digit((n + 1) as u8));
        self.add_tab_with(name, String::new());
    }

    /// Open a new tab with the given name and content, unless five tabs are
    /// open.
    pub fn add_tab_with(&mut self, name: String, content: String)
        requires
            old(self).wf(),
        ensures
            final(self).wf(),
            old(self).tabs.len() <= MAX_TABS ==> final(self).tabs.len() <= MAX_TABS,
            old(self).tabs.len() >= MAX_TABS ==> *final(self) == *old(self),
            old(self).tabs.len() < MAX_TABS ==> {
                let id = next_id(old(self).tabs_model());
                &&& final(self).tabs_model() == old(self).tabs_model().push(
                    TabModel { id, name: name@, content: content@, locked: false },
                )
                &&& final(self).active_tab == old(self).tabs.len()
                &&& final(self).dirty
                &&& final(self).stack_of(id) == seq![content@]
                &&& final(self).pos_of(id) == 0
                &&& forall|other: u32| other != id ==> #[trigger] final(self).stack_of(other) == old(self).stack_of(other)
                &&& forall|other: u32| other != id ==> #[trigger] final(self).pos_of(other) == old(self).pos_of(other)
            },
    {
        if self.tabs.len() >= MAX_TABS {
            return;
        }
        let id = next_tab_id(&self.tabs);
        let snap = content.clone();
        let t = Tab { id, name, content, locked: false };
        let ghost tm = t@;
        self.tabs.push(t);
        proof {
            assert(self.tabs_model() =~= old(self).tabs_model().push(tm));
        }
        self.active_tab = self.tabs.len() - 1;
        self.dirty = true;
        let v = vec![snap];
        proof {
            assert(strings_view(v@) =~= seq![tm.content]);
        }
        self.undo_stacks.insert(id, v);
        self.undo_positions.insert(id, 0);
    }

    /// Close the tab at `idx` (after confirmation), unless it is the only tab.
    pub fn close_tab_confirmed(&mut self, idx: usize)
        requires
            old(self).wf(),
            old(self).tabs.len() > 1 ==> idx < old(self).tabs.len(),
        ensures
            final(self).wf(),
            old(self).tabs.len() <= 1 ==> *final(self) == *old(self),
            old(self).tabs.len() > 1 ==> {
                let id = old(self).tabs@[idx as int].id;
                &&& final(self).tabs_model() == old(self).tabs_model().remove(idx as int)
                &&& final(self).active_tab == (if old(self).active_tab < old(self).tabs.len() - 1 {
                    old(self).active_tab as int
                } else {
                    old(self).tabs.len() - 2
                })
                &&& final(self).dirty
                &&& !final(self).undo_stacks@.contains_key(id)
                &&& !final(self).undo_positions@.contains_key(id)
                &&& forall|other: u32| other != id ==> #[trigger] final(self).stack_of(other) == old(self).stack_of(other)
                &&& forall|other: u32| other != id ==> #[trigger] final(self).pos_of(other) == old(self).pos_of(other)
            },
    {
        if self.tabs.len() <= 1 {
            return;
        }
        let removed_id = self.tabs[idx].id;
        self.tabs.remove(idx);
        proof {
            assert(self.tabs_model() =~= old(self).tabs_model().remove(idx as int));
        }
        self.undo_stacks.remove(&removed_id);
        self.undo_positions.remove(&removed_id);
        if self.active_tab >= self.tabs.len() {
            self.active_tab = self.tabs.len() - 1;
        }
        self.dirty = true;
    }

    /// Make the tab at `idx` the active one, if there is such a tab.
    pub fn switch_to(&mut self, idx: usize)
        requires
            old(self).wf(),
        ensures
            final(self).wf(),
            final(self).active_tab == (if idx < old(self).tabs.len() {
                idx
            } else {
                old(self).active_tab
            }),
            final(self).tabs@ == old(self).tabs@,
            final(self).dirty == old(self).dirty,
            final(self).undo_stacks@ == old(self).undo_stacks@,
            final(self).undo_positions@ == old(self).undo_positions@,
    {
        if idx < self.tabs.len() {
            self.active_tab = idx;
        }
    }

    /// Commit an inline rename: the trimmed text, cut to 64 characters,
    /// becomes the tab's name unless it is empty.
    pub fn rename_tab(&mut self, idx: usize, text: &str)
        requires
            old(self).wf(),
            idx < old(self).tabs.len(),
        ensures
            final(self).wf(),
            trim_spec(text@).len() == 0 ==> *final(self) == *old(self),
            trim_spec(text@).len() > 0 ==> {
                &&& final(self).tabs_model() == old(self).tabs_model().update(
                    idx as int,
                    TabModel { name: trim_spec(text@).take(min_int(trim_spec(text@).len() as int, 64)), ..old(self).tabs_model()[idx as int] },
                )
                &&& final(self).dirty
                &&& final(self).active_tab == old(self).active_tab
                &&& final(self).undo_stacks == old(self).undo_stacks
                &&& final(self).undo_positions == old(self).undo_positions
            },
    {
        let v = trim_chars(chars_of(text).as_slice());
        if v.len() == 0 {
            return;
        }
        let keep = if v.len() < 64 {
            v.len()
        } else {
            64
        };
        let name = string_from_chars(slice_chars(v.as_slice(), 0, keep).as_slice());
        let t = Tab {
            id: self.tabs[idx].id,
            name,
            content: self.tabs[idx].content.clone(),
            locked: self.tabs[idx].locked,
        };
        let ghost tm = t@;
        self.tabs.set(idx, t);
        proof {
            assert(self.tabs_model() =~= old(self).tabs_model().update(idx as int, tm));
        }
        self.dirty = true;
    }

    /// Set a tab's screen-privacy lock flag.
    pub fn set_tab_locked(&mut self, idx: usize, locked: bool)
        requires
            old(self).wf(),
            idx < old(self).tabs.len(),
        ensures
            final(self).wf(),
            final(self).tabs_model() == old(self).tabs_model().update(
                idx as int,
                TabModel { locked, ..old(self).tabs_model()[idx as int] },
            ),
            final(self).dirty,
            final(self).active_tab == old(self).active_tab,
            final(self).undo_stacks == old(self).undo_stacks,
            final(self).undo_positions == old(self).undo_positions,
    {
        let t = Tab {
            id: self.tabs[idx].id,
            name: self.tabs[idx].name.clone(),
            content: self.tabs[idx].content.clone(),
            locked,
        };
        let ghost tm = t@;
        self.tabs.set(idx, t);
        proof {
            assert(self.tabs_model() =~= old(self).tabs_model().update(idx as int, tm));
        }
        self.dirty = true;
    }

    /// Start a session on freshly opened tabs: the first tab is active,
    /// nothing is unsaved, and every history starts afresh.
    pub fn open_tabs(&mut self, tabs: Vec<Tab>)
        requires
            old(self).wf(),
        ensures
            final(self).wf(),
            final(self).tabs@ == tabs@,
            final(self).active_tab == 0,
            !final(self).dirty,
            forall|id: u32| #[trigger] final(self).undo_stacks@.contains_key(id) <==> exists|k: int| 0 <= k < tabs.len() && tabs@[k].id == id,
            forall|k: int| 0 <= k < tabs.len() && (forall|j: int| k < j < tabs.len() ==> tabs@[j].id != tabs@[k].id)
                ==> final(self).stack_of(#[trigger] tabs@[k].id) == seq![tabs@[k].content@]
                && final(self).pos_of(tabs@[k].id) == 0,
    {
        self.tabs = tabs;
        self.active_tab = 0;
        self.dirty = false;
        self.init_undo_stacks();
    }

    /// Wipe every tab's content and history and close them all.
    pub fn close_all(&mut self)
        requires
            old(self).wf(),
        ensures
            final(self).wf(),
            final(self).tabs.len() == 0,
            final(self).active_tab == 0,
            !final(self).dirty,
            final(self).undo_stacks@ == Map::<u32, Vec<String>>::empty(),
            final(self).undo_positions@ == Map::<u32, usize>::empty(),
            final(self).search.results@.len() == 0,
            !final(self).search.regex_error,
            final(self).search.query == old(self).search.query,
            final(self).search.replace == old(self).search.replace,
            final(self).search.regex == old(self).search.regex,
    {
        while self.tabs.len() > 0
            invariant
                self.search == old(self).search,
            decreases self.tabs.len(),
        {
            match self.tabs.pop() {
                Some(mut t) => {
                    if let Some(mut stack) = self.undo_stacks.remove(&t.id) {
                        while stack.len() > 0
                            invariant
                                self.search == old(self).search,
                            decreases stack.len(),
                        {
                            match stack.pop() {
                                Some(mut snap) => wipe_string(&mut snap),
                                None => {},
                            }
                        }
                    }
                    wipe_string(&mut t.content);
                },
                None => {},
            }
        }
        self.undo_stacks.clear();
        self.undo_positions.clear();
        self.active_tab = 0;
        self.dirty = false;
        self.search.results = Vec::new();
        self.search.regex_error = false;
    }

    /// The text the search runs over: the active tab's content, or nothing.
    pub open spec fn active_content(&self) -> Seq<char> {
        if self.active_tab < self.tabs.len() {
            self.tabs@[self.active_tab as int].content@
        } else {
            Seq::empty()
        }
    }

    /// Search the active tab.
    pub fn run_search(&mut self)
        requires
            old(self).wf(),
        ensures
            final(self).wf(),
            final(self).tabs == old(self).tabs,
            final(self).active_tab == old(self).active_tab,
            final(self).dirty == old(self).dirty,
            final(self).undo_stacks == old(self).undo_stacks,
            final(self).undo_positions == old(self).undo_positions,
            final(self).search.query == old(self).search.query,
            final(self).search.replace == old(self).search.replace,
            final(self).search.regex == old(self).search.regex,
            (final(self).search.results@, final(self).search.regex_error, final(self).search.idx)
                == search_outcome(
                old(self).search.query@,
                old(self).active_content(),
                old(self).search.regex,
                old(self).search.idx,
            ),
    {
        let empty = String::new();
        let content = if self.active_tab < self.tabs.len() {
            &self.tabs[self.active_tab].content
        } else {
            &empty
        };
        self.search.run_search(content.as_str());
    }

    /// Replace the current match in the active tab, then search again.
    pub fn replace_current(&mut self)
        requires
            old(self).wf(),
            old(self).tabs.len() > 0 && old(self).search.idx < old(self).search.results.len() ==> {
                let (st, en) = old(self).search.results@[old(self).search.idx as int];
                let c = old(self).tabs@[old(self).active_tab as int].content@;
                &&& st <= en <= encode_utf8(c).len()
                &&& is_char_boundary(encode_utf8(c), st as int)
                &&& is_char_boundary(encode_utf8(c), en as int)
            },
        ensures
            final(self).wf(),
            final(self).active_tab == old(self).active_tab,
            final(self).undo_stacks == old(self).undo_stacks,
            final(self).undo_positions == old(self).undo_positions,
            old(self).search.idx >= old(self).search.results.len() ==> *final(self) == *old(self),
            old(self).search.idx < old(self).search.results.len() ==> {
                let (st, en) = old(self).search.results@[old(self).search.idx as int];
                let a = old(self).active_tab as int;
                &&& old(self).tabs.len() > 0 ==> {
                    let c = old(self).tabs_model()[a].content;
                    let new_c = decode_utf8(
                        encode_utf8(c).subrange(0, st as int) + encode_utf8(old(self).search.replace@)
                            + encode_utf8(c).subrange(en as int, encode_utf8(c).len() as int),
                    );
                    &&& final(self).tabs_model() == old(self).tabs_model().update(
                        a,
                        with_content(old(self).tabs_model()[a], new_c),
                    )
                    &&& final(self).dirty
                }
                &&& old(self).tabs.len() == 0 ==> final(self).tabs == old(self).tabs && final(self).dirty == old(self).dirty
                &&& (final(self).search.results@, final(self).search.regex_error, final(self).search.idx)
                    == search_outcome(
                    old(self).search.query@,
                    final(self).active_content(),
                    old(self).search.regex,
                    old(self).search.idx,
                )
            },
    {
        if self.search.idx >= self.search.results.len() {
            return;
        }
        let (start, end) = self.search.results[self.search.idx];
        if self.active_tab < self.tabs.len() {
            let a = self.active_tab;
            let new_content = replace_byte_range(
                self.tabs[a].content.as_str(),
                start,
                end,
                self.search.replace.as_str(),
            );
            self.set_tab_content(a, new_content);
            self.dirty = true;
        }
        self.run_search();
    }

    /// Replace every match of the query in the active tab (a regex that does
    /// not compile changes nothing), then search again. An empty query does
    /// nothing.
    pub fn replace_all(&mut self)
        requires
            old(self).wf(),
        ensures
            final(self).wf(),
            final(self).active_tab == old(self).active_tab,
            final(self).undo_stacks == old(self).undo_stacks,
            final(self).undo_positions == old(self).undo_positions,
            old(self).search.query@.len() == 0 ==> *final(self) == *old(self),
            old(self).search.query@.len() > 0 ==> {
                let a = old(self).active_tab as int;
                let q = old(self).search.query@;
                let r = old(self).search.replace@;
                &&& (old(self).tabs.len() > 0 && !old(self).search.regex) ==> {
                    &&& final(self).tabs_model() == old(self).tabs_model().update(
                        a,
                        with_content(old(self).tabs_model()[a], replace_from(old(self).tabs_model()[a].content, q, r, 0)),
                    )
                    &&& final(self).dirty
                }
                &&& (old(self).tabs.len() > 0 && old(self).search.regex && regex_valid(q)) ==> {
                    &&& final(self).tabs_model() == old(self).tabs_model().update(
                        a,
                        with_content(old(self).tabs_model()[a], regex_replace(q, old(self).tabs_model()[a].content, r)),
                    )
                    &&& final(self).dirty
                }
                &&& (old(self).tabs.len() == 0 || (old(self).search.regex && !regex_valid(q))) ==> {
                    &&& final(self).tabs == old(self).tabs
                    &&& final(self).dirty == old(self).dirty
                }
                &&& (final(self).search.results@, final(self).search.regex_error, final(self).search.idx)
                    == search_outcome(q, final(self).active_content(), old(self).search.regex, old(self).search.idx)
            },
    {
        if self.search.query.as_str().is_empty() {
            return;
        }
        if self.active_tab < self.tabs.len() {
            let a = self.active_tab;
            if self.search.regex {
                match regex_replace_all(
                    self.search.query.as_str(),
                    self.tabs[a].content.as_str(),
                    self.search.replace.as_str(),
                ) {
                    Some(new_content) => {
                        self.set_tab_content(a, new_content);
                        self.dirty = true;
                    },
                    None => {},
                }
            } else {
                let new_content = replace_plain(
                    self.tabs[a].content.as_str(),
                    self.search.query.as_str(),
                    self.search.replace.as_str(),
                );
                self.set_tab_content(a, new_content);
                self.dirty = true;
            }
        }
        self.run_search();
    }

    /// Unlock a tab's screen-privacy lock with the master password.
    pub fn unlock_tab(&mut self, idx: usize, pw: &str, stored_hash: Option<&str>) -> (r: Result<(), &'static str>)
        requires
            old(self).wf(),
        ensures
            final(self).wf(),
            final(self).active_tab == old(self).active_tab,
            final(self).undo_stacks == old(self).undo_stacks,
            final(self).undo_positions == old(self).undo_positions,
            pw@.len() == 0 ==> (is_err_with(r, "Password required."@) && *final(self) == *old(self)),
            pw@.len() > 0 && !password_matches(pw@, stored_or_empty(stored_hash)) ==> (is_err_with(r, "Incorrect password."@) && *final(self) == *old(self)),
            pw@.len() > 0 && password_matches(pw@, stored_or_empty(stored_hash)) ==> {
                &&& r is Ok
                &&& idx < old(self).tabs.len() ==> final(self).tabs_model() == old(self).tabs_model().update(
                    idx as int,
                    TabModel { locked: false, ..old(self).tabs_model()[idx as int] },
                ) && final(self).dirty
                &&& idx >= old(self).tabs.len() ==> *final(self) == *old(self)
            },
    {
        if pw.is_empty() {
            return Err("Password required.");
        }
        let stored = match stored_hash {
            Some(h) => h,
            None => "",
        };
        proof {
            reveal_strlit("");
        }
        if verify_password(pw, stored) {
            if idx < self.tabs.len() {
                self.set_tab_locked(idx, false);
            }
            Ok(())
        } else {
            Err("Incorrect password.")
        }
    }
}

/// The largest tab id (0 with no tabs).
pub open spec fn max_id(tabs: Seq<TabModel>) -> u32
    decreases tabs.len(),
{
    if tabs.len() == 0 {
        0
    } else {
        let m = max_id(tabs.drop_last());
        if tabs.last().id > m {
            tabs.last().id
        } else {
            m
        }
    }
}

/// The id of a new tab: one more than the largest id, saturating.
pub open spec fn next_id(tabs: Seq<TabModel>) -> u32 {
    if max_id(tabs) == u32::MAX {
        u32::MAX
    } else {
        (max_id(tabs) + 1) as u32
    }
}

pub proof fn lemma_max_id(tabs: Seq<TabModel>)
    ensures
        forall|k: int| 0 <= k < tabs.len() ==> (#[trigger] tabs[k]).id <= max_id(tabs),
    decreases tabs.len(),
{
    if tabs.len() > 0 {
        lemma_max_id(tabs.drop_last());
        assert forall|k: int| 0 <= k < tabs.len() implies (#[trigger] tabs[k]).id <= max_id(tabs) by {
            if k < tabs.len() - 1 {
                assert(tabs[k] == tabs.drop_last()[k]);
            }
        }
    }
}

fn next_tab_id(tabs: &Vec<Tab>) -> (r: u32)
    ensures
        r == next_id(tabs_view(tabs@)),
{
    let mut m: u32 = 0;
    let mut i: usize = 0;
    while i < tabs.len()
        invariant
            i <= tabs.len(),
            m == max_id(tabs_view(tabs@).take(i as int)),
        decreases tabs.len() - i,
    {
        proof {
            assert(tabs_view(tabs@).take(i + 1).drop_last() =~= tabs_view(tabs@).take(i as int));
        }
        if tabs[i].id > m {
            m = tabs[i].id;
        }
        i += 1;
    }
    proof {
        assert(tabs_view(tabs@).take(tabs.len() as int) =~= tabs_view(tabs@));
    }
    m.saturating_add(1)
}

/// The character of a decimal digit.
pub open spec fn digit_char(d: int) -> char {
    (48 + d) as char
}

fn digit(d: u8) -> (c: char)
    requires
        d < 10,
    ensures
        c == digit_char(d as int),
{
    (48u8 + d) as char
}

/// `r` is the error with message `msg`.
pub open spec fn is_err_with<T>(r: Result<T, &'static str>, msg: Seq<char>) -> bool {
    r matches Err(e) && e@ == msg
}

/// The stored password hash, or the empty text when none is set.
pub open spec fn stored_or_empty(stored_hash: Option<&str>) -> Seq<char> {
    match stored_hash {
        Some(h) => h@,
        None => Seq::empty(),
    }
}

/// What unlocking the vault should do next.
#[derive(Clone, Copy, PartialEq, Eq, Debug, Structural)]
pub enum UnlockPlan {
    /// No vault yet: hash the password and create the vault.
    Create,
    /// The password matches: open the stored notes.
    Open,
}

/// Check the lock-screen input. A new vault needs the password twice; an
/// existing one needs the password that matches the stored hash.
pub fn check_unlock(is_setup: bool, pw: &str, confirm: &str, stored_hash: Option<&str>) -> (r: Result<
    UnlockPlan,
    &'static str,
>)
    ensures
        pw@.len() == 0 ==> is_err_with(r, "Password is required."@),
        pw@.len() > 0 && !is_setup ==> {
            &&& confirm@.len() == 0 ==> is_err_with(r, "Please confirm your password."@)
            &&& confirm@.len() > 0 && pw@ != confirm@ ==> is_err_with(r, "Passwords do not match."@)
            &&& confirm@.len() > 0 && pw@ == confirm@ ==> r == Ok::<UnlockPlan, &'static str>(UnlockPlan::Create)
        },
        pw@.len() > 0 && is_setup ==> {
            &&& password_matches(pw@, stored_or_empty(stored_hash)) ==> r == Ok::<UnlockPlan, &'static str>(
                UnlockPlan::Open,
            )
            &&& !password_matches(pw@, stored_or_empty(stored_hash)) ==> is_err_with(r, "Incorrect password."@)
        },
{
    if pw.is_empty() {
        return Err("Password is required.");
    }
    if !is_setup {
        if confirm.is_empty() {
            return Err("Please confirm your password.");
        }
        if !str_equal(pw, confirm) {
            return Err("Passwords do not match.");
        }
        return Ok(UnlockPlan::Create);
    }
    let stored = match stored_hash {
        Some(h) => h,
        None => "",
    };
    proof {
        reveal_strlit("");
    }
    if verify_password(pw, stored) {
        Ok(UnlockPlan::Open)
    } else {
        Err("Incorrect password.")
    }
}

/// Check a master-password change: a non-empty new password, confirmed,
/// and the current password matching the stored hash.
pub fn check_password_change(current: &str, new_pw: &str, confirm: &str, stored_hash: Option<&str>) -> (r: Result<(), &'static str>)
    ensures
        new_pw@.len() == 0 ==> is_err_with(r, "New password is required."@),
        new_pw@.len() > 0 && new_pw@ != confirm@ ==> is_err_with(r, "Passwords do not match."@),
        new_pw@.len() > 0 && new_pw@ == confirm@ ==> {
            &&& password_matches(current@, stored_or_empty(stored_hash)) ==> r is Ok
            &&& !password_matches(current@, stored_or_empty(stored_hash)) ==> is_err_with(r, "Current password is incorrect."@)
        },
{
    if new_pw.is_empty() {
        return Err("New password is required.");
    }
    if !str_equal(new_pw, confirm) {
        return Err("Passwords do not match.");
    }
    let stored = match stored_hash {
        Some(h) => h,
        None => "",
    };
    proof {
        reveal_strlit("");
    }
    if verify_password(current, stored) {
        Ok(())
    } else {
        Err("Current password is incorrect.")
    }
}

/// Whether two texts are equal.
pub fn str_equal(a: &str, b: &str) -> (r: bool)
    ensures
        r == (a@ == b@),
{
    let x = chars_of(a);
    let y = chars_of(b);
    if x.len() != y.len() {
        return false;
    }
    let mut i: usize = 0;
    while i < x.len()
        invariant
            x@ == a@,
            y@ == b@,
            x.len() == y.len(),
            i <= x.len(),
            forall|k: int| 0 <= k < i ==> x@[k] == y@[k],
        decreases x.len() - i,
    {
        if x[i] != y[i] {
            return false;
        }
        i += 1;
    }
    proof {
        assert(x@ =~= y@);
    }
    true
}

/// Calls `Zeroize::zeroize` on a string, which zeroes its bytes and then
/// clears it.
#[verifier::external_body]
fn wipe_string(s: &mut String)
    ensures
        final(s)@ == Seq::<char>::empty(),
{
    zeroize::Zeroize::zeroize(s);
}

// ─── Laws ─────────────────────────────────────────────────────────────────────

/// Undo right after recording a new state returns to the state that was
/// current before it.
pub proof fn law_undo_after_push(stack: Seq<Seq<char>>, pos: int, c: Seq<char>)
    requires
        0 <= pos < stack.len() <= MAX_UNDO,
        stack[pos] != c,
    ensures
        ({
            let (s2, p2) = push_snap(stack, pos, c);
            &&& s2[p2] == c
            &&& undo_target(s2, p2) matches Some(q) && s2[q] == stack[pos]
        }),
{
    let kept = stack.take(pos + 1);
    let pushed = kept.push(c);
    assert(pushed[pos] == stack[pos]);
    if pushed.len() > MAX_UNDO {
        assert(pushed.skip(1)[pos - 1] == pushed[pos]);
    }
}

/// Redo right after undo returns to the state before the undo.
pub proof fn law_redo_after_undo(stack: Seq<Seq<char>>, pos: int)
    requires
        0 <= pos < stack.len(),
    ensures
        undo_target(stack, pos) matches Some(q) ==> redo_target(stack, q) == Some(pos),
{
}

/// Undo right after redo returns to the state before the redo.
pub proof fn law_undo_after_redo(stack: Seq<Seq<char>>, pos: int)
    requires
        0 <= pos < stack.len(),
    ensures
        redo_target(stack, pos) matches Some(q) ==> undo_target(stack, q) == Some(pos),
{
}

/// Recording a state never lets a history exceed 50 states, and the recorded
/// state becomes the current one.
pub proof fn law_push_bounded(stack: Seq<Seq<char>>, pos: int, c: Seq<char>)
    requires
        stack.len() <= MAX_UNDO,
        0 <= pos,
    ensures
        ({
            let (s2, p2) = push_snap(stack, pos, c);
            &&& s2.len() <= MAX_UNDO
            &&& 0 <= p2 < s2.len()
            &&& s2[p2] == c
        }),
{
    let kept = stack.take(min_int(pos + 1, stack.len() as int));
    let pushed = kept.push(c);
    if pushed.len() > MAX_UNDO {
        assert(pushed.skip(1)[pushed.len() - 2] == c);
    }
}

/// A new tab's id differs from every open tab's id unless the largest id is
/// already `u32::MAX`.
pub proof fn law_new_tab_id_fresh(tabs: Seq<TabModel>)
    requires
        max_id(tabs) < u32::MAX,
    ensures
        forall|k: int| 0 <= k < tabs.len() ==> (#[trigger] tabs[k]).id != next_id(tabs),
{
    lemma_max_id(tabs);
}

} // verus!
