//! Vim keys applied to the active tab of a session, leaving Insert mode, and
//! the history snapshots taken around edits and saves.

use vstd::prelude::*;
use crate::editor::{byte_to_char, chars_before};
use crate::session::{push_snap, undo_target, with_content, Session};
use crate::vim_keys::{apply_change, apply_change_of, engine_ok, key_step, vim_key, KeyOutcome, OutcomeModel};
use crate::text::{chars_of, slice_chars, string_from_chars};
use crate::vim::{clamp_index, clamp_normal, clamp_normal_of, left, left_of, Mode, Vim};

verus! {

/// The smaller of two integers.
pub open spec fn min_of(a: int, b: int) -> int {
    if a < b {
        a
    } else {
        b
    }
}

impl Session {
    /// Leaving Insert mode (Esc): the cursor steps one column left and onto a
    /// real character, the text typed since entering Insert mode becomes one
    /// undo step, and Vim returns to a clean Normal mode. Returns the cursor.
    pub fn vim_leave_insert(&mut self, vim: &mut Vim, cursor: usize) -> (r: usize)
        requires
            old(self).wf(),
            old(self).tabs.len() > 0,
        ensures
            final(self).wf(),
            final(self).tabs@ == old(self).tabs@,
            final(self).active_tab == old(self).active_tab,
            final(self).dirty == old(self).dirty,
            ({
                let s = old(self).tabs@[old(self).active_tab as int].content@;
                let id = old(self).tabs@[old(self).active_tab as int].id;
                &&& r == clamp_normal_of(s, left_of(s, cursor as int))
                &&& (final(self).stack_of(id), final(self).pos_of(id)) == push_snap(
                    old(self).stack_of(id),
                    old(self).pos_of(id),
                    s,
                )
                &&& forall|other: u32| other != id ==> #[trigger] final(self).stack_of(other)
                    == old(self).stack_of(other)
                &&& forall|other: u32| other != id ==> #[trigger] final(self).pos_of(other)
                    == old(self).pos_of(other)
            }),
            final(vim).mode == Mode::Normal,
            final(vim).count is None,
            final(vim).pending_op is None,
            final(vim).pending_find is None,
            !final(vim).pending_g,
            final(vim).want_col is None,
            final(vim).register == old(vim).register,
    {
        let a = self.active_tab;
        let text = chars_of(self.tabs[a].content.as_str());
        let ni = left(&text, cursor);
        let r = clamp_normal(&text, ni);
        let id = self.tabs[a].id;
        let snap = self.tabs[a].content.clone();
        self.push_undo_snap(id, snap);
        vim.reset_to_normal();
        r
    }

    /// Record the active tab's current content in its undo history (the
    /// snapshot taken after a pause in typing). Does nothing with no tabs.
    pub fn snapshot_active(&mut self)
        requires
            old(self).wf(),
        ensures
            final(self).wf(),
            final(self).tabs@ == old(self).tabs@,
            final(self).active_tab == old(self).active_tab,
            final(self).dirty == old(self).dirty,
            old(self).tabs.len() == 0 ==> *final(self) == *old(self),
            old(self).tabs.len() > 0 ==> {
                let id = old(self).tabs@[old(self).active_tab as int].id;
                &&& (final(self).stack_of(id), final(self).pos_of(id)) == push_snap(
                    old(self).stack_of(id),
                    old(self).pos_of(id),
                    old(self).tabs@[old(self).active_tab as int].content@,
                )
                &&& forall|other: u32| other != id ==> #[trigger] final(self).stack_of(other)
                    == old(self).stack_of(other)
                &&& forall|other: u32| other != id ==> #[trigger] final(self).pos_of(other)
                    == old(self).pos_of(other)
            },
    {
        if self.active_tab < self.tabs.len() {
            let a = self.active_tab;
            let id = self.tabs[a].id;
            let snap = self.tabs[a].content.clone();
            self.push_undo_snap(id, snap);
        }
    }

    /// After a successful save: nothing is unsaved, and the active tab's
    /// content is recorded in its history.
    pub fn mark_saved(&mut self)
        requires
            old(self).wf(),
        ensures
            final(self).wf(),
            !final(self).dirty,
            final(self).tabs@ == old(self).tabs@,
            final(self).active_tab == old(self).active_tab,
            old(self).tabs.len() == 0 ==> final(self).undo_stacks == old(self).undo_stacks
                && final(self).undo_positions == old(self).undo_positions,
            old(self).tabs.len() > 0 ==> {
                let id = old(self).tabs@[old(self).active_tab as int].id;
                &&& (final(self).stack_of(id), final(self).pos_of(id)) == push_snap(
                    old(self).stack_of(id),
                    old(self).pos_of(id),
                    old(self).tabs@[old(self).active_tab as int].content@,
                )
                &&& forall|other: u32| other != id ==> #[trigger] final(self).stack_of(other)
                    == old(self).stack_of(other)
                &&& forall|other: u32| other != id ==> #[trigger] final(self).pos_of(other)
                    == old(self).pos_of(other)
            },
    {
        self.dirty = false;
        self.snapshot_active();
    }
}

/// The name of a tab imported from a file: the file's stem cut to 64
/// characters, or "Imported" when the stem is unknown.
pub fn imported_tab_name(stem: Option<&str>) -> (r: String)
    ensures
        match stem {
            Some(s) => r@ == s@.take(min_of(s@.len() as int, 64)),
            None => r@ == "Imported"@,
        },
{
    match stem {
        Some(s) => {
            let cs = chars_of(s);
            let keep = if cs.len() < 64 {
                cs.len()
            } else {
                64
            };
            string_from_chars(slice_chars(cs.as_slice(), 0, keep).as_slice())
        },
        None => {
            proof {
                reveal_strlit("Imported");
            }
            String::from_str("Imported")
        },
    }
}

// ─── Applying Vim keys ────────────────────────────────────────────────────────

/// Where the matches start, as character positions of `s`.
pub open spec fn match_starts(s: Seq<char>, results: Seq<(usize, usize)>) -> Seq<int> {
    results.map_values(|m: (usize, usize)| chars_before(s, m.0 as int))
}

/// The first index from `from` on whose start lies after `cur`.
pub open spec fn first_after(starts: Seq<int>, cur: int, from: int) -> Option<int>
    decreases starts.len() - from,
{
    if from < 0 || from >= starts.len() {
        None
    } else if starts[from] > cur {
        Some(from)
    } else {
        first_after(starts, cur, from + 1)
    }
}

/// The last index below `upto` whose start lies before `cur`.
pub open spec fn last_before(starts: Seq<int>, cur: int, upto: int) -> Option<int>
    decreases upto,
{
    if upto <= 0 || upto > starts.len() {
        None
    } else if starts[upto - 1] < cur {
        Some(upto - 1)
    } else {
        last_before(starts, cur, upto - 1)
    }
}

/// The match `n` (forward) or `N` (backward) jumps to from `cur`: the next
/// one in that direction, wrapping around the text.
pub open spec fn jump_index(starts: Seq<int>, cur: int, fwd: bool) -> Option<int> {
    if starts.len() == 0 {
        None
    } else if fwd {
        match first_after(starts, cur, 0) {
            Some(k) => Some(k),
            None => Some(0),
        }
    } else {
        match last_before(starts, cur, starts.len() as int) {
            Some(k) => Some(k),
            None => Some(starts.len() - 1),
        }
    }
}

/// The match to jump to from character position `cur`, if there are matches.
pub fn jump_to_match(content: &str, results: &[(usize, usize)], cur: usize, fwd: bool) -> (r: Option<usize>)
    ensures
        r is None <==> jump_index(match_starts(content@, results@), cur as int, fwd) is None,
        r matches Some(k) ==> jump_index(match_starts(content@, results@), cur as int, fwd) == Some(k as int),
        r matches Some(k) ==> k < results.len(),
{
    let ghost starts = match_starts(content@, results@);
    let n = results.len();
    if n == 0 {
        return None;
    }
    if fwd {
        let mut k: usize = 0;
        while k < n
            invariant
                k <= n == results.len(),
                starts == match_starts(content@, results@),
                first_after(starts, cur as int, 0) == first_after(starts, cur as int, k as int),
                fwd,
            decreases n - k,
        {
            let st = byte_to_char(content, results[k].0);
            assert(starts[k as int] == st);
            if st > cur {
                assert(first_after(starts, cur as int, k as int) == Some(k as int));
                return Some(k);
            }
            k += 1;
        }
        Some(0)
    } else {
        let mut k: usize = n;
        while k > 0
            invariant
                k <= n == results.len(),
                starts == match_starts(content@, results@),
                last_before(starts, cur as int, n as int) == last_before(starts, cur as int, k as int),
                !fwd,
            decreases k,
        {
            let st = byte_to_char(content, results[k - 1].0);
            assert(starts[k - 1] == st);
            if st < cur {
                assert(last_before(starts, cur as int, k as int) == Some(k - 1));
                return Some(k - 1);
            }
            k -= 1;
        }
        Some(n - 1)
    }
}

/// What the editor does after a Vim key.
pub enum VimReply {
    /// Keep the cursor where it is.
    Stay,
    /// Put the cursor here (in Visual mode: the selection's moving end).
    Move(usize),
    /// The command line was opened.
    Cmdline,
}

impl Session {
    /// One typed character in Vim's Normal or Visual mode, applied to the
    /// active tab: what `vim_key` asks for is carried out. A change records
    /// the text before it and the text after it in the tab's history (so a
    /// change that goes on in Insert mode takes two undo steps).
    #[verifier::rlimit(40)]
    pub fn vim_apply(&mut self, vim: &mut Vim, cursor: usize, c: char) -> (r: VimReply)
        requires
            old(self).wf(),
            old(self).tabs.len() > 0,
            old(self).tabs@[old(self).active_tab as int].content@.len() < usize::MAX / 2,
            engine_ok(old(vim)@, old(self).tabs@[old(self).active_tab as int].content@.len() as int),
        ensures
            final(self).wf(),
            final(self).active_tab == old(self).active_tab,
            final(self).tabs.len() == old(self).tabs.len(),
            final(vim)@.register.len() <= usize::MAX / 2,
            ({
                let a = old(self).active_tab as int;
                let s = old(self).tabs@[a].content@;
                let id = old(self).tabs@[a].id;
                let (v2, out) = key_step(old(vim)@, s, cursor as int, c);
                &&& final(vim)@ == v2
                &&& match out {
                    OutcomeModel::Pending => r is Stay && *final(self) == *old(self),
                    OutcomeModel::Move(i) => r == VimReply::Move(i as usize) && *final(self) == *old(self),
                    OutcomeModel::Cmdline => r is Cmdline && *final(self) == *old(self),
                    OutcomeModel::Edit(st, en, ins, cur) => {
                        let t = apply_change_of(s, st, en, ins);
                        let (st1, p1) = push_snap(old(self).stack_of(id), old(self).pos_of(id), s);
                        &&& r == VimReply::Move(cur as usize)
                        &&& final(self).tabs_model() == old(self).tabs_model().update(
                            a,
                            with_content(old(self).tabs_model()[a], t),
                        )
                        &&& (final(self).stack_of(id), final(self).pos_of(id)) == push_snap(st1, p1, t)
                        &&& forall|o: u32| o != id ==> #[trigger] final(self).stack_of(o) == old(self).stack_of(o)
                        &&& forall|o: u32| o != id ==> #[trigger] final(self).pos_of(o) == old(self).pos_of(o)
                        &&& final(self).dirty
                    },
                    OutcomeModel::Undo => {
                        &&& match undo_target(old(self).stack_of(id), old(self).pos_of(id)) {
                            Some(q) => {
                                &&& final(self).tabs_model() == old(self).tabs_model().update(
                                    a,
                                    with_content(old(self).tabs_model()[a], old(self).stack_of(id)[q]),
                                )
                                &&& final(self).pos_of(id) == q
                                &&& final(self).dirty
                            },
                            None => *final(self) == *old(self),
                        }
                        &&& r == VimReply::Move(clamp_normal_of(final(self).tabs@[a].content@, cursor as int) as usize)
                    },
                    OutcomeModel::SearchNext(f) => match jump_index(
                        match_starts(s, old(self).search.results@),
                        clamp_index(s, cursor as int),
                        f,
                    ) {
                        Some(k) => {
                            &&& r == VimReply::Move(match_starts(s, old(self).search.results@)[k] as usize)
                            &&& final(self).search.idx == k
                            &&& final(self).search.results == old(self).search.results
                            &&& final(self).search.query == old(self).search.query
                            &&& final(self).search.replace == old(self).search.replace
                            &&& final(self).search.regex == old(self).search.regex
                            &&& final(self).search.regex_error == old(self).search.regex_error
                            &&& final(self).tabs == old(self).tabs
                            &&& final(self).dirty == old(self).dirty
                            &&& final(self).undo_stacks == old(self).undo_stacks
                            &&& final(self).undo_positions == old(self).undo_positions
                        },
                        None => r is Stay && *final(self) == *old(self),
                    },
                }
            }),
    {
        let a = self.active_tab;
        let text = chars_of(self.tabs[a].content.as_str());
        let out = vim_key(vim, text.as_slice(), cursor, c);
        match out {
            KeyOutcome::Pending => VimReply::Stay,
            KeyOutcome::Move(i) => VimReply::Move(i),
            KeyOutcome::Cmdline => VimReply::Cmdline,
            KeyOutcome::Edit(ch) => {
                let id = self.tabs[a].id;
                let before = self.tabs[a].content.clone();
                let ghost s0 = *self;
                self.push_undo_snap(id, before);
                let changed = apply_change(text.as_slice(), ch.start, ch.end, ch.insert.as_slice());
                let after = string_from_chars(changed.as_slice());
                let snap = after.clone();
                let ghost s1 = *self;
                self.set_tab_content(a, after);
                let ghost s2 = *self;
                self.push_undo_snap(id, snap);
                let ghost s3 = *self;
                self.dirty = true;
                assert forall|o: u32| o != id implies #[trigger] self.stack_of(o) == s0.stack_of(o) by {
                    assert(s1.stack_of(o) == s0.stack_of(o));
                    assert(s2.stack_of(o) == s1.stack_of(o));
                    assert(s3.stack_of(o) == s2.stack_of(o));
                }
                assert forall|o: u32| o != id implies #[trigger] self.pos_of(o) == s0.pos_of(o) by {
                    assert(s1.pos_of(o) == s0.pos_of(o));
                    assert(s2.pos_of(o) == s1.pos_of(o));
                    assert(s3.pos_of(o) == s2.pos_of(o));
                }
                assert(self.tabs_model() == s2.tabs_model());
                assert(s1.tabs_model() == s0.tabs_model());
                VimReply::Move(ch.cursor)
            },
            KeyOutcome::Undo => {
                self.do_undo();
                assert(self.tabs_model().len() == self.tabs@.len());
                let now = chars_of(self.tabs[a].content.as_str());
                VimReply::Move(clamp_normal(now.as_slice(), cursor))
            },
            KeyOutcome::SearchNext(fwd) => {
                let p = if cursor < text.len() {
                    cursor
                } else {
                    text.len()
                };
                match jump_to_match(self.tabs[a].content.as_str(), self.search.results.as_slice(), p, fwd) {
                    Some(k) => {
                        let st = byte_to_char(self.tabs[a].content.as_str(), self.search.results[k].0);
                        assert(match_starts(text@, self.search.results@)[k as int] == st);
                        self.search.idx = k;
                        VimReply::Move(st)
                    },
                    None => VimReply::Stay,
                }
            },
        }
    }
}

} // verus!
