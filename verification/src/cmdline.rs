//! Running Vim's command line (`/pattern`, `?pattern`, `:command`) on the
//! active tab of a session.

use vstd::prelude::*;
use crate::editing::{jump_index, jump_to_match, match_starts};
use crate::editor::byte_to_char;
use crate::ex::{ex_command_of, parse_ex, ExCommand, ExModel};
use crate::markdown::{lines_view, split_lines, split_lines_exec};
use crate::search::{regex_replace, regex_replace_all, regex_replace_first, regex_replace_once, regex_valid, search_outcome};
use crate::session::{push_snap, with_content, Session};
use crate::text::{chars_of, string_from_chars};
use crate::vim::{
    clamp_index, clamp_normal, clamp_normal_of, first_non_blank, first_non_blank_of, lemma_line_bounds,
    line_end, line_end_of, line_start, line_start_of, CmdKind, Vim, VimModel,
};
use crate::vim_keys::{repeat_motion, repeat_of};

verus! {

/// What the editor does after the command line ran.
pub enum CmdReply {
    /// Nothing more.
    Done,
    /// Put the cursor here.
    Move(usize),
    /// Save the notes (`:w`).
    Save,
    /// Save and lock (`:q`, `:wq`, `:x`).
    SaveAndLock,
    /// Lock without saving (`:q!`).
    Lock,
    /// The command failed; show this message.
    Failed(&'static str),
}

pub enum CmdReplyModel {
    Done,
    Move(int),
    Save,
    SaveAndLock,
    Lock,
    Failed(Seq<char>),
}

impl View for CmdReply {
    type V = CmdReplyModel;

    open spec fn view(&self) -> CmdReplyModel {
        match self {
            CmdReply::Done => CmdReplyModel::Done,
            CmdReply::Move(i) => CmdReplyModel::Move(*i as int),
            CmdReply::Save => CmdReplyModel::Save,
            CmdReply::SaveAndLock => CmdReplyModel::SaveAndLock,
            CmdReply::Lock => CmdReplyModel::Lock,
            CmdReply::Failed(m) => CmdReplyModel::Failed(m@),
        }
    }
}

/// Where `:{v}` puts the cursor: on the first non-blank of line `v` (lines
/// count from 1; `0` is the first line, anything past the end the last).
pub open spec fn goto_line_of(s: Seq<char>, v: int) -> int {
    let n = if v < 1 {
        0
    } else if v > s.len() + 1 {
        s.len() as int
    } else {
        v - 1
    };
    first_non_blank_of(s, repeat_of(s, 0, 'j', n as nat, 0))
}

/// A line after substitution: every match (`g`) or the first one.
pub open spec fn subst_line(line: Seq<char>, pat: Seq<char>, rep: Seq<char>, global: bool) -> Seq<char> {
    if global {
        regex_replace(pat, line, rep)
    } else {
        regex_replace_first(pat, line, rep)
    }
}

/// Lines joined with newlines between them.
pub open spec fn join_lines(ls: Seq<Seq<char>>) -> Seq<char>
    decreases ls.len(),
{
    if ls.len() == 0 {
        Seq::empty()
    } else if ls.len() == 1 {
        ls[0]
    } else {
        join_lines(ls.drop_last()) + seq!['\n'] + ls.last()
    }
}

/// The text after `:s` (the cursor's line) or `:%s` (each line).
pub open spec fn subst_text(s: Seq<char>, pat: Seq<char>, rep: Seq<char>, global: bool, whole: bool, p: int) -> Seq<char> {
    if whole {
        join_lines(split_lines(s).map_values(|l: Seq<char>| subst_line(l, pat, rep, global)))
    } else {
        let ls = line_start_of(s, p);
        let le = line_end_of(s, p);
        s.take(ls) + subst_line(s.subrange(ls, le), pat, rep, global) + s.skip(le)
    }
}

/// The cursor after a substitution.
pub open spec fn subst_cursor(t: Seq<char>, s: Seq<char>, whole: bool, p: int) -> int {
    if whole {
        clamp_normal_of(t, p)
    } else {
        first_non_blank_of(t, line_start_of(s, p))
    }
}

/// The Vim state once the command line is closed.
pub open spec fn closed(v: VimModel) -> VimModel {
    VimModel { cmdline: None, cmd_focus: false, cmd_buf: Seq::empty(), ..v }
}

fn close_cmdline(vim: &mut Vim)
    ensures
        final(vim)@ == closed(old(vim)@),
{
    vim.cmdline = None;
    vim.cmd_focus = false;
    vim.cmd_buf = String::new();
}

/// The line `v` of `:{v}` leads to.
fn goto_line(s: &[char], v: usize) -> (r: usize)
    requires
        s.len() < usize::MAX / 2,
    ensures
        r == goto_line_of(s@, v as int),
{
    let n = if v < 1 {
        0
    } else if v > s.len() + 1 {
        s.len()
    } else {
        v - 1
    };
    let t = repeat_motion(s, 0, 'j', n, 0);
    first_non_blank(s, t)
}

/// Substitute in every line of `s`; `None` when the pattern is invalid.
fn subst_all_lines(s: &[char], pat: &str, rep: &str, global: bool) -> (r: Option<Vec<char>>)
    requires
        regex_valid(pat@),
    ensures
        r matches Some(t) && t@ == subst_text(s@, pat@, rep@, global, true, 0),
{
    let lines = split_lines_exec(s);
    let ghost mapped = split_lines(s@).map_values(|l: Seq<char>| subst_line(l, pat@, rep@, global));
    let mut out: Vec<char> = Vec::new();
    let mut k: usize = 0;
    while k < lines.len()
        invariant
            k <= lines.len(),
            lines_view(lines@) == split_lines(s@),
            regex_valid(pat@),
            mapped == split_lines(s@).map_values(|l: Seq<char>| subst_line(l, pat@, rep@, global)),
            out@ == join_lines(mapped.take(k as int)),
        decreases lines.len() - k,
    {
        let line = string_from_chars(lines[k].as_slice());
        proof {
            assert(line@ == split_lines(s@)[k as int]);
        }
        let replaced = if global {
            regex_replace_all(pat, line.as_str(), rep)
        } else {
            regex_replace_once(pat, line.as_str(), rep)
        };
        let new_line = match replaced {
            Some(x) => x,
            None => return None,
        };
        let nc = chars_of(new_line.as_str());
        let ghost before = out@;
        if k > 0 {
            out.push('\n');
        }
        let mut j: usize = 0;
        let ghost base = out@;
        while j < nc.len()
            invariant
                j <= nc.len(),
                out@ == base + nc@.take(j as int),
            decreases nc.len() - j,
        {
            out.push(nc[j]);
            proof {
                assert(nc@.take(j + 1) =~= nc@.take(j as int).push(nc@[j as int]));
            }
            j += 1;
        }
        proof {
            assert(nc@.take(nc.len() as int) =~= nc@);
            assert(nc@ == mapped[k as int]);
            let mk = mapped.take(k + 1);
            if k == 0 {
                assert(mk.len() == 1);
                assert(out@ =~= mk[0]);
            } else {
                assert(mk.drop_last() =~= mapped.take(k as int));
                assert(out@ =~= before + seq!['\n'] + mk.last());
            }
        }
        k += 1;
    }
    proof {
        assert(mapped.len() == lines.len());
        assert(mapped.take(lines.len() as int) =~= mapped);
    }
    Some(out)
}

/// Substitute in the cursor's line of `s`.
fn subst_one_line(s: &[char], pat: &str, rep: &str, global: bool, p: usize) -> (r: Option<Vec<char>>)
    requires
        regex_valid(pat@),
        p <= s.len(),
    ensures
        r matches Some(t) && t@ == subst_text(s@, pat@, rep@, global, false, p as int),
{
    proof {
        lemma_line_bounds(s@, p as int);
    }
    let ls = line_start(s, p);
    let le = line_end(s, p);
    let mut line: Vec<char> = Vec::new();
    let mut k = ls;
    while k < le
        invariant
            ls <= k <= le <= s.len(),
            line@ == s@.subrange(ls as int, k as int),
        decreases le - k,
    {
        line.push(s[k]);
        proof {
            assert(s@.subrange(ls as int, k + 1) =~= s@.subrange(ls as int, k as int).push(s@[k as int]));
        }
        k += 1;
    }
    let ls_str = string_from_chars(line.as_slice());
    let replaced = if global {
        regex_replace_all(pat, ls_str.as_str(), rep)
    } else {
        regex_replace_once(pat, ls_str.as_str(), rep)
    };
    let new_line = match replaced {
        Some(x) => chars_of(x.as_str()),
        None => return None,
    };
    let mut out: Vec<char> = Vec::new();
    let mut k: usize = 0;
    while k < ls
        invariant
            k <= ls <= s.len(),
            out@ == s@.take(k as int),
        decreases ls - k,
    {
        out.push(s[k]);
        proof {
            assert(s@.take(k + 1) =~= s@.take(k as int).push(s@[k as int]));
        }
        k += 1;
    }
    let mut j: usize = 0;
    while j < new_line.len()
        invariant
            j <= new_line.len(),
            out@ == s@.take(ls as int) + new_line@.take(j as int),
        decreases new_line.len() - j,
    {
        out.push(new_line[j]);
        proof {
            assert(new_line@.take(j + 1) =~= new_line@.take(j as int).push(new_line@[j as int]));
        }
        j += 1;
    }
    let mut k = le;
    while k < s.len()
        invariant
            le <= k <= s.len(),
            out@ == s@.take(ls as int) + new_line@ + s@.subrange(le as int, k as int),
        decreases s.len() - k,
    {
        out.push(s[k]);
        proof {
            assert(s@.subrange(le as int, k + 1) =~= s@.subrange(le as int, k as int).push(s@[k as int]));
        }
        k += 1;
    }
    proof {
        assert(new_line@.take(new_line.len() as int) =~= new_line@);
        assert(s@.subrange(le as int, s.len() as int) =~= s@.skip(le as int));
    }
    Some(out)
}

impl Session {
    /// Run the open command line on the active tab, then close it. `/` and
    /// `?` search the text with the typed pattern as a regular expression and
    /// jump to the next match forward or backward from the cursor (wrapping);
    /// `:` runs a command (see `ex_command_of`). A substitution that changes
    /// the text records the text before and after it in the tab's history.
    #[verifier::rlimit(60)]
    pub fn vim_run_cmdline(&mut self, vim: &mut Vim, cursor: usize) -> (r: CmdReply)
        requires
            old(self).wf(),
            old(self).tabs.len() > 0,
            old(self).tabs@[old(self).active_tab as int].content@.len() < usize::MAX / 2,
        ensures
            final(self).wf(),
            final(self).active_tab == old(self).active_tab,
            final(self).tabs.len() == old(self).tabs.len(),
            ({
                let a = old(self).active_tab as int;
                let s = old(self).tabs@[a].content@;
                let id = old(self).tabs@[a].id;
                let p = clamp_index(s, cursor as int);
                let v = old(vim)@;
                let b = v.cmd_buf;
                let unchanged = *final(self) == *old(self);
                match v.cmdline {
                    None => r is Done && unchanged && final(vim)@ == closed(v),
                    Some(CmdKind::Ex) => match ex_command_of(b) {
                        ExModel::Write => r is Save && unchanged && final(vim)@ == closed(v),
                        ExModel::Quit => r is SaveAndLock && unchanged && final(vim)@ == closed(v),
                        ExModel::QuitNoSave => r is Lock && unchanged && final(vim)@ == closed(v),
                        ExModel::NoHighlight => r is Done && unchanged && final(vim)@ == closed(
                            VimModel { search_active: false, ..v },
                        ),
                        ExModel::GotoLine(n) => r@ == CmdReplyModel::Move(goto_line_of(s, n)) && unchanged
                            && final(vim)@ == closed(v),
                        ExModel::Unknown => r@ == CmdReplyModel::Failed("Not an editor command"@) && unchanged
                            && final(vim)@ == closed(v),
                        ExModel::Substitute(pat, rep, g, whole) => {
                            &&& final(vim)@ == closed(v)
                            &&& if !regex_valid(pat) {
                                r@ == CmdReplyModel::Failed("Invalid pattern"@) && unchanged
                            } else {
                                let t = subst_text(s, pat, rep, g, whole, p);
                                if t == s {
                                    r@ == CmdReplyModel::Failed("Pattern not found"@) && unchanged
                                } else {
                                    let (st1, p1) = push_snap(old(self).stack_of(id), old(self).pos_of(id), s);
                                    &&& r@ == CmdReplyModel::Move(subst_cursor(t, s, whole, p))
                                    &&& final(self).tabs_model() == old(self).tabs_model().update(
                                        a,
                                        with_content(old(self).tabs_model()[a], t),
                                    )
                                    &&& (final(self).stack_of(id), final(self).pos_of(id)) == push_snap(st1, p1, t)
                                    &&& forall|o: u32| o != id ==> #[trigger] final(self).stack_of(o) == old(self).stack_of(o)
                                    &&& forall|o: u32| o != id ==> #[trigger] final(self).pos_of(o) == old(self).pos_of(o)
                                    &&& final(self).dirty
                                }
                            }
                        },
                    },
                    Some(kind) => if b.len() == 0 {
                        r is Done && unchanged && final(vim)@ == closed(v)
                    } else {
                        let fwd = kind == CmdKind::SearchFwd;
                        let (res, err, idx) = search_outcome(b, s, true, old(self).search.idx);
                        &&& final(vim)@ == closed(VimModel { search_active: true, search_forward: fwd, ..v })
                        &&& final(self).tabs == old(self).tabs
                        &&& final(self).dirty == old(self).dirty
                        &&& final(self).undo_stacks == old(self).undo_stacks
                        &&& final(self).undo_positions == old(self).undo_positions
                        &&& final(self).search.query@ == b
                        &&& final(self).search.regex
                        &&& final(self).search.replace == old(self).search.replace
                        &&& final(self).search.results@ == res
                        &&& final(self).search.regex_error == err
                        &&& if err {
                            r@ == CmdReplyModel::Failed("Invalid pattern"@) && final(self).search.idx == idx
                        } else {
                            match jump_index(match_starts(s, res), p, fwd) {
                                Some(k) => r@ == CmdReplyModel::Move(match_starts(s, res)[k])
                                    && final(self).search.idx == k,
                                None => r@ == CmdReplyModel::Failed("Pattern not found"@)
                                    && final(self).search.idx == idx,
                            }
                        }
                    },
                }
            }),
    {
        proof {
            reveal_strlit("Not an editor command");
            reveal_strlit("Invalid pattern");
            reveal_strlit("Pattern not found");
        }
        let a = self.active_tab;
        let text = chars_of(self.tabs[a].content.as_str());
        let p = if cursor < text.len() {
            cursor
        } else {
            text.len()
        };
        let kind = match vim.cmdline {
            None => {
                close_cmdline(vim);
                return CmdReply::Done;
            },
            Some(k) => k,
        };
        let b = vim.cmd_buf.clone();
        match kind {
            CmdKind::Ex => {
                close_cmdline(vim);
                match parse_ex(b.as_str()) {
                    ExCommand::Write => CmdReply::Save,
                    ExCommand::Quit => CmdReply::SaveAndLock,
                    ExCommand::QuitNoSave => CmdReply::Lock,
                    ExCommand::NoHighlight => {
                        vim.search_active = false;
                        CmdReply::Done
                    },
                    ExCommand::GotoLine(n) => CmdReply::Move(goto_line(text.as_slice(), n)),
                    ExCommand::Unknown => CmdReply::Failed("Not an editor command"),
                    ExCommand::Substitute { pattern, replacement, global, whole } => {
                        let pat = string_from_chars(pattern.as_slice());
                        let rep = string_from_chars(replacement.as_slice());
                        let probe = regex_replace_once(pat.as_str(), "", rep.as_str());
                        if probe.is_none() {
                            return CmdReply::Failed("Invalid pattern");
                        }
                        let changed = if whole {
                            subst_all_lines(text.as_slice(), pat.as_str(), rep.as_str(), global)
                        } else {
                            subst_one_line(text.as_slice(), pat.as_str(), rep.as_str(), global, p)
                        };
                        let t = match changed {
                            Some(t) => t,
                            None => return CmdReply::Failed("Invalid pattern"),
                        };
                        if vec_chars_equal(t.as_slice(), text.as_slice()) {
                            return CmdReply::Failed("Pattern not found");
                        }
                        let cur = if whole {
                            clamp_normal(t.as_slice(), p)
                        } else {
                            proof {
                                lemma_line_bounds(text@, p as int);
                            }
                            let ls = line_start(text.as_slice(), p);
                            first_non_blank(t.as_slice(), ls)
                        };
                        let id = self.tabs[a].id;
                        let before = self.tabs[a].content.clone();
                        let ghost s0 = *self;
                        self.push_undo_snap(id, before);
                        let after = string_from_chars(t.as_slice());
                        let snap = after.clone();
                        let ghost s1 = *self;
                        self.set_tab_content(a, after);
                        let ghost s2 = *self;
                        self.push_undo_snap(id, snap);
                        let ghost s3 = *self;
                        self.dirty = true;
                        assert forall|o: u32| o != id implies #[trigger] self.stack_of(o) == s0.stack_of(o) by {
                            assert(s1.stack_of(o) == s0.stack_of(o));
                            assert(s2.stack_of(o) == s1.stack_of(o));
                            assert(s3.stack_of(o) == s2.stack_of(o));
                        }
                        assert forall|o: u32| o != id implies #[trigger] self.pos_of(o) == s0.pos_of(o) by {
                            assert(s1.pos_of(o) == s0.pos_of(o));
                            assert(s2.pos_of(o) == s1.pos_of(o));
                            assert(s3.pos_of(o) == s2.pos_of(o));
                        }
                        assert(self.tabs_model() == s2.tabs_model());
                        assert(s1.tabs_model() == s0.tabs_model());
                        CmdReply::Move(cur)
                    },
                }
            },
            _ => {
                let fwd = match kind {
                    CmdKind::SearchFwd => true,
                    _ => false,
                };
                if b.as_str().is_empty() {
                    close_cmdline(vim);
                    return CmdReply::Done;
                }
                self.search.query = b;
                self.search.regex = true;
                self.run_search();
                close_cmdline(vim);
                vim.search_active = true;
                vim.search_forward = fwd;
                if self.search.regex_error {
                    return CmdReply::Failed("Invalid pattern");
                }
                match jump_to_match(self.tabs[a].content.as_str(), self.search.results.as_slice(), p, fwd) {
                    Some(k) => {
                        let st = byte_to_char(self.tabs[a].content.as_str(), self.search.results[k].0);
                        assert(match_starts(text@, self.search.results@)[k as int] == st);
                        self.search.idx = k;
                        CmdReply::Move(st)
                    },
                    None => CmdReply::Failed("Pattern not found"),
                }
            },
        }
    }
}

/// Whether two character sequences are equal.
fn vec_chars_equal(x: &[char], y: &[char]) -> (r: bool)
    ensures
        r == (x@ == y@),
{
    if x.len() != y.len() {
        return false;
    }
    let mut k: usize = 0;
    while k < x.len()
        invariant
            k <= x.len() == y.len(),
            forall|j: int| 0 <= j < k ==> x@[j] == y@[j],
        decreases x.len() - k,
    {
        if x[k] != y[k] {
            return false;
        }
        k += 1;
    }
    proof {
        assert(x@ =~= y@);
    }
    true
}

} // verus!
