use secure_note::cmdline::CmdReply;
use secure_note::editing::VimReply;
use secure_note::session::Session;
use secure_note::storage::Tab;
use secure_note::vim::{CmdKind, Mode, Vim};
use secure_note::vim_keys::{escape_key, vim_key, KeyOutcome, MAX_COUNT};

/// An editor with one tab, Vim in Normal mode, and a cursor.
struct Ed {
    s: Session,
    vim: Vim,
    cur: usize,
}

fn ed(text: &str, cur: usize) -> Ed {
    let mut s = Session::new();
    s.open_tabs(vec![Tab { id: 1, name: "n".to_string(), content: text.to_string(), locked: false }]);
    Ed { s, vim: Vim::default(), cur }
}

impl Ed {
    fn keys(&mut self, ks: &str) {
        for c in ks.chars() {
            if let VimReply::Move(i) = self.s.vim_apply(&mut self.vim, self.cur, c) {
                self.cur = i;
            }
        }
    }

    fn text(&self) -> String {
        self.s.tabs[0].content.clone()
    }

    /// Open the command line with `key` (`/`, `?` or `:`), type `line`, run it.
    fn cmd(&mut self, key: char, line: &str) -> CmdReply {
        self.keys(&key.to_string());
        self.vim.cmd_buf = line.to_string();
        let r = self.s.vim_run_cmdline(&mut self.vim, self.cur);
        if let CmdReply::Move(i) = r {
            self.cur = i;
        }
        r
    }
}

#[test]
fn x_deletes_under_the_cursor() {
    let mut e = ed("abc", 1);
    e.keys("x");
    assert_eq!(e.text(), "ac");
    assert_eq!(e.cur, 1);
    assert_eq!(e.vim.register, "b");
    assert!(!e.vim.register_linewise);
    assert!(e.s.dirty);
}

#[test]
fn counted_x_stays_on_the_line() {
    let mut e = ed("abcdef\ngh", 1);
    e.keys("3x");
    assert_eq!(e.text(), "aef\ngh");
    assert_eq!(e.cur, 1);
    e.keys("9x");
    assert_eq!(e.text(), "a\ngh");
    assert_eq!(e.cur, 0);
}

#[test]
fn x_on_an_empty_line_does_nothing() {
    let mut e = ed("a\n\nb", 2);
    e.keys("x");
    assert_eq!(e.text(), "a\n\nb");
    assert!(!e.s.dirty);
}

#[test]
fn capital_x_deletes_before_the_cursor() {
    let mut e = ed("abc", 2);
    e.keys("X");
    assert_eq!(e.text(), "ac");
    assert_eq!(e.cur, 1);
    let mut f = ed("abc\nd", 4);
    f.keys("X");
    assert_eq!(f.text(), "abc\nd");
}

#[test]
fn dw_deletes_a_word_and_its_space() {
    let mut e = ed("foo bar", 0);
    e.keys("dw");
    assert_eq!(e.text(), "bar");
    assert_eq!(e.cur, 0);
    assert_eq!(e.vim.register, "foo ");
}

#[test]
fn dw_on_the_last_word_keeps_the_line_break() {
    let mut e = ed("foo bar\nbaz", 4);
    e.keys("dw");
    assert_eq!(e.text(), "foo \nbaz");
    assert_eq!(e.cur, 3);
}

#[test]
fn cw_changes_to_the_end_of_the_word() {
    let mut e = ed("foo bar", 0);
    e.keys("cw");
    assert_eq!(e.text(), " bar");
    assert_eq!(e.vim.mode, Mode::Insert);
    assert_eq!(e.cur, 0);
    assert_eq!(e.vim.register, "foo");
}

#[test]
fn d_dollar_and_capital_d() {
    let mut e = ed("hello world", 6);
    e.keys("D");
    assert_eq!(e.text(), "hello ");
    assert_eq!(e.cur, 5);
    let mut f = ed("hello world", 6);
    f.keys("d$");
    assert_eq!(f.text(), "hello ");
    // on an empty line nothing is deleted
    let mut g = ed("a\n\nb", 2);
    g.keys("D");
    assert_eq!(g.text(), "a\n\nb");
}

#[test]
fn capital_c_changes_to_the_line_end() {
    let mut e = ed("abc", 1);
    e.keys("C");
    assert_eq!(e.text(), "a");
    assert_eq!(e.vim.mode, Mode::Insert);
    assert_eq!(e.cur, 1);
}

#[test]
fn dd_deletes_whole_lines() {
    let mut e = ed("a\nb\nc", 2);
    e.keys("dd");
    assert_eq!(e.text(), "a\nc");
    assert_eq!(e.vim.register, "b\n");
    assert!(e.vim.register_linewise);
    assert_eq!(e.cur, 2);
    let mut f = ed("a\nb\nc\nd", 0);
    f.keys("2dd");
    assert_eq!(f.text(), "c\nd");
    assert_eq!(f.vim.register, "a\nb\n");
}

#[test]
fn dd_on_the_last_line_takes_the_line_break_before_it() {
    let mut e = ed("a\nb", 2);
    e.keys("dd");
    assert_eq!(e.text(), "a");
    assert_eq!(e.vim.register, "b\n");
    assert_eq!(e.cur, 0);
}

#[test]
fn yank_and_put_lines() {
    let mut e = ed("a\nb", 0);
    e.keys("yy");
    assert_eq!(e.text(), "a\nb");
    assert!(!e.s.dirty);
    e.keys("p");
    assert_eq!(e.text(), "a\na\nb");
    assert_eq!(e.cur, 2);
    let mut f = ed("a\nb", 2);
    f.keys("yyP");
    assert_eq!(f.text(), "a\nb\nb");
    assert_eq!(f.cur, 2);
    let mut g = ed("a\nb", 2);
    g.keys("yyp");
    assert_eq!(g.text(), "a\nb\nb");
    assert_eq!(g.cur, 4);
}

#[test]
fn yank_and_put_characters() {
    let mut e = ed("foo bar", 4);
    e.keys("ywP");
    assert_eq!(e.text(), "foo barbar");
    assert_eq!(e.cur, 6);
    let mut f = ed("Xab", 0);
    f.keys("xp");
    assert_eq!(f.text(), "aXb");
    assert_eq!(f.cur, 1);
}

#[test]
fn put_with_an_empty_register_does_nothing() {
    let mut e = ed("ab", 0);
    e.keys("p");
    assert_eq!(e.text(), "ab");
}

#[test]
fn r_replaces_characters() {
    let mut e = ed("abc", 1);
    e.keys("rz");
    assert_eq!(e.text(), "azc");
    assert_eq!(e.cur, 1);
    let mut f = ed("abcd", 0);
    f.keys("3rx");
    assert_eq!(f.text(), "xxxd");
    assert_eq!(f.cur, 2);
    let mut g = ed("abc", 0);
    g.keys("5rx");
    assert_eq!(g.text(), "abc");
}

#[test]
fn cc_and_capital_s_empty_the_line() {
    let mut e = ed("  ab\ncd", 2);
    e.keys("cc");
    assert_eq!(e.text(), "\ncd");
    assert_eq!(e.vim.mode, Mode::Insert);
    assert_eq!(e.cur, 0);
    assert_eq!(e.vim.register, "  ab\n");
    let mut f = ed("ab\ncd", 4);
    f.keys("S");
    assert_eq!(f.text(), "ab\n");
    assert_eq!(f.cur, 3);
}

#[test]
fn s_substitutes_characters() {
    let mut e = ed("abcd", 1);
    e.keys("2s");
    assert_eq!(e.text(), "ad");
    assert_eq!(e.vim.mode, Mode::Insert);
    assert_eq!(e.cur, 1);
}

#[test]
fn open_lines() {
    let mut e = ed("ab\ncd", 0);
    e.keys("o");
    assert_eq!(e.text(), "ab\n\ncd");
    assert_eq!(e.cur, 3);
    assert_eq!(e.vim.mode, Mode::Insert);
    let mut f = ed("ab\ncd", 4);
    f.keys("O");
    assert_eq!(f.text(), "ab\n\ncd");
    assert_eq!(f.cur, 3);
}

#[test]
fn insert_positions() {
    let mut e = ed("  ab", 3);
    e.keys("a");
    assert_eq!(e.cur, 4);
    assert_eq!(e.vim.mode, Mode::Insert);
    let mut f = ed("  ab", 3);
    f.keys("I");
    assert_eq!(f.cur, 2);
    let mut g = ed("  ab", 0);
    g.keys("A");
    assert_eq!(g.cur, 4);
    let mut h = ed("  ab", 3);
    h.keys("i");
    assert_eq!(h.cur, 3);
    assert_eq!(h.vim.mode, Mode::Insert);
}

#[test]
fn find_motions() {
    let mut e = ed("abcabc", 0);
    e.keys("fc");
    assert_eq!(e.cur, 2);
    let mut f = ed("abcabc", 0);
    f.keys("2fc");
    assert_eq!(f.cur, 5);
    let mut g = ed("abcabc", 0);
    g.keys("tc");
    assert_eq!(g.cur, 1);
    let mut h = ed("abcabc", 5);
    h.keys("Fa");
    assert_eq!(h.cur, 3);
    let mut k = ed("abcabc", 5);
    k.keys("Ta");
    assert_eq!(k.cur, 4);
    let mut m = ed("abc", 0);
    m.keys("fz");
    assert_eq!(m.cur, 0);
}

#[test]
fn operators_with_find() {
    let mut e = ed("abcabc", 0);
    e.keys("dfc");
    assert_eq!(e.text(), "abc");
    let mut f = ed("abcabc", 0);
    f.keys("dtc");
    assert_eq!(f.text(), "cabc");
}

#[test]
fn counted_motions() {
    let mut e = ed("abcdef", 0);
    e.keys("3l");
    assert_eq!(e.cur, 3);
    e.keys("10l");
    assert_eq!(e.cur, 5);
    let mut f = ed("a\nb\nc\nd", 0);
    f.keys("2j");
    assert_eq!(f.cur, 4);
    f.keys("k");
    assert_eq!(f.cur, 2);
    let mut g = ed("foo bar baz", 0);
    g.keys("2w");
    assert_eq!(g.cur, 8);
}

#[test]
fn counts_stop_growing() {
    let mut v = Vim::default();
    let s: Vec<char> = "ab".chars().collect();
    for _ in 0..8 {
        assert!(matches!(vim_key(&mut v, &s, 0, '9'), KeyOutcome::Pending));
    }
    assert_eq!(v.count, Some(MAX_COUNT));
}

#[test]
fn top_and_bottom() {
    let mut e = ed("  a\nb\n  c", 0);
    e.keys("G");
    assert_eq!(e.cur, 8);
    e.keys("gg");
    assert_eq!(e.cur, 2);
}

#[test]
fn paragraph_operator() {
    let mut e = ed("a\nb\n\nc", 0);
    e.keys("d}");
    assert_eq!(e.text(), "\nc");
    let mut f = ed("a\nb\n\nc", 5);
    f.keys("{");
    assert_eq!(f.cur, 4);
}

#[test]
fn a_wrong_second_key_cancels_the_operator() {
    let mut e = ed("abc", 0);
    e.keys("dz");
    assert!(e.vim.pending_op.is_none());
    assert_eq!(e.text(), "abc");
    e.keys("x");
    assert_eq!(e.text(), "bc");
}

#[test]
fn visual_delete() {
    let mut e = ed("abcdef", 1);
    e.keys("v");
    assert_eq!(e.vim.mode, Mode::Visual);
    e.keys("ll");
    assert_eq!(e.vim.vcursor, 3);
    e.keys("d");
    assert_eq!(e.text(), "aef");
    assert_eq!(e.vim.mode, Mode::Normal);
    assert_eq!(e.cur, 1);
    assert_eq!(e.vim.register, "bcd");
}

#[test]
fn visual_line_yank_and_put() {
    let mut e = ed("a\nb\nc", 0);
    e.keys("Vjy");
    assert_eq!(e.vim.register, "a\nb\n");
    assert!(e.vim.register_linewise);
    assert_eq!(e.vim.mode, Mode::Normal);
    assert_eq!(e.cur, 0);
    e.keys("Gp");
    assert_eq!(e.text(), "a\nb\nc\na\nb");
    assert_eq!(e.cur, 6);
}

#[test]
fn visual_change_and_toggle() {
    let mut e = ed("abc", 0);
    e.keys("vlc");
    assert_eq!(e.text(), "c");
    assert_eq!(e.vim.mode, Mode::Insert);
    let mut f = ed("abc", 1);
    f.keys("vV");
    assert_eq!(f.vim.mode, Mode::VisualLine);
    f.keys("V");
    assert_eq!(f.vim.mode, Mode::Normal);
}

#[test]
fn escape_leaves_visual_mode() {
    let mut v = Vim::default();
    let s: Vec<char> = "ab\n".chars().collect();
    v.mode = Mode::Visual;
    v.vcursor = 2;
    v.count = Some(3);
    assert_eq!(escape_key(&mut v, &s), Some(1));
    assert_eq!(v.mode, Mode::Normal);
    assert_eq!(v.count, None);
    let mut w = Vim::default();
    w.pending_g = true;
    assert_eq!(escape_key(&mut w, &s), None);
    assert!(!w.pending_g);
}

#[test]
fn undo_and_put_back() {
    let mut e = ed("abc", 0);
    e.keys("x");
    e.keys("u");
    assert_eq!(e.text(), "abc");
    // x then P puts the character back
    let mut f = ed("abc", 0);
    f.keys("xP");
    assert_eq!(f.text(), "abc");
    // dd then P puts the line back
    let mut g = ed("a\nb\nc", 2);
    g.keys("ddP");
    assert_eq!(g.text(), "a\nb\nc");
}

#[test]
fn change_takes_two_undo_steps() {
    let mut e = ed("abc", 0);
    e.keys("cl");
    assert_eq!(e.text(), "bc");
    e.s.set_tab_content(0, "Zbc".to_string());
    let mut v = std::mem::take(&mut e.vim);
    e.s.vim_leave_insert(&mut v, 1);
    e.vim = v;
    e.keys("u");
    assert_eq!(e.text(), "bc");
    e.keys("u");
    assert_eq!(e.text(), "abc");
}

#[test]
fn search_forward_and_next() {
    let mut e = ed("foo bar foo", 0);
    e.keys("/");
    assert_eq!(e.vim.cmdline, Some(CmdKind::SearchFwd));
    assert!(e.vim.cmd_focus);
    e.vim.cmd_buf = "foo".to_string();
    let r = e.s.vim_run_cmdline(&mut e.vim, 0);
    assert!(matches!(r, CmdReply::Move(8)));
    e.cur = 8;
    assert_eq!(e.vim.cmdline, None);
    assert!(e.vim.search_active);
    assert_eq!(e.s.search.idx, 1);
    e.keys("n");
    assert_eq!(e.cur, 0);
    e.keys("N");
    assert_eq!(e.cur, 8);
}

#[test]
fn search_backward() {
    let mut e = ed("foo bar foo", 0);
    assert!(matches!(e.cmd('?', "bar"), CmdReply::Move(4)));
    assert!(!e.vim.search_forward);
    assert!(matches!(e.cmd('?', "foo"), CmdReply::Move(0)));
}

#[test]
fn search_failures() {
    let mut e = ed("abc", 0);
    assert!(matches!(e.cmd('/', "zzz"), CmdReply::Failed("Pattern not found")));
    assert!(matches!(e.cmd('/', "("), CmdReply::Failed("Invalid pattern")));
    assert!(matches!(e.cmd('/', ""), CmdReply::Done));
}

#[test]
fn go_to_line() {
    let mut e = ed("a\nb\n  c\nd", 0);
    assert!(matches!(e.cmd(':', "3"), CmdReply::Move(6)));
    assert!(matches!(e.cmd(':', "0"), CmdReply::Move(0)));
    assert!(matches!(e.cmd(':', "99999999999999999999"), CmdReply::Move(8)));
}

#[test]
fn substitute_on_the_cursor_line() {
    let mut e = ed("foo foo\nfoo", 0);
    assert!(matches!(e.cmd(':', "s/o/0/"), CmdReply::Move(0)));
    assert_eq!(e.text(), "f0o foo\nfoo");
    let mut f = ed("foo foo\nfoo", 0);
    f.cmd(':', "s/o/0/g");
    assert_eq!(f.text(), "f00 f00\nfoo");
    f.keys("u");
    assert_eq!(f.text(), "foo foo\nfoo");
}

#[test]
fn substitute_in_the_whole_text() {
    let mut e = ed("foo foo\nfoo", 0);
    e.cmd(':', "%s/o/0/");
    assert_eq!(e.text(), "f0o foo\nf0o");
    let mut f = ed("foo foo\nfoo", 0);
    f.cmd(':', "%s/o/0/g");
    assert_eq!(f.text(), "f00 f00\nf00");
    let mut g = ed("ab\ncd", 0);
    g.cmd(':', "%s/(.)(.)/$2$1/");
    assert_eq!(g.text(), "ba\ndc");
}

#[test]
fn substitute_failures() {
    let mut e = ed("abc", 0);
    assert!(matches!(e.cmd(':', "s/z/y/"), CmdReply::Failed("Pattern not found")));
    assert!(matches!(e.cmd(':', "s/(/y/"), CmdReply::Failed("Invalid pattern")));
    assert_eq!(e.text(), "abc");
    assert!(!e.s.dirty);
}

#[test]
fn save_and_lock_commands() {
    let mut e = ed("abc", 0);
    assert!(matches!(e.cmd(':', "w"), CmdReply::Save));
    assert!(matches!(e.cmd(':', "q"), CmdReply::SaveAndLock));
    assert!(matches!(e.cmd(':', "wq"), CmdReply::SaveAndLock));
    assert!(matches!(e.cmd(':', " x "), CmdReply::SaveAndLock));
    assert!(matches!(e.cmd(':', "q!"), CmdReply::Lock));
    assert!(matches!(e.cmd(':', "frobnicate"), CmdReply::Failed("Not an editor command")));
}

#[test]
fn noh_clears_the_highlight() {
    let mut e = ed("abc", 0);
    e.cmd('/', "b");
    assert!(e.vim.search_active);
    assert!(matches!(e.cmd(':', "noh"), CmdReply::Done));
    assert!(!e.vim.search_active);
}

#[test]
fn j_and_k_that_cannot_move_leave_the_cursor() {
    let s: Vec<char> = "abc".chars().collect();
    let mut v = Vim::default();
    assert!(matches!(vim_key(&mut v, &s, 3, '3'), KeyOutcome::Pending));
    assert!(matches!(vim_key(&mut v, &s, 3, 'j'), KeyOutcome::Move(3)));
    let mut v = Vim::default();
    assert!(matches!(vim_key(&mut v, &s, 3, 'k'), KeyOutcome::Move(3)));
    // a j that moves lands on a character of the next line
    let t: Vec<char> = "abc\nd".chars().collect();
    let mut v = Vim::default();
    assert!(matches!(vim_key(&mut v, &t, 2, 'j'), KeyOutcome::Move(4)));
    // other motions still put the cursor onto a character
    let mut v = Vim::default();
    assert!(matches!(vim_key(&mut v, &s, 3, 'l'), KeyOutcome::Move(2)));
}
