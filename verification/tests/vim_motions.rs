use secure_note::vim::{
    buffer_bottom, buffer_top, clamp_normal, col, down, find_in_line, first_non_blank, left, line_end,
    line_last, line_start, op_range, paragraph_backward, paragraph_forward, right, up, word_backward,
    word_end, word_forward, CmdKind, FindKind, Mode, MotionKind, Vim,
};

fn v(s: &str) -> Vec<char> {
    s.chars().collect()
}

#[test]
fn line_helpers() {
    let s = v("ab\ncde\n\nfg");
    // "cde" line: indices 3,4,5 ; newline at 6
    assert_eq!(line_start(&s, 4), 3);
    assert_eq!(line_end(&s, 4), 6);
    assert_eq!(line_last(&s, 4), 5);
    // empty line at index 7
    assert_eq!(line_start(&s, 7), 7);
    assert_eq!(line_last(&s, 7), 7);
    assert_eq!(col(&s, 5), 2);
}

#[test]
fn horizontal_motions_stay_on_line() {
    let s = v("abc\ndef");
    assert_eq!(left(&s, 0), 0); // can't cross to prev line
    assert_eq!(right(&s, 2), 2); // stops at last char 'c'
    assert_eq!(right(&s, 0), 1);
    assert_eq!(left(&s, 2), 1);
}

#[test]
fn vertical_motions_keep_column() {
    let s = v("hello\nhi\nworld");
    // from 'l' at col 3 on line 0 → line 1 has only 2 chars → clamp to last
    let start = 3;
    let d = down(&s, start, col(&s, start));
    assert_eq!(d, line_last(&s, 6)); // "hi" last char
    // down again to "world" keeps want_col 3
    let d2 = down(&s, d, 3);
    assert_eq!(col(&s, d2), 3);
}

#[test]
fn word_motions() {
    let s = v("foo bar.baz");
    assert_eq!(word_forward(&s, 0), 4); // → 'bar'
    assert_eq!(word_forward(&s, 4), 7); // 'bar' → '.'
    assert_eq!(word_backward(&s, 7), 4);
    assert_eq!(word_end(&s, 0), 2); // end of 'foo'
}

#[test]
fn clamp_keeps_cursor_on_line() {
    let s = v("ab\n\ncd");
    assert_eq!(clamp_normal(&s, 2), 1); // newline pos → last char 'b'
    assert_eq!(clamp_normal(&s, 3), 3); // empty line stays
}

#[test]
fn find_char_on_line() {
    let s = v("abcabc");
    assert_eq!(find_in_line(&s, 0, FindKind::Forward, 'c', 1), Some(2));
    assert_eq!(find_in_line(&s, 0, FindKind::Forward, 'c', 2), Some(5));
    assert_eq!(find_in_line(&s, 0, FindKind::Till, 'c', 1), Some(1));
    assert_eq!(find_in_line(&s, 5, FindKind::Back, 'a', 1), Some(3));
    assert_eq!(find_in_line(&s, 0, FindKind::Forward, 'z', 1), None);
    // does not cross line boundary
    let s2 = v("ab\ncd");
    assert_eq!(find_in_line(&s2, 0, FindKind::Forward, 'c', 1), None);
}

#[test]
fn operator_ranges() {
    let s = v("hello world");
    // dw from 0 → exclusive [0,6)
    assert_eq!(op_range(&s, 0, 6, MotionKind::Exclusive), (0, 6, false));
    // de from 0 (e→4) inclusive [0,5)
    assert_eq!(op_range(&s, 0, 4, MotionKind::Inclusive), (0, 5, false));
    // linewise dd on a middle line includes its newline
    let s2 = v("a\nb\nc");
    let (st, en, lw) = op_range(&s2, 2, 2, MotionKind::Linewise);
    assert_eq!((st, en, lw), (2, 4, true)); // "b\n"
    // linewise on the last line also removes the preceding newline
    let (st2, en2, _) = op_range(&s2, 4, 4, MotionKind::Linewise);
    assert_eq!((st2, en2), (3, 5)); // "\nc"
}

#[test]
fn paragraph_motions() {
    let s = v("a\nb\n\nc\nd");
    // forward from 0 → blank line at index 4
    assert_eq!(paragraph_forward(&s, 0), 4);
    // backward from end → blank line boundary
    assert_eq!(paragraph_backward(&s, 7), 4);
}

// ─── Further cases ───────────────────────────────────────────────────────────

#[test]
fn first_non_blank_skips_indent() {
    let s = v("  \tfoo\nbar");
    assert_eq!(first_non_blank(&s, 5), 3);
    assert_eq!(first_non_blank(&s, 8), 7);
    // a line of blanks only goes back to its start
    let b = v("   \nx");
    assert_eq!(first_non_blank(&b, 1), 0);
}

#[test]
fn up_keeps_wanted_column() {
    let s = v("world\nhi\nhello");
    // from 'l' (col 3) on the last line up to "hi": clamped to 'i'
    assert_eq!(up(&s, 12, 3), 7);
    // from "hi" up to "world" with the remembered column 3
    assert_eq!(up(&s, 7, 3), 3);
    // the first line has nothing above it
    assert_eq!(up(&s, 2, 3), 2);
}

#[test]
fn down_on_last_line_stays() {
    let s = v("ab\ncd");
    assert_eq!(down(&s, 4, 1), 4);
}

#[test]
fn buffer_ends() {
    let s = v("one\ntwo\nthree");
    assert_eq!(buffer_top(&s), 0);
    assert_eq!(clamp_normal(&s, buffer_bottom(&s)), 8);
}

#[test]
fn word_motions_across_lines() {
    let s = v("ab\n  cd");
    assert_eq!(word_forward(&s, 0), 5);
    assert_eq!(word_backward(&s, 5), 0);
    assert_eq!(word_end(&s, 1), 6);
}

#[test]
fn find_till_backwards_stops_after_target() {
    let s = v("abcabc");
    assert_eq!(find_in_line(&s, 5, FindKind::TillBack, 'a', 1), Some(4));
}

#[test]
fn mode_labels() {
    assert_eq!(Mode::Normal.label(), "NORMAL");
    assert_eq!(Mode::Insert.label(), "INSERT");
    assert!(!Mode::Normal.is_visual());
    assert_eq!(CmdKind::Ex.prefix(), ":");
    assert_eq!(CmdKind::SearchBack.prefix(), "?");
    assert!(Mode::VisualLine.is_visual());
    assert_eq!(Mode::VisualLine.label(), "V-LINE");
}

#[test]
fn count_is_taken_once() {
    let mut vim = Vim::default();
    assert_eq!(vim.take_count(), 1);
    vim.count = Some(3);
    assert_eq!(vim.take_count(), 3);
    assert_eq!(vim.count, None);
    assert_eq!(vim.take_count(), 1);
}

#[test]
fn reset_to_normal_clears_pending_state() {
    let mut vim = Vim::default();
    vim.mode = Mode::Insert;
    vim.pending_g = true;
    vim.want_col = Some(4);
    vim.count = Some(2);
    vim.reset_to_normal();
    assert_eq!(vim.mode, Mode::Normal);
    assert!(!vim.pending_g);
    assert_eq!(vim.want_col, None);
    assert_eq!(vim.count, None);
}

#[test]
fn clamping_twice_is_clamping_once() {
    let s = v("ab\n\ncd\n");
    for i in 0..=s.len() + 1 {
        let once = clamp_normal(&s, i);
        assert_eq!(clamp_normal(&s, once), once);
        // and the clamped cursor is on the same line
        assert_eq!(line_start(&s, once), line_start(&s, i.min(s.len())));
    }
}

#[test]
fn down_then_up_returns_to_the_start() {
    let s = v("hello\nhi\nworld");
    for i in [0usize, 1, 3, 4] {
        let c = col(&s, i);
        let d = down(&s, i, c);
        assert_eq!(up(&s, d, c), i);
    }
    let d = down(&s, 7, 1);
    assert_eq!(d, 10);
    assert_eq!(up(&s, d, 1), 7);
}

#[test]
fn op_range_does_not_depend_on_direction() {
    let s = v("ab\ncd\nef");
    for kind in [MotionKind::Exclusive, MotionKind::Inclusive, MotionKind::Linewise] {
        assert_eq!(op_range(&s, 1, 4, kind), op_range(&s, 4, 1, kind));
    }
    assert_eq!(op_range(&s, 4, 1, MotionKind::Exclusive), (1, 4, false));
    assert_eq!(op_range(&s, 7, 1, MotionKind::Inclusive), (1, 8, false));
    assert_eq!(op_range(&s, 4, 1, MotionKind::Linewise), (0, 6, true));
}
