//! The Vim key engine: counts, motions, operators, edits and Visual mode.
//!
//! `vim_key` reads one typed character in Normal or Visual mode and says what
//! it does to the text as plain data: a cursor move, or a change that replaces
//! a range of characters. The caller applies the change (see
//! `Session::vim_apply`) and records it in the undo history.

use vstd::prelude::*;
use crate::text::{chars_of, string_from_chars};
use crate::vim::{
    buffer_bottom, buffer_top, clamp_normal_of, first_non_blank, first_non_blank_of, line_end,
    line_last, line_last_of, line_start, op_range, op_range_of, clamp_normal, clamp_index,
    aim_col, char_class, class, col, find_in_line, find_in_line_of, CmdKind, FindKind, Mode, PendingOp, Vim, VimModel, MotionKind, Op, down, down_of, left, left_of, lemma_line_bounds, lemma_line_end_at,
    is_blank, lemma_line_start_at, lemma_same_line, line_end_at, skip_blanks, line_end_of, line_start_at, line_start_of, paragraph_backward, paragraph_backward_of,
    paragraph_forward, paragraph_forward_of, right, right_of, up, up_of, word_backward,
    word_backward_of, word_end, word_end_of, word_forward, word_forward_of,
};

verus! {

/// Counts stop growing at this value.
pub const MAX_COUNT: usize = 99_999;

// ─── Counted motions ──────────────────────────────────────────────────────────

/// Whether `c` is a motion key that repeats with a count.
pub open spec fn is_step_key(c: char) -> bool {
    c == 'h' || c == 'l' || c == 'j' || c == 'k' || c == 'w' || c == 'b' || c == 'e' || c == '{'
        || c == '}'
}

/// One step of a repeatable motion key.
pub open spec fn step_of(s: Seq<char>, i: int, c: char, want: int) -> int {
    if c == 'h' {
        left_of(s, i)
    } else if c == 'l' {
        right_of(s, i)
    } else if c == 'j' {
        down_of(s, i, want)
    } else if c == 'k' {
        up_of(s, i, want)
    } else if c == 'w' {
        word_forward_of(s, i)
    } else if c == 'b' {
        word_backward_of(s, i)
    } else if c == 'e' {
        word_end_of(s, i)
    } else if c == '}' {
        paragraph_forward_of(s, i)
    } else if c == '{' {
        paragraph_backward_of(s, i)
    } else {
        i
    }
}

/// `n` steps of a repeatable motion key from `i`.
pub open spec fn repeat_of(s: Seq<char>, i: int, c: char, n: nat, want: int) -> int
    decreases n,
{
    if n == 0 {
        i
    } else {
        step_of(s, repeat_of(s, i, c, (n - 1) as nat, want), c, want)
    }
}

/// One step of a repeatable motion.
fn step(s: &[char], i: usize, c: char, want: usize) -> (r: usize)
    requires
        i <= s.len(),
        s.len() < usize::MAX / 2,
        want <= s.len(),
    ensures
        r == step_of(s@, i as int, c, want as int),
        r <= s.len(),
{
    proof {
        lemma_line_bounds(s@, i as int);
    }
    if c == 'h' {
        left(s, i)
    } else if c == 'l' {
        right(s, i)
    } else if c == 'j' {
        proof {
            let e = line_end_of(s@, i as int);
            if e < s.len() {
                lemma_line_end_at(s@, e + 1);
            }
        }
        down(s, i, want)
    } else if c == 'k' {
        proof {
            let st = line_start_of(s@, i as int);
            if st > 0 {
                lemma_line_start_at(s@, st - 1);
            }
        }
        up(s, i, want)
    } else if c == 'w' {
        word_forward(s, i)
    } else if c == 'b' {
        word_backward(s, i)
    } else if c == 'e' {
        word_end(s, i)
    } else if c == '}' {
        paragraph_forward(s, i)
    } else if c == '{' {
        paragraph_backward(s, i)
    } else {
        i
    }
}

/// `n` steps of a repeatable motion.
pub fn repeat_motion(s: &[char], i: usize, c: char, n: usize, want: usize) -> (r: usize)
    requires
        i <= s.len(),
        s.len() < usize::MAX / 2,
        want <= s.len(),
    ensures
        r == repeat_of(s@, i as int, c, n as nat, want as int),
        r <= s.len(),
{
    let mut cur = i;
    let mut k: usize = 0;
    while k < n
        invariant
            k <= n,
            i <= s.len(),
            s.len() < usize::MAX / 2,
            want <= s.len(),
            cur <= s.len(),
            cur == repeat_of(s@, i as int, c, k as nat, want as int),
        decreases n - k,
    {
        cur = step(s, cur, c, want);
        k += 1;
    }
    cur
}

// ─── Motion targets ───────────────────────────────────────────────────────────

/// Whether `c` is a motion key; `g` stands for the motion `gg`.
pub open spec fn is_motion_key(c: char) -> bool {
    is_step_key(c) || c == '0' || c == '^' || c == '$' || c == 'G' || c == 'g'
}

/// The target of motion key `c` with count `n` from `i`. An operator (`for_op`)
/// takes `l` up to the end of the line and `$` up to the newline, so that
/// `dl` and `d$` take the last character of the line too.
pub open spec fn motion_target_of(s: Seq<char>, i: int, c: char, n: nat, want: int, for_op: bool) -> int {
    if c == '0' {
        line_start_of(s, i)
    } else if c == '^' {
        first_non_blank_of(s, i)
    } else if c == '$' {
        if for_op {
            line_end_of(s, i)
        } else {
            line_last_of(s, i)
        }
    } else if c == 'G' {
        first_non_blank_of(s, s.len() as int)
    } else if c == 'g' {
        first_non_blank_of(s, 0)
    } else if c == 'l' && for_op {
        if i + n < line_end_of(s, i) {
            i + n
        } else {
            line_end_of(s, i)
        }
    } else {
        repeat_of(s, i, c, n, want)
    }
}

/// How an operator treats the range of motion key `c`.
pub open spec fn motion_kind_of(c: char) -> MotionKind {
    if c == 'j' || c == 'k' || c == 'G' || c == 'g' {
        MotionKind::Linewise
    } else if c == 'e' {
        MotionKind::Inclusive
    } else {
        MotionKind::Exclusive
    }
}

/// The target of a motion key.
pub fn motion_target(s: &[char], i: usize, c: char, n: usize, want: usize, for_op: bool) -> (r: usize)
    requires
        i <= s.len(),
        s.len() < usize::MAX / 2,
        want <= s.len(),
    ensures
        r == motion_target_of(s@, i as int, c, n as nat, want as int, for_op),
        r <= s.len(),
{
    proof {
        lemma_line_bounds(s@, i as int);
        lemma_line_bounds(s@, s.len() as int);
        lemma_line_bounds(s@, 0);
    }
    if c == '0' {
        line_start(s, i)
    } else if c == '^' {
        first_non_blank(s, i)
    } else if c == '$' {
        if for_op {
            line_end(s, i)
        } else {
            line_last(s, i)
        }
    } else if c == 'G' {
        buffer_bottom(s)
    } else if c == 'g' {
        buffer_top(s)
    } else if c == 'l' && for_op {
        let e = line_end(s, i);
        if n < e - i {
            i + n
        } else {
            e
        }
    } else {
        repeat_motion(s, i, c, n, want)
    }
}

// ─── Operators ────────────────────────────────────────────────────────────────

/// The text with the characters `[start, end)` replaced by `ins`.
pub open spec fn apply_change_of(s: Seq<char>, start: int, end: int, ins: Seq<char>) -> Seq<char> {
    s.take(start) + ins + s.skip(end)
}

/// What an operator does: replace `[start, end)` (nothing for a yank),
/// what goes into the register, whether it is whole lines, and the cursor.
pub struct OpPlan {
    pub start: int,
    pub end: int,
    pub register: Seq<char>,
    pub linewise: bool,
    pub cursor: int,
}

/// The smaller and the larger of two positions.
pub open spec fn lo(a: int, b: int) -> int {
    if a < b {
        a
    } else {
        b
    }
}

pub open spec fn hi(a: int, b: int) -> int {
    if a < b {
        b
    } else {
        a
    }
}

/// The plan of operator `op` over the motion from `i` to `t`. A linewise
/// register holds the whole lines and ends with a newline. A linewise change
/// keeps one empty line to type into.
pub open spec fn op_plan(s: Seq<char>, i: int, t: int, kind: MotionKind, op: Op) -> OpPlan {
    let (a, b, lw) = op_range_of(s, i, t, kind);
    let ls = line_start_of(s, lo(i, t));
    let le = line_end_of(s, hi(i, t));
    let reg = if lw {
        s.subrange(ls, le).push('\n')
    } else {
        s.subrange(a, b)
    };
    match op {
        Op::Delete => OpPlan {
            start: a,
            end: b,
            register: reg,
            linewise: lw,
            cursor: if lw {
                first_non_blank_of(apply_change_of(s, a, b, Seq::empty()), a)
            } else {
                clamp_normal_of(apply_change_of(s, a, b, Seq::empty()), a)
            },
        },
        Op::Change => if lw {
            OpPlan { start: ls, end: le, register: reg, linewise: lw, cursor: ls }
        } else {
            OpPlan { start: a, end: b, register: reg, linewise: lw, cursor: a }
        },
        Op::Yank => OpPlan { start: a, end: a, register: reg, linewise: lw, cursor: clamp_normal_of(s, lo(i, t)) },
    }
}

/// The text with the characters `[start, end)` replaced by `ins`.
pub fn apply_change(s: &[char], start: usize, end: usize, ins: &[char]) -> (r: Vec<char>)
    requires
        start <= end <= s.len(),
    ensures
        r@ == apply_change_of(s@, start as int, end as int, ins@),
{
    let mut r: Vec<char> = Vec::new();
    let mut k: usize = 0;
    while k < start
        invariant
            k <= start <= end <= s.len(),
            r@ == s@.take(k as int),
        decreases start - k,
    {
        r.push(s[k]);
        proof {
            assert(s@.take(k + 1) =~= s@.take(k as int).push(s@[k as int]));
        }
        k += 1;
    }
    let mut j: usize = 0;
    while j < ins.len()
        invariant
            j <= ins.len(),
            r@ == s@.take(start as int) + ins@.take(j as int),
        decreases ins.len() - j,
    {
        r.push(ins[j]);
        proof {
            assert(ins@.take(j + 1) =~= ins@.take(j as int).push(ins@[j as int]));
        }
        j += 1;
    }
    let mut k: usize = end;
    while k < s.len()
        invariant
            start <= end <= k <= s.len(),
            r@ == s@.take(start as int) + ins@ + s@.subrange(end as int, k as int),
        decreases s.len() - k,
    {
        r.push(s[k]);
        proof {
            assert(s@.subrange(end as int, k + 1) =~= s@.subrange(end as int, k as int).push(s@[k as int]));
        }
        k += 1;
    }
    proof {
        assert(ins@.take(ins.len() as int) =~= ins@);
        assert(s@.subrange(end as int, s.len() as int) =~= s@.skip(end as int));
    }
    r
}

/// The characters `[a, b)`.
fn chars_in(s: &[char], a: usize, b: usize) -> (r: Vec<char>)
    requires
        a <= b <= s.len(),
    ensures
        r@ == s@.subrange(a as int, b as int),
{
    let mut r: Vec<char> = Vec::new();
    let mut k = a;
    while k < b
        invariant
            a <= k <= b <= s.len(),
            r@ == s@.subrange(a as int, k as int),
        decreases b - k,
    {
        r.push(s[k]);
        proof {
            assert(s@.subrange(a as int, k + 1) =~= s@.subrange(a as int, k as int).push(s@[k as int]));
        }
        k += 1;
    }
    r
}

/// Carry out the plan of an operator: `(start, end, register, linewise,
/// cursor)` as in `op_plan`.
pub fn operate(s: &[char], i: usize, t: usize, kind: MotionKind, op: Op) -> (r: (usize, usize, Vec<char>, bool, usize))
    requires
        i <= s.len(),
        t <= s.len(),
        s.len() < usize::MAX / 2,
    ensures
        ({
            let p = op_plan(s@, i as int, t as int, kind, op);
            &&& r.0 == p.start
            &&& r.1 == p.end
            &&& r.2@ == p.register
            &&& r.3 == p.linewise
            &&& r.4 == p.cursor
        }),
        r.0 <= r.1 <= s.len(),
        r.2@.len() <= s.len() + 1,
        r.4 <= s.len(),
{
    let (a, b, lw) = op_range(s, i, t, kind);
    let l = if i < t {
        i
    } else {
        t
    };
    let h = if i < t {
        t
    } else {
        i
    };
    let ls = line_start(s, l);
    let le = line_end(s, h);
    let reg = if lw {
        let mut v = chars_in(s, ls, le);
        v.push('\n');
        v
    } else {
        chars_in(s, a, b)
    };
    match op {
        Op::Delete => {
            let empty: Vec<char> = Vec::new();
            let new_text = apply_change(s, a, b, empty.as_slice());
            proof {
                lemma_line_bounds(new_text@, a as int);
            }
            let cursor = if lw {
                first_non_blank(new_text.as_slice(), a)
            } else {
                clamp_normal(new_text.as_slice(), a)
            };
            (a, b, reg, lw, cursor)
        },
        Op::Change => {
            if lw {
                (ls, le, reg, lw, ls)
            } else {
                (a, b, reg, lw, a)
            }
        },
        Op::Yank => (a, a, reg, lw, clamp_normal(s, l)),
    }
}

// ─── The key engine: model ────────────────────────────────────────────────────

/// A change to the text: the characters `[start, end)` are replaced by
/// `insert`, and the cursor goes to `cursor`.
pub struct Change {
    pub start: usize,
    pub end: usize,
    pub insert: Vec<char>,
    pub cursor: usize,
}

/// What a key asks the editor to do.
pub enum KeyOutcome {
    /// Nothing to do now (a count digit, an operator waiting for its motion,
    /// or a key without a meaning here).
    Pending,
    /// Move the cursor (in Visual mode, the moving end of the selection).
    Move(usize),
    /// Change the text. When the mode is now Insert, typing continues there.
    Edit(Change),
    /// Undo the last change.
    Undo,
    /// The command line (`/`, `?` or `:`) was opened.
    Cmdline,
    /// Jump to the next search match forward (`true`) or backward.
    SearchNext(bool),
}

pub enum OutcomeModel {
    Pending,
    Move(int),
    Edit(int, int, Seq<char>, int),
    Undo,
    Cmdline,
    SearchNext(bool),
}

impl View for KeyOutcome {
    type V = OutcomeModel;

    open spec fn view(&self) -> OutcomeModel {
        match self {
            KeyOutcome::Pending => OutcomeModel::Pending,
            KeyOutcome::Move(i) => OutcomeModel::Move(*i as int),
            KeyOutcome::Edit(ch) => OutcomeModel::Edit(ch.start as int, ch.end as int, ch.insert@, ch.cursor as int),
            KeyOutcome::Undo => OutcomeModel::Undo,
            KeyOutcome::Cmdline => OutcomeModel::Cmdline,
            KeyOutcome::SearchNext(f) => OutcomeModel::SearchNext(*f),
        }
    }
}

/// The state with every pending prefix (count, operator, `f`, `g`, `r`)
/// dropped.
pub open spec fn cleared(v: VimModel) -> VimModel {
    VimModel {
        count: None,
        pending_op: None,
        pending_find: None,
        pending_g: false,
        pending_replace: false,
        ..v
    }
}

/// The typed count, 1 when none was typed.
pub open spec fn count_of(v: VimModel) -> nat {
    match v.count {
        Some(c) => if c >= 1 {
            c as nat
        } else {
            1
        },
        None => 1,
    }
}

/// At most `MAX_COUNT`.
pub open spec fn capped(n: int) -> nat {
    if n > MAX_COUNT {
        MAX_COUNT as nat
    } else if n < 1 {
        1
    } else {
        n as nat
    }
}

/// The count a motion moves by: the operator's count times the typed one.
pub open spec fn total_count(v: VimModel) -> nat {
    match v.pending_op {
        Some(po) => capped((capped(po.count as int) * count_of(v)) as int),
        None => count_of(v),
    }
}

/// The count after typing digit `d`.
pub open spec fn count_after(count: Option<usize>, d: int) -> usize {
    match count {
        Some(c) => if c * 10 + d <= MAX_COUNT {
            (c * 10 + d) as usize
        } else {
            MAX_COUNT
        },
        None => d as usize,
    }
}

/// Whether `c` extends the count: `1`–`9`, or `0` after a digit.
pub open spec fn is_count_digit(v: VimModel, c: char) -> bool {
    ('1' <= c && c <= '9') || (c == '0' && v.count is Some)
}

pub open spec fn is_visual_mode(m: Mode) -> bool {
    m == Mode::Visual || m == Mode::VisualLine
}

/// The state and outcome of an operator over the motion from `p` to `t`.
pub open spec fn op_step(v: VimModel, s: Seq<char>, p: int, t: int, kind: MotionKind, op: Op) -> (VimModel, OutcomeModel) {
    let plan = op_plan(s, p, t, kind, op);
    let v2 = VimModel {
        register: plan.register,
        register_linewise: plan.linewise,
        mode: if op == Op::Change {
            Mode::Insert
        } else {
            Mode::Normal
        },
        ..cleared(v)
    };
    if op == Op::Yank {
        (v2, OutcomeModel::Move(plan.cursor))
    } else {
        (v2, OutcomeModel::Edit(plan.start, plan.end, Seq::empty(), plan.cursor))
    }
}

/// Where a motion without an operator leaves the cursor: its target, put
/// onto a character of the line when `clamp` is set. `j` and `k` leave it
/// unset: their target already is such a position whenever they move, and
/// where they cannot move the cursor stays where it was.
pub open spec fn motion_cursor(s: Seq<char>, t: int, clamp: bool) -> int {
    if clamp {
        clamp_normal_of(s, t)
    } else {
        t
    }
}

/// The end of a motion at `t`: an operator acts on the range, Visual mode
/// moves the selection's end, and Normal mode moves the cursor.
pub open spec fn finish_motion(v: VimModel, s: Seq<char>, p: int, t: int, kind: MotionKind, clamp: bool) -> (VimModel, OutcomeModel) {
    match v.pending_op {
        Some(po) => op_step(v, s, p, t, kind, po.op),
        None => if is_visual_mode(v.mode) {
            (VimModel { vcursor: motion_cursor(s, t, clamp) as usize, ..cleared(v) }, OutcomeModel::Move(motion_cursor(s, t, clamp)))
        } else {
            (cleared(v), OutcomeModel::Move(motion_cursor(s, t, clamp)))
        },
    }
}

/// `dw` that reaches the start of a later line stops at the end of the
/// cursor's line instead of taking the line break.
pub open spec fn word_op_end(s: Seq<char>, p: int, t: int) -> int {
    if t > p && 0 < t <= s.len() && s[t - 1] == '\n' && line_start_of(s, t) > line_start_of(s, p) {
        t - 1
    } else {
        t
    }
}

/// A motion key (`g` is the completed `gg`). Under `c`, `w` on a word
/// character acts like `e`, as in Vim.
#[verifier::opaque]
pub open spec fn motion_step(v: VimModel, s: Seq<char>, p: int, c: char) -> (VimModel, OutcomeModel) {
    let n = total_count(v);
    let vertical = c == 'j' || c == 'k';
    let aim = if vertical {
        aim_col(s, p, v.want_col)
    } else {
        0
    };
    let for_op = v.pending_op is Some;
    let key = if v.pending_op matches Some(po) && po.op == Op::Change && c == 'w' && p < s.len()
        && char_class(s[p]) != 0 {
        'e'
    } else {
        c
    };
    let t = motion_target_of(s, p, key, n, aim, for_op);
    let t2 = if key == 'w' && for_op {
        word_op_end(s, p, t)
    } else {
        t
    };
    let v1 = VimModel {
        want_col: if vertical {
            Some(aim as usize)
        } else {
            None
        },
        ..v
    };
    finish_motion(v1, s, p, t2, motion_kind_of(key), !vertical)
}

/// `f`, `F`, `t` or `T` completed by the character `c`.
#[verifier::opaque]
pub open spec fn find_step(v: VimModel, s: Seq<char>, p: int, kind: FindKind, c: char) -> (VimModel, OutcomeModel) {
    let v1 = VimModel { pending_find: None, want_col: None, ..v };
    match find_in_line_of(s, p, kind, c, total_count(v)) {
        None => (cleared(v1), OutcomeModel::Pending),
        Some(t) => finish_motion(
            v1,
            s,
            p,
            t,
            if kind == FindKind::Forward || kind == FindKind::Till {
                MotionKind::Inclusive
            } else {
                MotionKind::Exclusive
            },
            true,
        ),
    }
}

/// `r` completed by the character `c`: replace the next count characters of
/// the line, if there are that many.
#[verifier::opaque]
pub open spec fn replace_step(v: VimModel, s: Seq<char>, p: int, c: char) -> (VimModel, OutcomeModel) {
    let n = count_of(v);
    let e = line_end_of(s, p);
    if p < e && p + n <= e {
        (cleared(v), OutcomeModel::Edit(p, p + n, Seq::new(n, |k: int| c), p + n - 1))
    } else {
        (cleared(v), OutcomeModel::Pending)
    }
}

/// The letter of an operator.
pub open spec fn op_letter(op: Op) -> char {
    match op {
        Op::Delete => 'd',
        Op::Change => 'c',
        Op::Yank => 'y',
    }
}

/// The operator of a letter `d`, `c` or `y`.
pub open spec fn letter_op(c: char) -> Op {
    if c == 'd' {
        Op::Delete
    } else if c == 'c' {
        Op::Change
    } else {
        Op::Yank
    }
}

/// `dd`, `cc`, `yy` (and `S`): whole lines, the count going down.
#[verifier::opaque]
pub open spec fn line_op_step(v: VimModel, s: Seq<char>, p: int, n: nat, op: Op) -> (VimModel, OutcomeModel) {
    op_step(v, s, p, repeat_of(s, p, 'j', (n - 1) as nat, 0), MotionKind::Linewise, op)
}

/// `p` (after) or `P` (before): put the register's text. Whole lines go
/// below or above the cursor's line.
#[verifier::opaque]
pub open spec fn paste_step(v: VimModel, s: Seq<char>, p: int, before: bool) -> (VimModel, OutcomeModel) {
    let reg = v.register;
    if reg.len() == 0 {
        (cleared(v), OutcomeModel::Pending)
    } else if !v.register_linewise {
        let at = if before {
            p
        } else if p < line_end_of(s, p) {
            p + 1
        } else {
            p
        };
        (cleared(v), OutcomeModel::Edit(at, at, reg, at + reg.len() - 1))
    } else if before {
        let ls = line_start_of(s, p);
        (cleared(v), OutcomeModel::Edit(ls, ls, reg, ls))
    } else {
        let e = line_end_of(s, p);
        if e < s.len() {
            (cleared(v), OutcomeModel::Edit(e + 1, e + 1, reg, e + 1))
        } else {
            let body = if reg.last() == '\n' {
                reg.drop_last()
            } else {
                reg
            };
            (cleared(v), OutcomeModel::Edit(e, e, seq!['\n'] + body, e + 1))
        }
    }
}

/// Enter Insert mode with the cursor at `at`.
pub open spec fn insert_at(v: VimModel, at: int) -> (VimModel, OutcomeModel) {
    (VimModel { mode: Mode::Insert, ..cleared(v) }, OutcomeModel::Move(at))
}

/// Open the command line of the given kind.
pub open spec fn open_cmdline(v: VimModel, k: CmdKind) -> (VimModel, OutcomeModel) {
    (VimModel { cmdline: Some(k), cmd_buf: Seq::empty(), cmd_focus: true, ..cleared(v) }, OutcomeModel::Cmdline)
}

/// A Normal-mode command key (no prefix pending).
#[verifier::opaque]
pub open spec fn normal_step(v: VimModel, s: Seq<char>, p: int, c: char) -> (VimModel, OutcomeModel) {
    let n = count_of(v);
    let e = line_end_of(s, p);
    let ls = line_start_of(s, p);
    if c == 'd' || c == 'c' || c == 'y' {
        (VimModel { pending_op: Some(PendingOp { op: letter_op(c), count: n as usize }), count: None, ..v }, OutcomeModel::Pending)
    } else if c == 'x' {
        if p < e {
            op_step(v, s, p, if p + n < e { p + n } else { e }, MotionKind::Exclusive, Op::Delete)
        } else {
            (cleared(v), OutcomeModel::Pending)
        }
    } else if c == 'X' {
        if p > ls {
            op_step(v, s, p, if p - n > ls { p - n } else { ls }, MotionKind::Exclusive, Op::Delete)
        } else {
            (cleared(v), OutcomeModel::Pending)
        }
    } else if c == 'D' {
        op_step(v, s, p, e, MotionKind::Exclusive, Op::Delete)
    } else if c == 'C' {
        op_step(v, s, p, e, MotionKind::Exclusive, Op::Change)
    } else if c == 's' {
        op_step(v, s, p, if p + n < e { p + n } else { e }, MotionKind::Exclusive, Op::Change)
    } else if c == 'S' {
        line_op_step(v, s, p, n, Op::Change)
    } else if c == 'r' {
        (VimModel { pending_replace: true, ..v }, OutcomeModel::Pending)
    } else if c == 'p' || c == 'P' {
        paste_step(v, s, p, c == 'P')
    } else if c == 'i' {
        insert_at(v, p)
    } else if c == 'a' {
        insert_at(v, if p + 1 < e { p + 1 } else { e })
    } else if c == 'I' {
        insert_at(v, first_non_blank_of(s, p))
    } else if c == 'A' {
        insert_at(v, e)
    } else if c == 'o' {
        (VimModel { mode: Mode::Insert, want_col: None, ..cleared(v) }, OutcomeModel::Edit(e, e, seq!['\n'], e + 1))
    } else if c == 'O' {
        (VimModel { mode: Mode::Insert, want_col: None, ..cleared(v) }, OutcomeModel::Edit(ls, ls, seq!['\n'], ls))
    } else if c == 'u' {
        (cleared(v), OutcomeModel::Undo)
    } else if c == 'v' || c == 'V' {
        (
            VimModel {
                mode: if c == 'v' {
                    Mode::Visual
                } else {
                    Mode::VisualLine
                },
                visual_anchor: p as usize,
                vcursor: p as usize,
                ..cleared(v)
            },
            OutcomeModel::Move(p),
        )
    } else if c == '/' {
        open_cmdline(v, CmdKind::SearchFwd)
    } else if c == '?' {
        open_cmdline(v, CmdKind::SearchBack)
    } else if c == ':' {
        open_cmdline(v, CmdKind::Ex)
    } else if c == 'n' || c == 'N' {
        (cleared(v), OutcomeModel::SearchNext(if c == 'n' {
            v.search_forward
        } else {
            !v.search_forward
        }))
    } else {
        (cleared(v), OutcomeModel::Pending)
    }
}

/// A Visual-mode command key: operators act on the selection.
#[verifier::opaque]
pub open spec fn visual_step(v: VimModel, s: Seq<char>, p: int, c: char) -> (VimModel, OutcomeModel) {
    let a = clamp_index(s, v.visual_anchor as int);
    let kind = if v.mode == Mode::VisualLine {
        MotionKind::Linewise
    } else {
        MotionKind::Inclusive
    };
    if c == 'd' || c == 'x' {
        op_step(v, s, a, p, kind, Op::Delete)
    } else if c == 'y' {
        op_step(v, s, a, p, kind, Op::Yank)
    } else if c == 'c' || c == 's' {
        op_step(v, s, a, p, kind, Op::Change)
    } else if (c == 'v' && v.mode == Mode::Visual) || (c == 'V' && v.mode == Mode::VisualLine) {
        (VimModel { mode: Mode::Normal, ..cleared(v) }, OutcomeModel::Move(clamp_normal_of(s, p)))
    } else if c == 'v' || c == 'V' {
        (
            VimModel {
                mode: if c == 'v' {
                    Mode::Visual
                } else {
                    Mode::VisualLine
                },
                ..cleared(v)
            },
            OutcomeModel::Move(p),
        )
    } else {
        (cleared(v), OutcomeModel::Pending)
    }
}

/// The position a key acts at: the selection's moving end in Visual mode,
/// else the cursor; either way within the text.
pub open spec fn key_pos(v: VimModel, s: Seq<char>, cursor: int) -> int {
    if is_visual_mode(v.mode) {
        clamp_index(s, v.vcursor as int)
    } else {
        clamp_index(s, cursor)
    }
}

/// One typed character in Normal or Visual mode: the new state and what the
/// editor does.
pub open spec fn key_step(v: VimModel, s: Seq<char>, cursor: int, c: char) -> (VimModel, OutcomeModel) {
    let p = key_pos(v, s, cursor);
    if v.mode == Mode::Insert {
        (v, OutcomeModel::Pending)
    } else if v.pending_replace {
        replace_step(v, s, p, c)
    } else if v.pending_find is Some {
        find_step(v, s, p, v.pending_find->0, c)
    } else if v.pending_g {
        if c == 'g' {
            motion_step(VimModel { pending_g: false, ..v }, s, p, 'g')
        } else {
            (cleared(v), OutcomeModel::Pending)
        }
    } else if is_count_digit(v, c) {
        (VimModel { count: Some(count_after(v.count, c as int - '0' as int)), ..v }, OutcomeModel::Pending)
    } else if is_motion_key(c) && c != 'g' {
        motion_step(v, s, p, c)
    } else if c == 'f' || c == 'F' || c == 't' || c == 'T' {
        (
            VimModel {
                pending_find: Some(
                    if c == 'f' {
                        FindKind::Forward
                    } else if c == 'F' {
                        FindKind::Back
                    } else if c == 't' {
                        FindKind::Till
                    } else {
                        FindKind::TillBack
                    },
                ),
                ..v
            },
            OutcomeModel::Pending,
        )
    } else if c == 'g' {
        (VimModel { pending_g: true, ..v }, OutcomeModel::Pending)
    } else if v.pending_op is Some {
        if c == op_letter(v.pending_op->0.op) {
            line_op_step(v, s, p, total_count(v), v.pending_op->0.op)
        } else {
            (cleared(v), OutcomeModel::Pending)
        }
    } else if is_visual_mode(v.mode) {
        visual_step(v, s, p, c)
    } else {
        normal_step(v, s, p, c)
    }
}

// ─── The key engine: execution ────────────────────────────────────────────────

/// The bounds the engine keeps: the register fits the cursor arithmetic and a
/// remembered column lies within the text.
pub open spec fn engine_ok(v: VimModel, n: int) -> bool {
    &&& v.register.len() <= usize::MAX / 2
    &&& (v.want_col matches Some(w) ==> w <= n)
}

fn clear_pending(vim: &mut Vim)
    ensures
        final(vim)@ == cleared(old(vim)@),
{
    vim.count = None;
    vim.pending_op = None;
    vim.pending_find = None;
    vim.pending_g = false;
    vim.pending_replace = false;
}

fn count_value(vim: &Vim) -> (r: usize)
    ensures
        r == count_of(vim@),
        1 <= r,
{
    match vim.count {
        Some(c) => if c >= 1 {
            c
        } else {
            1
        },
        None => 1,
    }
}

fn cap(n: usize) -> (r: usize)
    ensures
        r == capped(n as int),
        1 <= r <= MAX_COUNT,
{
    if n > MAX_COUNT {
        MAX_COUNT
    } else if n < 1 {
        1
    } else {
        n
    }
}

fn total_count_value(vim: &Vim) -> (r: usize)
    ensures
        r == total_count(vim@),
        1 <= r,
        vim.pending_op is Some ==> r <= MAX_COUNT,
{
    let c = count_value(vim);
    match vim.pending_op {
        Some(po) => {
            let a = cap(po.count);
            let b = cap(c);
            proof {
                assert(a * b <= MAX_COUNT * MAX_COUNT) by (nonlinear_arith)
                    requires
                        1 <= a <= MAX_COUNT,
                        1 <= b <= MAX_COUNT,
                ;
                assert(a * b >= 1) by (nonlinear_arith)
                    requires
                        1 <= a,
                        1 <= b,
                ;
            }
            let prod: u64 = (a as u64) * (b as u64);
            let r = if prod > MAX_COUNT as u64 {
                MAX_COUNT
            } else {
                prod as usize
            };
            proof {
                if c > MAX_COUNT {
                    assert(b == MAX_COUNT);
                    assert(a * c > MAX_COUNT) by (nonlinear_arith)
                        requires
                            a >= 1,
                            c > MAX_COUNT,
                    ;
                    assert(a * b >= MAX_COUNT) by (nonlinear_arith)
                        requires
                            a >= 1,
                            b == MAX_COUNT,
                    ;
                } else {
                    assert(b == c);
                }
            }
            r
        },
        None => c,
    }
}

fn operate_step(vim: &mut Vim, s: &[char], p: usize, t: usize, kind: MotionKind, op: Op) -> (r: KeyOutcome)
    requires
        p <= s.len(),
        t <= s.len(),
        s.len() < usize::MAX / 2,
        engine_ok(old(vim)@, s.len() as int),
    ensures
        (final(vim)@, r@) == op_step(old(vim)@, s@, p as int, t as int, kind, op),
        engine_ok(final(vim)@, s.len() as int),
        r matches KeyOutcome::Edit(ch) ==> ch.start <= ch.end <= s.len(),
{
    let (start, end, reg, lw, cursor) = operate(s, p, t, kind, op);
    clear_pending(vim);
    vim.register = string_from_chars(reg.as_slice());
    vim.register_linewise = lw;
    vim.mode = if op == Op::Change {
        Mode::Insert
    } else {
        Mode::Normal
    };
    if op == Op::Yank {
        KeyOutcome::Move(cursor)
    } else {
        KeyOutcome::Edit(Change { start, end, insert: Vec::new(), cursor })
    }
}

fn finish_step(vim: &mut Vim, s: &[char], p: usize, t: usize, kind: MotionKind, clamp: bool) -> (r: KeyOutcome)
    requires
        p <= s.len(),
        t <= s.len(),
        s.len() < usize::MAX / 2,
        engine_ok(old(vim)@, s.len() as int),
    ensures
        (final(vim)@, r@) == finish_motion(old(vim)@, s@, p as int, t as int, kind, clamp),
        engine_ok(final(vim)@, s.len() as int),
        r matches KeyOutcome::Edit(ch) ==> ch.start <= ch.end <= s.len(),
{
    match vim.pending_op {
        Some(po) => operate_step(vim, s, p, t, kind, po.op),
        None => {
            let c = if clamp {
                clamp_normal(s, t)
            } else {
                t
            };
            if vim.mode == Mode::Visual || vim.mode == Mode::VisualLine {
                clear_pending(vim);
                vim.vcursor = c;
            } else {
                clear_pending(vim);
            }
            KeyOutcome::Move(c)
        },
    }
}

/// How an operator treats the range of motion key `c`.
fn kind_of(c: char) -> (r: MotionKind)
    ensures
        r == motion_kind_of(c),
{
    if c == 'j' || c == 'k' || c == 'G' || c == 'g' {
        MotionKind::Linewise
    } else if c == 'e' {
        MotionKind::Inclusive
    } else {
        MotionKind::Exclusive
    }
}

fn word_op_end_exec(s: &[char], p: usize, t: usize) -> (r: usize)
    requires
        p <= s.len(),
        t <= s.len(),
    ensures
        r == word_op_end(s@, p as int, t as int),
        r <= s.len(),
{
    if t > p && t > 0 && s[t - 1] == '\n' && line_start(s, t) > line_start(s, p) {
        t - 1
    } else {
        t
    }
}

fn motion_exec(vim: &mut Vim, s: &[char], p: usize, c: char) -> (r: KeyOutcome)
    requires
        p <= s.len(),
        s.len() < usize::MAX / 2,
        engine_ok(old(vim)@, s.len() as int),
    ensures
        (final(vim)@, r@) == motion_step(old(vim)@, s@, p as int, c),
        engine_ok(final(vim)@, s.len() as int),
        r matches KeyOutcome::Edit(ch) ==> ch.start <= ch.end <= s.len(),
{
    reveal(motion_step);
    proof {
        lemma_line_bounds(s@, p as int);
    }
    let n = total_count_value(vim);
    let vertical = c == 'j' || c == 'k';
    let aim = if vertical {
        match vim.want_col {
            Some(w) => w,
            None => col(s, p),
        }
    } else {
        0
    };
    let for_op = vim.pending_op.is_some();
    let changing = match vim.pending_op {
        Some(po) => po.op == Op::Change,
        None => false,
    };
    let key = if changing && c == 'w' && p < s.len() && class(s[p]) != 0 {
        'e'
    } else {
        c
    };
    let t = motion_target(s, p, key, n, aim, for_op);
    let t2 = if key == 'w' && for_op {
        word_op_end_exec(s, p, t)
    } else {
        t
    };
    vim.want_col = if vertical {
        Some(aim)
    } else {
        None
    };
    finish_step(vim, s, p, t2, kind_of(key), !vertical)
}

fn find_exec(vim: &mut Vim, s: &[char], p: usize, kind: FindKind, c: char) -> (r: KeyOutcome)
    requires
        p <= s.len(),
        s.len() < usize::MAX / 2,
        engine_ok(old(vim)@, s.len() as int),
    ensures
        (final(vim)@, r@) == find_step(old(vim)@, s@, p as int, kind, c),
        engine_ok(final(vim)@, s.len() as int),
        r matches KeyOutcome::Edit(ch) ==> ch.start <= ch.end <= s.len(),
{
    reveal(find_step);
    let n = total_count_value(vim);
    vim.pending_find = None;
    vim.want_col = None;
    proof {
        lemma_line_bounds(s@, p as int);
    }
    match find_in_line(s, p, kind, c, n) {
        None => {
            clear_pending(vim);
            KeyOutcome::Pending
        },
        Some(t) => {
            let k = if kind == FindKind::Forward || kind == FindKind::Till {
                MotionKind::Inclusive
            } else {
                MotionKind::Exclusive
            };
            finish_step(vim, s, p, t, k, true)
        },
    }
}

fn replace_exec(vim: &mut Vim, s: &[char], p: usize, c: char) -> (r: KeyOutcome)
    requires
        p <= s.len(),
        s.len() < usize::MAX / 2,
        engine_ok(old(vim)@, s.len() as int),
    ensures
        (final(vim)@, r@) == replace_step(old(vim)@, s@, p as int, c),
        engine_ok(final(vim)@, s.len() as int),
        r matches KeyOutcome::Edit(ch) ==> ch.start <= ch.end <= s.len(),
{
    reveal(replace_step);
    let n = count_value(vim);
    let e = line_end(s, p);
    clear_pending(vim);
    if p < e && n <= e - p {
        let mut ins: Vec<char> = Vec::new();
        let mut k: usize = 0;
        while k < n
            invariant
                k <= n,
                ins@ == Seq::new(k as nat, |j: int| c),
            decreases n - k,
        {
            ins.push(c);
            proof {
                assert(ins@ =~= Seq::new((k + 1) as nat, |j: int| c));
            }
            k += 1;
        }
        KeyOutcome::Edit(Change { start: p, end: p + n, insert: ins, cursor: p + n - 1 })
    } else {
        KeyOutcome::Pending
    }
}

fn line_op_exec(vim: &mut Vim, s: &[char], p: usize, n: usize, op: Op) -> (r: KeyOutcome)
    requires
        p <= s.len(),
        s.len() < usize::MAX / 2,
        engine_ok(old(vim)@, s.len() as int),
        n >= 1,
    ensures
        (final(vim)@, r@) == line_op_step(old(vim)@, s@, p as int, n as nat, op),
        engine_ok(final(vim)@, s.len() as int),
        r matches KeyOutcome::Edit(ch) ==> ch.start <= ch.end <= s.len(),
{
    reveal(line_op_step);
    let t = repeat_motion(s, p, 'j', n - 1, 0);
    operate_step(vim, s, p, t, MotionKind::Linewise, op)
}

fn paste_exec(vim: &mut Vim, s: &[char], p: usize, before: bool) -> (r: KeyOutcome)
    requires
        p <= s.len(),
        s.len() < usize::MAX / 2,
        engine_ok(old(vim)@, s.len() as int),
    ensures
        (final(vim)@, r@) == paste_step(old(vim)@, s@, p as int, before),
        engine_ok(final(vim)@, s.len() as int),
        r matches KeyOutcome::Edit(ch) ==> ch.start <= ch.end <= s.len(),
{
    reveal(paste_step);
    let reg = chars_of(vim.register.as_str());
    clear_pending(vim);
    proof {
        lemma_line_bounds(s@, p as int);
    }
    if reg.len() == 0 {
        return KeyOutcome::Pending;
    }
    if !vim.register_linewise {
        let at = if before {
            p
        } else if p < line_end(s, p) {
            p + 1
        } else {
            p
        };
        let n = reg.len();
        KeyOutcome::Edit(Change { start: at, end: at, insert: reg, cursor: at + n - 1 })
    } else if before {
        let ls = line_start(s, p);
        KeyOutcome::Edit(Change { start: ls, end: ls, insert: reg, cursor: ls })
    } else {
        let e = line_end(s, p);
        if e < s.len() {
            KeyOutcome::Edit(Change { start: e + 1, end: e + 1, insert: reg, cursor: e + 1 })
        } else {
            let n = reg.len();
            let keep = if reg[n - 1] == '\n' {
                n - 1
            } else {
                n
            };
            let mut ins: Vec<char> = vec!['\n'];
            let mut k: usize = 0;
            while k < keep
                invariant
                    k <= keep <= n == reg.len(),
                    ins@ == seq!['\n'] + reg@.take(k as int),
                decreases keep - k,
            {
                ins.push(reg[k]);
                proof {
                    assert(reg@.take(k + 1) =~= reg@.take(k as int).push(reg@[k as int]));
                }
                k += 1;
            }
            proof {
                if keep < n {
                    assert(reg@.take(keep as int) =~= reg@.drop_last());
                } else {
                    assert(reg@.take(keep as int) =~= reg@);
                }
            }
            KeyOutcome::Edit(Change { start: e, end: e, insert: ins, cursor: e + 1 })
        }
    }
}

fn letter_op_exec(c: char) -> (r: Op)
    ensures
        r == letter_op(c),
{
    if c == 'd' {
        Op::Delete
    } else if c == 'c' {
        Op::Change
    } else {
        Op::Yank
    }
}

fn insert_exec(vim: &mut Vim, at: usize) -> (r: KeyOutcome)
    ensures
        (final(vim)@, r@) == insert_at(old(vim)@, at as int),
{
    clear_pending(vim);
    vim.mode = Mode::Insert;
    KeyOutcome::Move(at)
}

fn cmdline_exec(vim: &mut Vim, k: CmdKind) -> (r: KeyOutcome)
    ensures
        (final(vim)@, r@) == open_cmdline(old(vim)@, k),
{
    clear_pending(vim);
    vim.cmdline = Some(k);
    vim.cmd_buf = String::new();
    vim.cmd_focus = true;
    KeyOutcome::Cmdline
}

fn normal_exec(vim: &mut Vim, s: &[char], p: usize, c: char) -> (r: KeyOutcome)
    requires
        p <= s.len(),
        s.len() < usize::MAX / 2,
        engine_ok(old(vim)@, s.len() as int),
    ensures
        (final(vim)@, r@) == normal_step(old(vim)@, s@, p as int, c),
        engine_ok(final(vim)@, s.len() as int),
        r matches KeyOutcome::Edit(ch) ==> ch.start <= ch.end <= s.len(),
{
    reveal(normal_step);
    proof {
        lemma_line_bounds(s@, p as int);
    }
    let n = count_value(vim);
    let e = line_end(s, p);
    let ls = line_start(s, p);
    if c == 'd' || c == 'c' || c == 'y' {
        vim.pending_op = Some(PendingOp { op: letter_op_exec(c), count: n });
        vim.count = None;
        KeyOutcome::Pending
    } else if c == 'x' || c == 's' {
        if c == 'x' && p >= e {
            clear_pending(vim);
            return KeyOutcome::Pending;
        }
        let t = if n < e - p {
            p + n
        } else {
            e
        };
        operate_step(vim, s, p, t, MotionKind::Exclusive, if c == 'x' {
            Op::Delete
        } else {
            Op::Change
        })
    } else if c == 'X' {
        if p > ls {
            let t = if n < p - ls {
                p - n
            } else {
                ls
            };
            operate_step(vim, s, p, t, MotionKind::Exclusive, Op::Delete)
        } else {
            clear_pending(vim);
            KeyOutcome::Pending
        }
    } else if c == 'D' {
        operate_step(vim, s, p, e, MotionKind::Exclusive, Op::Delete)
    } else if c == 'C' {
        operate_step(vim, s, p, e, MotionKind::Exclusive, Op::Change)
    } else if c == 'S' {
        line_op_exec(vim, s, p, n, Op::Change)
    } else if c == 'r' {
        vim.pending_replace = true;
        KeyOutcome::Pending
    } else if c == 'p' || c == 'P' {
        paste_exec(vim, s, p, c == 'P')
    } else if c == 'i' {
        insert_exec(vim, p)
    } else if c == 'a' {
        insert_exec(vim, if p + 1 < e {
            p + 1
        } else {
            e
        })
    } else if c == 'I' {
        let f = first_non_blank(s, p);
        insert_exec(vim, f)
    } else if c == 'A' {
        insert_exec(vim, e)
    } else if c == 'o' || c == 'O' {
        clear_pending(vim);
        vim.mode = Mode::Insert;
        vim.want_col = None;
        let nl = vec!['\n'];
        assert(nl@ =~= seq!['\n']);
        if c == 'o' {
            KeyOutcome::Edit(Change { start: e, end: e, insert: nl, cursor: e + 1 })
        } else {
            KeyOutcome::Edit(Change { start: ls, end: ls, insert: nl, cursor: ls })
        }
    } else if c == 'u' {
        clear_pending(vim);
        KeyOutcome::Undo
    } else if c == 'v' || c == 'V' {
        clear_pending(vim);
        vim.mode = if c == 'v' {
            Mode::Visual
        } else {
            Mode::VisualLine
        };
        vim.visual_anchor = p;
        vim.vcursor = p;
        KeyOutcome::Move(p)
    } else if c == '/' {
        cmdline_exec(vim, CmdKind::SearchFwd)
    } else if c == '?' {
        cmdline_exec(vim, CmdKind::SearchBack)
    } else if c == ':' {
        cmdline_exec(vim, CmdKind::Ex)
    } else if c == 'n' || c == 'N' {
        let fwd = if c == 'n' {
            vim.search_forward
        } else {
            !vim.search_forward
        };
        clear_pending(vim);
        KeyOutcome::SearchNext(fwd)
    } else {
        clear_pending(vim);
        KeyOutcome::Pending
    }
}

fn visual_exec(vim: &mut Vim, s: &[char], p: usize, c: char) -> (r: KeyOutcome)
    requires
        p <= s.len(),
        s.len() < usize::MAX / 2,
        engine_ok(old(vim)@, s.len() as int),
    ensures
        (final(vim)@, r@) == visual_step(old(vim)@, s@, p as int, c),
        engine_ok(final(vim)@, s.len() as int),
        r matches KeyOutcome::Edit(ch) ==> ch.start <= ch.end <= s.len(),
{
    reveal(visual_step);
    let a = if vim.visual_anchor < s.len() {
        vim.visual_anchor
    } else {
        s.len()
    };
    let kind = if vim.mode == Mode::VisualLine {
        MotionKind::Linewise
    } else {
        MotionKind::Inclusive
    };
    if c == 'd' || c == 'x' {
        operate_step(vim, s, a, p, kind, Op::Delete)
    } else if c == 'y' {
        operate_step(vim, s, a, p, kind, Op::Yank)
    } else if c == 'c' || c == 's' {
        operate_step(vim, s, a, p, kind, Op::Change)
    } else if (c == 'v' && vim.mode == Mode::Visual) || (c == 'V' && vim.mode == Mode::VisualLine) {
        clear_pending(vim);
        vim.mode = Mode::Normal;
        KeyOutcome::Move(clamp_normal(s, p))
    } else if c == 'v' || c == 'V' {
        clear_pending(vim);
        vim.mode = if c == 'v' {
            Mode::Visual
        } else {
            Mode::VisualLine
        };
        KeyOutcome::Move(p)
    } else {
        clear_pending(vim);
        KeyOutcome::Pending
    }
}

/// One typed character in Normal or Visual mode (in Insert mode nothing
/// happens): counts, motions, operators, edits, Visual selections, and the
/// keys that open the command line or jump between search matches. The
/// result is exactly `key_step`.
#[verifier::rlimit(40)]
pub fn vim_key(vim: &mut Vim, text: &[char], cursor: usize, c: char) -> (r: KeyOutcome)
    requires
        text.len() < usize::MAX / 2,
        engine_ok(old(vim)@, text.len() as int),
    ensures
        (final(vim)@, r@) == key_step(old(vim)@, text@, cursor as int, c),
        engine_ok(final(vim)@, text.len() as int),
        r matches KeyOutcome::Edit(ch) ==> ch.start <= ch.end <= text.len(),
{
    let s = text;
    let p = if vim.mode == Mode::Visual || vim.mode == Mode::VisualLine {
        if vim.vcursor < s.len() {
            vim.vcursor
        } else {
            s.len()
        }
    } else if cursor < s.len() {
        cursor
    } else {
        s.len()
    };
    if vim.mode == Mode::Insert {
        KeyOutcome::Pending
    } else if vim.pending_replace {
        replace_exec(vim, s, p, c)
    } else if let Some(kind) = vim.pending_find {
        find_exec(vim, s, p, kind, c)
    } else if vim.pending_g {
        if c == 'g' {
            vim.pending_g = false;
            motion_exec(vim, s, p, 'g')
        } else {
            clear_pending(vim);
            KeyOutcome::Pending
        }
    } else if ('1' <= c && c <= '9') || (c == '0' && vim.count.is_some()) {
        let d = (c as u32 - '0' as u32) as usize;
        let next = match vim.count {
            Some(k) => if k <= (MAX_COUNT - d) / 10 {
                k * 10 + d
            } else {
                MAX_COUNT
            },
            None => d,
        };
        vim.count = Some(next);
        KeyOutcome::Pending
    } else if c == 'h' || c == 'l' || c == 'j' || c == 'k' || c == 'w' || c == 'b' || c == 'e'
        || c == '{' || c == '}' || c == '0' || c == '^' || c == '$' || c == 'G' {
        motion_exec(vim, s, p, c)
    } else if c == 'f' || c == 'F' || c == 't' || c == 'T' {
        vim.pending_find = Some(
            if c == 'f' {
                FindKind::Forward
            } else if c == 'F' {
                FindKind::Back
            } else if c == 't' {
                FindKind::Till
            } else {
                FindKind::TillBack
            },
        );
        KeyOutcome::Pending
    } else if c == 'g' {
        vim.pending_g = true;
        KeyOutcome::Pending
    } else if let Some(po) = vim.pending_op {
        let letter = match po.op {
            Op::Delete => 'd',
            Op::Change => 'c',
            Op::Yank => 'y',
        };
        if c == letter {
            let n = total_count_value(vim);
            line_op_exec(vim, s, p, n, po.op)
        } else {
            clear_pending(vim);
            KeyOutcome::Pending
        }
    } else if vim.mode == Mode::Visual || vim.mode == Mode::VisualLine {
        visual_exec(vim, s, p, c)
    } else {
        normal_exec(vim, s, p, c)
    }
}

/// Escape in Normal or Visual mode: every pending prefix is dropped, and
/// Visual mode ends with the cursor on the selection's moving end. Returns
/// the cursor when Visual mode ended.
pub fn escape_key(vim: &mut Vim, text: &[char]) -> (r: Option<usize>)
    ensures
        is_visual_mode(old(vim)@.mode) ==> {
            &&& final(vim)@ == VimModel { mode: Mode::Normal, ..cleared(old(vim)@) }
            &&& r == Some(clamp_normal_of(text@, clamp_index(text@, old(vim).vcursor as int)) as usize)
        },
        !is_visual_mode(old(vim)@.mode) ==> final(vim)@ == cleared(old(vim)@) && r is None,
{
    let visual = vim.mode == Mode::Visual || vim.mode == Mode::VisualLine;
    clear_pending(vim);
    if visual {
        vim.mode = Mode::Normal;
        let p = if vim.vcursor < text.len() {
            vim.vcursor
        } else {
            text.len()
        };
        Some(clamp_normal(text, p))
    } else {
        None
    }
}

// ─── Laws ─────────────────────────────────────────────────────────────────────

/// The start of a line depends only on the text before it.
proof fn lemma_line_start_prefix(s: Seq<char>, t: Seq<char>, j: int)
    requires
        0 <= j <= s.len(),
        j <= t.len(),
        s.take(j) == t.take(j),
    ensures
        line_start_at(s, j) == line_start_at(t, j),
    decreases j,
{
    if j > 0 {
        assert(s.take(j)[j - 1] == t.take(j)[j - 1]);
        assert(s.take(j)[j - 1] == s[j - 1]);
        assert(t.take(j)[j - 1] == t[j - 1]);
        if s[j - 1] != '\n' {
            assert(s.take(j - 1) =~= s.take(j).take(j - 1));
            assert(t.take(j - 1) =~= t.take(j).take(j - 1));
            lemma_line_start_prefix(s, t, j - 1);
        }
    }
}

/// After removing the character at `p`, the end of the line seen from `j >= p`
/// is one earlier.
proof fn lemma_line_end_removed(s: Seq<char>, p: int, j: int)
    requires
        0 <= p <= j,
        j + 1 <= s.len(),
    ensures
        line_end_at(s.remove(p), j) == line_end_at(s, j + 1) - 1,
    decreases s.len() - j,
{
    let t = s.remove(p);
    if j < t.len() {
        assert(t[j] == s[j + 1]);
        if s[j + 1] != '\n' {
            lemma_line_end_removed(s, p, j + 1);
        }
    }
}

/// Deleting the character under the cursor with `x` and putting it back with
/// `P` gives the text back, when the cursor is not on the last character of
/// its line (from there the cursor steps left first).
pub proof fn law_x_then_put_back(v: VimModel, s: Seq<char>, p: int)
    requires
        v.mode == Mode::Normal,
        v.count is None,
        v.pending_op is None,
        v.pending_find is None,
        !v.pending_g,
        !v.pending_replace,
        0 <= p,
        p + 1 < line_end_of(s, p),
    ensures
        ({
            let (v1, o1) = key_step(v, s, p, 'x');
            &&& o1 matches OutcomeModel::Edit(a, b, ins, c1)
            &&& ({
                let s1 = apply_change_of(s, a, b, ins);
                let (v2, o2) = key_step(v1, s1, c1, 'P');
                &&& o2 matches OutcomeModel::Edit(a2, b2, ins2, c2)
                &&& apply_change_of(s1, a2, b2, ins2) == s
            })
        }),
{
    reveal(normal_step);
    reveal(paste_step);
    lemma_line_bounds(s, p);
    let e = line_end_of(s, p);
    assert(p < s.len());
    assert(clamp_index(s, p) == p);
    let (v1, o1) = key_step(v, s, p, 'x');
    let s1 = s.take(p) + s.skip(p + 1);
    assert(s1 =~= s.remove(p));
    assert(op_range_of(s, p, p + 1, MotionKind::Exclusive) == (p, p + 1, false));
    assert(apply_change_of(s, p, p + 1, Seq::empty()) =~= s1);
    // On the shorter text the cursor's line keeps its start and loses one
    // character at its end, so the cursor stays where it was.
    assert(s1.take(p) =~= s.take(p));
    lemma_line_start_prefix(s1, s, p);
    lemma_line_end_removed(s, p, p);
    assert(clamp_index(s1, p) == p);
    assert(line_start_of(s1, p) == line_start_of(s, p));
    assert(line_end_of(s1, p) == e - 1);
    assert(clamp_normal_of(s1, p) == p);
    assert(o1 == OutcomeModel::Edit(p, p + 1, Seq::empty(), p));
    assert(v1.register == s.subrange(p, p + 1));
    assert(!v1.register_linewise);
    assert(v1.mode == Mode::Normal);
    let (v2, o2) = key_step(v1, s1, p, 'P');
    assert(o2 == OutcomeModel::Edit(p, p, s.subrange(p, p + 1), p));
    assert(apply_change_of(s1, p, p, s.subrange(p, p + 1)) =~= s);
}

/// Skipping blanks never goes back, nor past the end when starting before it.
proof fn lemma_skip_blanks_bounds(s: Seq<char>, j: int, end: int)
    requires
        j <= end,
    ensures
        j <= skip_blanks(s, j, end) <= end,
    decreases end - j,
{
    if j < end && is_blank(s[j]) {
        lemma_skip_blanks_bounds(s, j + 1, end);
    }
}

/// Deleting a line with `dd` and putting it back with `P` gives the text
/// back, when a line follows it that is not the empty end of the text.
pub proof fn law_dd_then_put_back(v: VimModel, s: Seq<char>, p: int)
    requires
        v.mode == Mode::Normal,
        v.count is None,
        v.pending_op is None,
        v.pending_find is None,
        !v.pending_g,
        !v.pending_replace,
        0 <= p,
        line_end_of(s, p) + 1 < s.len(),
    ensures
        ({
            let (v1, o1) = key_step(v, s, p, 'd');
            let (v2, o2) = key_step(v1, s, p, 'd');
            &&& o1 == OutcomeModel::Pending
            &&& o2 matches OutcomeModel::Edit(a, b, ins, c2)
            &&& ({
                let s2 = apply_change_of(s, a, b, ins);
                let (v3, o3) = key_step(v2, s2, c2, 'P');
                &&& o3 matches OutcomeModel::Edit(a3, b3, ins3, c3)
                &&& apply_change_of(s2, a3, b3, ins3) == s
            })
        }),
{
    reveal(normal_step);
    reveal(paste_step);
    reveal(line_op_step);
    lemma_line_bounds(s, p);
    let ls = line_start_of(s, p);
    let le = line_end_of(s, p);
    let i = clamp_index(s, p);
    assert(s[le] == '\n');
    let (v1, o1) = key_step(v, s, p, 'd');
    assert(v1.pending_op == Some(PendingOp { op: Op::Delete, count: 1 }));
    assert(total_count(v1) == 1);
    assert(repeat_of(s, i, 'j', 0, 0) == i);
    assert(op_range_of(s, i, i, MotionKind::Linewise) == (ls, le + 1, true));
    let s2 = s.take(ls) + s.skip(le + 1);
    assert(apply_change_of(s, ls, le + 1, Seq::empty()) =~= s2);
    let reg = s.subrange(ls, le).push('\n');
    assert(reg =~= s.subrange(ls, le + 1));
    let (v2, o2) = key_step(v1, s, p, 'd');
    let c2 = first_non_blank_of(s2, ls);
    assert(o2 == OutcomeModel::Edit(ls, le + 1, Seq::empty(), c2));
    assert(v2.register == reg && v2.register_linewise && v2.mode == Mode::Normal);
    // The cursor lands on the line that now starts where the deleted one did.
    assert(ls == 0 || s2[ls - 1] == '\n');
    assert(ls < s2.len());
    assert(line_start_at(s2, ls) == ls);
    lemma_line_bounds(s2, ls);
    assert(clamp_index(s2, ls) == ls);
    let c2i = clamp_index(s2, c2);
    lemma_skip_blanks_bounds(s2, ls, line_end_of(s2, ls));
    assert(ls <= c2 <= line_end_of(s2, ls));
    assert(c2i == c2);
    lemma_same_line(s2, ls, c2);
    assert(line_start_of(s2, c2) == ls);
    let (v3, o3) = key_step(v2, s2, c2, 'P');
    assert(o3 == OutcomeModel::Edit(ls, ls, reg, ls));
    assert(apply_change_of(s2, ls, ls, reg) =~= s);
}

/// `x` and `X` honour their count: with count `n` and the cursor at `p`, `x`
/// deletes the `n` characters from the cursor on and `X` the `n` characters
/// before it, each stopping at the edge of the cursor's line (so at most
/// `min(n, ...)` characters go), and the deleted text becomes the register.
pub proof fn law_counted_x_deletes(v: VimModel, s: Seq<char>, p: int, n: usize)
    requires
        v.mode == Mode::Normal,
        v.count == Some(n),
        n >= 1,
        v.pending_op is None,
        v.pending_find is None,
        !v.pending_g,
        !v.pending_replace,
        0 <= p <= s.len(),
    ensures
        line_start_of(s, p) < p ==> {
            let ls = line_start_of(s, p);
            let a = if p - n > ls { p - n } else { ls };
            let (v1, o) = key_step(v, s, p, 'X');
            &&& o matches OutcomeModel::Edit(st, en, ins, _)
            &&& st == a && en == p && ins.len() == 0
            &&& en - st == (if n < p - ls { n as int } else { p - ls })
            &&& apply_change_of(s, st, en, ins) == s.take(a) + s.skip(p)
            &&& v1.register == s.subrange(a, p)
            &&& !v1.register_linewise
            &&& v1.count is None
        },
        p < line_end_of(s, p) ==> {
            let e = line_end_of(s, p);
            let b = if p + n < e { p + n } else { e };
            let (v1, o) = key_step(v, s, p, 'x');
            &&& o matches OutcomeModel::Edit(st, en, ins, _)
            &&& st == p && en == b && ins.len() == 0
            &&& en - st == (if n < e - p { n as int } else { e - p })
            &&& apply_change_of(s, st, en, ins) == s.take(p) + s.skip(b)
            &&& v1.register == s.subrange(p, b)
            &&& !v1.register_linewise
            &&& v1.count is None
        },
{
    reveal(normal_step);
    lemma_line_bounds(s, p);
    assert(clamp_index(s, p) == p);
    assert(count_of(v) == n);
    let ls = line_start_of(s, p);
    let e = line_end_of(s, p);
    if ls < p {
        let a = if p - n > ls { p - n } else { ls };
        assert(op_range_of(s, p, a, MotionKind::Exclusive) == (a, p, false));
        assert(apply_change_of(s, a, p, Seq::empty()) =~= s.take(a) + s.skip(p));
    }
    if p < e {
        let b = if p + n < e { p + n } else { e };
        assert(op_range_of(s, p, b, MotionKind::Exclusive) == (p, b, false));
        assert(apply_change_of(s, p, b, Seq::empty()) =~= s.take(p) + s.skip(b));
    }
}

} // verus!
