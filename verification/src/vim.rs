//! Vim mode: the mode/state types and the cursor-motion functions.
//!
//! The motions operate on the buffer as a slice of characters and return new
//! character indices. A cursor is a character index in `0..=len`. In Normal
//! mode it sits *on* a character; `clamp_normal` keeps it on a real character
//! of its line (never on the trailing newline unless the line is empty).

use vstd::prelude::*;

verus! {

// ─── Modes and pending-command state ──────────────────────────────────────────

#[derive(Clone, Copy, PartialEq, Eq, Debug, Structural)]
pub enum Mode {
    Normal,
    Insert,
    Visual,
    VisualLine,
}

impl Default for Mode {
    fn default() -> (m: Mode)
        ensures
            m == Mode::Normal,
    {
        Mode::Normal
    }
}

/// The status-bar label of a mode.
pub open spec fn mode_label(m: Mode) -> Seq<char> {
    match m {
        Mode::Normal => "NORMAL"@,
        Mode::Insert => "INSERT"@,
        Mode::Visual => "VISUAL"@,
        Mode::VisualLine => "V-LINE"@,
    }
}

impl Mode {
    pub fn label(self) -> (r: &'static str)
        ensures
            r@ == mode_label(self),
    {
        match self {
            Mode::Normal => "NORMAL",
            Mode::Insert => "INSERT",
            Mode::Visual => "VISUAL",
            Mode::VisualLine => "V-LINE",
        }
    }

    pub fn is_visual(self) -> (r: bool)
        ensures
            r == (self == Mode::Visual || self == Mode::VisualLine),
    {
        match self {
            Mode::Visual | Mode::VisualLine => true,
            _ => false,
        }
    }
}

/// Pending operator awaiting a motion (`d`/`c`/`y`), carrying its count.
#[derive(Clone, Copy, PartialEq, Eq, Debug, Structural)]
pub struct PendingOp {
    pub op: Op,
    pub count: usize,
}

#[derive(Clone, Copy, PartialEq, Eq, Debug, Structural)]
pub enum Op {
    Delete,
    Change,
    Yank,
}

/// `f` / `F` / `t` / `T`.
#[derive(Clone, Copy, PartialEq, Eq, Debug, Structural)]
pub enum FindKind {
    Forward,
    Back,
    Till,
    TillBack,
}

#[derive(Clone, Copy, PartialEq, Eq, Debug, Structural)]
pub enum MotionKind {
    Exclusive,
    Inclusive,
    Linewise,
}

/// Which command line is open (Vim `/`, `?`, or `:`).
#[derive(Clone, Copy, PartialEq, Eq, Debug, Structural)]
pub enum CmdKind {
    SearchFwd,
    SearchBack,
    Ex,
}

pub open spec fn cmd_prefix(k: CmdKind) -> Seq<char> {
    match k {
        CmdKind::SearchFwd => "/"@,
        CmdKind::SearchBack => "?"@,
        CmdKind::Ex => ":"@,
    }
}

impl CmdKind {
    pub fn prefix(self) -> (r: &'static str)
        ensures
            r@ == cmd_prefix(self),
    {
        match self {
            CmdKind::SearchFwd => "/",
            CmdKind::SearchBack => "?",
            CmdKind::Ex => ":",
        }
    }
}

/// Persistent Vim state carried by the editor.
pub struct Vim {
    pub mode: Mode,
    /// Set after `g` while waiting for the second key of a `g_` sequence.
    pub pending_g: bool,
    /// Desired column for vertical motion (`j`/`k`).
    pub want_col: Option<usize>,
    /// Accumulated numeric count prefix.
    pub count: Option<usize>,
    /// Operator awaiting a motion.
    pub pending_op: Option<PendingOp>,
    /// `f`/`F`/`t`/`T` awaiting a target character.
    pub pending_find: Option<FindKind>,
    /// `r` awaiting a replacement character.
    pub pending_replace: bool,
    /// Visual-mode anchor (the fixed end of the selection).
    pub visual_anchor: usize,
    /// Visual-mode moving cursor (the end that motions move).
    pub vcursor: usize,
    /// Internal yank/delete register (kept off the OS clipboard).
    pub register: String,
    /// Whether the register holds whole lines.
    pub register_linewise: bool,
    /// Open command line (`/`, `?`, `:`), if any.
    pub cmdline: Option<CmdKind>,
    /// Command-line input buffer.
    pub cmd_buf: String,
    /// Request focus for the command-line field next frame.
    pub cmd_focus: bool,
    /// Whether a `/` search highlight is currently active.
    pub search_active: bool,
    /// Direction of the last search (for `n`/`N`).
    pub search_forward: bool,
}

/// The mathematical state of Vim mode: the fields of `Vim`, with its texts
/// as sequences of characters.
pub struct VimModel {
    pub mode: Mode,
    pub pending_g: bool,
    pub want_col: Option<usize>,
    pub count: Option<usize>,
    pub pending_op: Option<PendingOp>,
    pub pending_find: Option<FindKind>,
    pub pending_replace: bool,
    pub visual_anchor: usize,
    pub vcursor: usize,
    pub register: Seq<char>,
    pub register_linewise: bool,
    pub cmdline: Option<CmdKind>,
    pub cmd_buf: Seq<char>,
    pub cmd_focus: bool,
    pub search_active: bool,
    pub search_forward: bool,
}

impl View for Vim {
    type V = VimModel;

    open spec fn view(&self) -> VimModel {
        VimModel {
            mode: self.mode,
            pending_g: self.pending_g,
            want_col: self.want_col,
            count: self.count,
            pending_op: self.pending_op,
            pending_find: self.pending_find,
            pending_replace: self.pending_replace,
            visual_anchor: self.visual_anchor,
            vcursor: self.vcursor,
            register: self.register@,
            register_linewise: self.register_linewise,
            cmdline: self.cmdline,
            cmd_buf: self.cmd_buf@,
            cmd_focus: self.cmd_focus,
            search_active: self.search_active,
            search_forward: self.search_forward,
        }
    }
}

impl Default for Vim {
    fn default() -> (v: Vim)
        ensures
            v.mode == Mode::Normal,
            !v.pending_g,
            v.want_col is None,
            v.count is None,
            v.pending_op is None,
            v.pending_find is None,
            !v.pending_replace,
            v.visual_anchor == 0,
            v.vcursor == 0,
            v.register@ == Seq::<char>::empty(),
            !v.register_linewise,
            v.cmdline is None,
            v.cmd_buf@ == Seq::<char>::empty(),
            !v.cmd_focus,
            !v.search_active,
            !v.search_forward,
    {
        Vim {
            mode: Mode::Normal,
            pending_g: false,
            want_col: None,
            count: None,
            pending_op: None,
            pending_find: None,
            pending_replace: false,
            visual_anchor: 0,
            vcursor: 0,
            register: String::new(),
            register_linewise: false,
            cmdline: None,
            cmd_buf: String::new(),
            cmd_focus: false,
            search_active: false,
            search_forward: false,
        }
    }
}

impl Vim {
    /// Reset transient command state, returning to Normal mode. The register,
    /// the visual anchors and the command line are preserved.
    pub fn reset_to_normal(&mut self)
        ensures
            final(self).mode == Mode::Normal,
            !final(self).pending_g,
            final(self).want_col is None,
            final(self).count is None,
            final(self).pending_op is None,
            final(self).pending_find is None,
            !final(self).pending_replace,
            final(self).visual_anchor == old(self).visual_anchor,
            final(self).vcursor == old(self).vcursor,
            final(self).register == old(self).register,
            final(self).register_linewise == old(self).register_linewise,
            final(self).cmdline == old(self).cmdline,
            final(self).cmd_buf == old(self).cmd_buf,
            final(self).cmd_focus == old(self).cmd_focus,
            final(self).search_active == old(self).search_active,
            final(self).search_forward == old(self).search_forward,
    {
        self.mode = Mode::Normal;
        self.pending_g = false;
        self.want_col = None;
        self.count = None;
        self.pending_op = None;
        self.pending_find = None;
        self.pending_replace = false;
    }

    /// Consume the pending count (default 1, never 0).
    pub fn take_count(&mut self) -> (n: usize)
        ensures
            n == (match old(self).count {
                Some(c) => if c >= 1 { c } else { 1 },
                None => 1,
            }),
            final(self).count is None,
            final(self).mode == old(self).mode,
            final(self).pending_g == old(self).pending_g,
            final(self).want_col == old(self).want_col,
            final(self).pending_op == old(self).pending_op,
            final(self).pending_find == old(self).pending_find,
            final(self).pending_replace == old(self).pending_replace,
            final(self).visual_anchor == old(self).visual_anchor,
            final(self).vcursor == old(self).vcursor,
            final(self).register == old(self).register,
            final(self).register_linewise == old(self).register_linewise,
            final(self).cmdline == old(self).cmdline,
            final(self).cmd_buf == old(self).cmd_buf,
            final(self).cmd_focus == old(self).cmd_focus,
            final(self).search_active == old(self).search_active,
            final(self).search_forward == old(self).search_forward,
    {
        let c = match self.count {
            Some(c) => c,
            None => 1,
        };
        self.count = None;
        if c >= 1 {
            c
        } else {
            1
        }
    }
}

// ─── Line structure ───────────────────────────────────────────────────────────

/// A cursor index clamped to the buffer (`min(i, len)`).
pub open spec fn clamp_index(s: Seq<char>, i: int) -> int {
    if i < s.len() {
        i
    } else {
        s.len() as int
    }
}

/// Start of the line containing position `j` (`0 <= j <= len`): the position
/// just after the nearest preceding newline, or 0.
pub open spec fn line_start_at(s: Seq<char>, j: int) -> int
    decreases j,
{
    if j <= 0 {
        0
    } else if s[j - 1] == '\n' {
        j
    } else {
        line_start_at(s, j - 1)
    }
}

/// Position of the newline ending the line containing position `j`, or `len`
/// on the last line.
pub open spec fn line_end_at(s: Seq<char>, j: int) -> int
    decreases s.len() - j,
{
    if j >= s.len() {
        s.len() as int
    } else if s[j] == '\n' {
        j
    } else {
        line_end_at(s, j + 1)
    }
}

pub open spec fn line_start_of(s: Seq<char>, i: int) -> int {
    line_start_at(s, clamp_index(s, i))
}

pub open spec fn line_end_of(s: Seq<char>, i: int) -> int {
    line_end_at(s, clamp_index(s, i))
}

/// The last real character of the line (never the newline); the line start
/// for an empty line.
pub open spec fn line_last_of(s: Seq<char>, i: int) -> int {
    let a = line_start_of(s, i);
    let b = line_end_of(s, i);
    if b > a {
        b - 1
    } else {
        a
    }
}

pub open spec fn is_blank(c: char) -> bool {
    c == ' ' || c == '\t'
}

/// First position in `[j, end)` that is not a blank, or `end`.
pub open spec fn skip_blanks(s: Seq<char>, j: int, end: int) -> int
    decreases end - j,
{
    if j < end && is_blank(s[j]) {
        skip_blanks(s, j + 1, end)
    } else {
        j
    }
}

pub open spec fn first_non_blank_of(s: Seq<char>, i: int) -> int {
    let a = line_start_of(s, i);
    let b = line_end_of(s, i);
    let j = skip_blanks(s, a, b);
    if j < b {
        j
    } else {
        a
    }
}

pub open spec fn clamp_normal_of(s: Seq<char>, i: int) -> int {
    let c = clamp_index(s, i);
    let a = line_start_of(s, i);
    let b = line_end_of(s, i);
    if b > a {
        if c < b - 1 {
            c
        } else {
            b - 1
        }
    } else {
        a
    }
}

/// `line_start_at` is the position after the nearest newline before `j`.
pub proof fn lemma_line_start_at(s: Seq<char>, j: int)
    requires
        0 <= j <= s.len(),
    ensures
        0 <= line_start_at(s, j) <= j,
        line_start_at(s, j) == 0 || s[line_start_at(s, j) - 1] == '\n',
        forall|k: int| line_start_at(s, j) <= k < j ==> s[k] != '\n',
    decreases j,
{
    if j > 0 && s[j - 1] != '\n' {
        lemma_line_start_at(s, j - 1);
    }
}

/// `line_end_at` is the nearest newline at or after `j`, or the end.
pub proof fn lemma_line_end_at(s: Seq<char>, j: int)
    requires
        0 <= j <= s.len(),
    ensures
        j <= line_end_at(s, j) <= s.len(),
        line_end_at(s, j) == s.len() || s[line_end_at(s, j)] == '\n',
        forall|k: int| j <= k < line_end_at(s, j) ==> s[k] != '\n',
    decreases s.len() - j,
{
    if j < s.len() && s[j] != '\n' {
        lemma_line_end_at(s, j + 1);
    }
}

/// Every position between a line's start and its end lies on that line.
pub proof fn lemma_same_line(s: Seq<char>, j: int, p: int)
    requires
        0 <= j <= s.len(),
        line_start_at(s, j) <= p <= line_end_at(s, j),
    ensures
        line_start_at(s, p) == line_start_at(s, j),
        line_end_at(s, p) == line_end_at(s, j),
{
    lemma_line_start_at(s, j);
    lemma_line_end_at(s, j);
    lemma_line_start_at(s, p);
    lemma_line_end_at(s, p);
    let a = line_start_at(s, j);
    let b = line_end_at(s, j);
    let ap = line_start_at(s, p);
    let bp = line_end_at(s, p);
    // No newline strictly inside [a, b), so the nearest newline searches agree.
    assert forall|k: int| a <= k < b implies s[k] != '\n' by {
        if k < j {
        } else {
        }
    }
    if ap < a {
        assert(s[a - 1] == '\n');
        assert(ap <= a - 1 < p);
    }
    if ap > a {
        assert(s[ap - 1] == '\n');
        assert(a <= ap - 1 < b);
    }
    if bp < b {
        assert(s[bp] == '\n');
    }
    if bp > b {
        assert(b < s.len());
        assert(s[b] == '\n');
        assert(p <= b < bp);
    }
}

/// A line's start and end bracket the clamped cursor.
pub proof fn lemma_line_bounds(s: Seq<char>, i: int)
    requires
        0 <= i,
    ensures
        0 <= line_start_of(s, i) <= clamp_index(s, i) <= line_end_of(s, i) <= s.len(),
        line_start_of(s, i) == 0 || s[line_start_of(s, i) - 1] == '\n',
        line_end_of(s, i) == s.len() || s[line_end_of(s, i)] == '\n',
        forall|k: int| line_start_of(s, i) <= k < line_end_of(s, i) ==> s[k] != '\n',
{
    let c = clamp_index(s, i);
    lemma_line_start_at(s, c);
    lemma_line_end_at(s, c);
}

// ─── Line helpers ─────────────────────────────────────────────────────────────

/// First character index of the line containing `i`.
pub fn line_start(s: &[char], i: usize) -> (r: usize)
    ensures
        r == line_start_of(s@, i as int),
        r <= i,
        r <= s.len(),
        r == 0 || s@[r - 1] == '\n',
        forall|k: int| r <= k < clamp_index(s@, i as int) ==> s@[k] != '\n',
{
    let mut j = if i < s.len() {
        i
    } else {
        s.len()
    };
    while j > 0 && s[j - 1] != '\n'
        invariant
            j <= s.len(),
            j <= i,
            line_start_at(s@, j as int) == line_start_of(s@, i as int),
        decreases j,
    {
        j -= 1;
    }
    proof {
        lemma_line_bounds(s@, i as int);
    }
    j
}

/// Index of the `\n` that ends the line containing `i`, or `s.len()` on the
/// last line.
pub fn line_end(s: &[char], i: usize) -> (r: usize)
    ensures
        r == line_end_of(s@, i as int),
        clamp_index(s@, i as int) <= r <= s.len(),
        r == s.len() || s@[r as int] == '\n',
        forall|k: int| clamp_index(s@, i as int) <= k < r ==> s@[k] != '\n',
{
    let mut j = if i < s.len() {
        i
    } else {
        s.len()
    };
    while j < s.len() && s[j] != '\n'
        invariant
            clamp_index(s@, i as int) <= j <= s.len(),
            line_end_at(s@, j as int) == line_end_of(s@, i as int),
        decreases s.len() - j,
    {
        j += 1;
    }
    proof {
        lemma_line_bounds(s@, i as int);
    }
    j
}

/// Index of the last real character of the line (never the newline); equals
/// `line_start` for an empty line.
pub fn line_last(s: &[char], i: usize) -> (r: usize)
    ensures
        r == line_last_of(s@, i as int),
        line_start_of(s@, i as int) <= r <= s.len(),
        r < line_end_of(s@, i as int) || r == line_start_of(s@, i as int),
{
    let start = line_start(s, i);
    let end = line_end(s, i);
    proof {
        lemma_line_bounds(s@, i as int);
    }
    if end > start {
        end - 1
    } else {
        start
    }
}

/// First non-blank character of the line (or line start if all blank/empty).
pub fn first_non_blank(s: &[char], i: usize) -> (r: usize)
    ensures
        r == first_non_blank_of(s@, i as int),
        line_start_of(s@, i as int) <= r <= line_end_of(s@, i as int),
{
    let start = line_start(s, i);
    let end = line_end(s, i);
    let mut j = start;
    while j < end && (s[j] == ' ' || s[j] == '\t')
        invariant
            start <= j <= end,
            end <= s.len(),
            skip_blanks(s@, j as int, end as int) == skip_blanks(s@, start as int, end as int),
        decreases end - j,
    {
        j += 1;
    }
    if j < end {
        j
    } else {
        start
    }
}

/// Column (0-based) of `i` within its line.
pub fn col(s: &[char], i: usize) -> (r: usize)
    ensures
        r == i - line_start_of(s@, i as int),
{
    i - line_start(s, i)
}

/// Clamp a cursor to a valid Normal-mode position (on a real character of its
/// line, or the empty-line position).
pub fn clamp_normal(s: &[char], i: usize) -> (r: usize)
    ensures
        r == clamp_normal_of(s@, i as int),
        r <= s.len(),
        line_start_of(s@, r as int) == line_start_of(s@, i as int),
        line_start_of(s@, i as int) <= r <= line_last_of(s@, i as int),
        r < s.len() && s@[r as int] == '\n' ==> line_start_of(s@, i as int) == line_end_of(s@, i as int),
{
    let c = if i < s.len() {
        i
    } else {
        s.len()
    };
    let start = line_start(s, i);
    let end = line_end(s, i);
    proof {
        lemma_line_bounds(s@, i as int);
        lemma_clamp_normal_line(s@, i as int);
    }
    if end > start {
        if c < end - 1 {
            c
        } else {
            end - 1
        }
    } else {
        start
    }
}

/// The clamped Normal-mode cursor stays on the line of the cursor it started from.
pub proof fn lemma_clamp_normal_line(s: Seq<char>, i: int)
    requires
        0 <= i,
    ensures
        0 <= clamp_normal_of(s, i) <= s.len(),
        line_start_of(s, clamp_normal_of(s, i)) == line_start_of(s, i),
        line_end_of(s, clamp_normal_of(s, i)) == line_end_of(s, i),
        clamp_normal_of(s, i) == line_start_of(s, i) || clamp_normal_of(s, i) < line_end_of(s, i),
{
    lemma_line_bounds(s, i);
    let c = clamp_index(s, i);
    let r = clamp_normal_of(s, i);
    lemma_same_line(s, c, r);
}

// ─── Horizontal and vertical motions ─────────────────────────────────────────

pub open spec fn left_of(s: Seq<char>, i: int) -> int {
    if i > line_start_of(s, i) {
        i - 1
    } else {
        i
    }
}

pub open spec fn right_of(s: Seq<char>, i: int) -> int {
    if i < line_last_of(s, i) {
        i + 1
    } else {
        line_last_of(s, i)
    }
}

/// `h`: one character left, never crossing to the previous line.
pub fn left(s: &[char], i: usize) -> (r: usize)
    ensures
        r == left_of(s@, i as int),
        r <= i,
        i <= s.len() ==> line_start_of(s@, r as int) == line_start_of(s@, i as int),
{
    let start = line_start(s, i);
    proof {
        lemma_line_bounds(s@, i as int);
        if i <= s.len() {
            lemma_same_line(s@, i as int, left_of(s@, i as int));
        }
    }
    if i > start {
        i - 1
    } else {
        i
    }
}

/// `l`: one character right, stopping on the last real character of the line.
pub fn right(s: &[char], i: usize) -> (r: usize)
    ensures
        r == right_of(s@, i as int),
        r <= s.len(),
        line_start_of(s@, r as int) == line_start_of(s@, i as int),
        r <= line_last_of(s@, i as int),
{
    let last = line_last(s, i);
    proof {
        lemma_line_bounds(s@, i as int);
        let c = clamp_index(s@, i as int);
        lemma_same_line(s@, c, right_of(s@, i as int));
    }
    if i < last {
        i + 1
    } else {
        last
    }
}

/// Target of `j` from `i` with desired column `want_col`: that column of the
/// next line, clamped to its last real character; `i` itself on the last line.
pub open spec fn down_of(s: Seq<char>, i: int, want_col: int) -> int {
    let e = line_end_of(s, i);
    if e >= s.len() {
        i
    } else {
        let ns = e + 1;
        let ne = line_end_at(s, ns);
        let nl = if ne > ns {
            ne - 1
        } else {
            ns
        };
        if ns + want_col < nl {
            ns + want_col
        } else {
            nl
        }
    }
}

/// Target of `k`: the desired column of the previous line, clamped to its last
/// real character; `i` itself on the first line.
pub open spec fn up_of(s: Seq<char>, i: int, want_col: int) -> int {
    let st = line_start_of(s, i);
    if st == 0 {
        i
    } else {
        let ps = line_start_at(s, st - 1);
        let pe = st - 1;
        let pl = if pe > ps {
            pe - 1
        } else {
            ps
        };
        if ps + want_col < pl {
            ps + want_col
        } else {
            pl
        }
    }
}

/// `j`: move to the next line, keeping the desired column.
pub fn down(s: &[char], i: usize, want_col: usize) -> (r: usize)
    requires
        line_end_of(s@, i as int) < s.len() ==> line_end_of(s@, i as int) + 1 + want_col
            <= usize::MAX,
    ensures
        r == down_of(s@, i as int, want_col as int),
        line_end_of(s@, i as int) < s.len() ==> {
            &&& line_start_of(s@, r as int) == line_end_of(s@, i as int) + 1
            &&& r - line_start_of(s@, r as int) == if want_col < line_last_of(s@, r as int)
                - line_start_of(s@, r as int) {
                want_col as int
            } else {
                line_last_of(s@, r as int) - line_start_of(s@, r as int)
            }
        },
{
    let end = line_end(s, i);
    if end >= s.len() {
        return i;
    }
    let nstart = end + 1;
    let nend = line_end(s, nstart);
    let nlast = if nend > nstart {
        nend - 1
    } else {
        nstart
    };
    proof {
        lemma_line_start_at(s@, nstart as int);
        lemma_line_end_at(s@, nstart as int);
        assert(line_start_at(s@, nstart as int) == nstart);
        let r = down_of(s@, i as int, want_col as int);
        lemma_same_line(s@, nstart as int, r);
    }
    if nstart + want_col < nlast {
        nstart + want_col
    } else {
        nlast
    }
}

/// `k`: move to the previous line, keeping the desired column.
pub fn up(s: &[char], i: usize, want_col: usize) -> (r: usize)
    requires
        line_start_of(s@, i as int) > 0 ==> line_start_at(s@, line_start_of(s@, i as int) - 1)
            + want_col <= usize::MAX,
    ensures
        r == up_of(s@, i as int, want_col as int),
        line_start_of(s@, i as int) > 0 ==> {
            &&& line_end_of(s@, r as int) == line_start_of(s@, i as int) - 1
            &&& r - line_start_of(s@, r as int) == if want_col < line_last_of(s@, r as int)
                - line_start_of(s@, r as int) {
                want_col as int
            } else {
                line_last_of(s@, r as int) - line_start_of(s@, r as int)
            }
        },
{
    let start = line_start(s, i);
    if start == 0 {
        return i;
    }
    let pstart = line_start(s, start - 1);
    let pend = start - 1;
    let plast = if pend > pstart {
        pend - 1
    } else {
        pstart
    };
    proof {
        lemma_line_bounds(s@, i as int);
        let p = (start - 1) as int;
        lemma_line_start_at(s@, p);
        lemma_line_end_at(s@, p);
        assert(line_end_at(s@, p) == p);
        let r = up_of(s@, i as int, want_col as int);
        lemma_same_line(s@, p, r);
    }
    if pstart + want_col < plast {
        pstart + want_col
    } else {
        plast
    }
}

// ─── Character classes (for word motions) ─────────────────────────────────────

/// What `char::is_alphanumeric` returns for a character outside ASCII
/// (Unicode Alphabetic or Numeric).
pub uninterp spec fn non_ascii_alphanumeric(c: char) -> bool;

/// An ASCII letter or digit.
pub open spec fn ascii_alphanumeric(c: char) -> bool {
    ('a' <= c && c <= 'z') || ('A' <= c && c <= 'Z') || ('0' <= c && c <= '9')
}

/// `char::is_alphanumeric`: in ASCII exactly the letters and digits, beyond
/// it the name above.
pub open spec fn char_is_alphanumeric(c: char) -> bool {
    if (c as u32) < 128 {
        ascii_alphanumeric(c)
    } else {
        non_ascii_alphanumeric(c)
    }
}

/// Calls `char::is_alphanumeric` (Unicode Alphabetic or Numeric). In ASCII
/// those are exactly the letters and digits; beyond ASCII the result is the
/// name `non_ascii_alphanumeric`.
#[verifier::external_body]
fn is_alphanumeric(c: char) -> (r: bool)
    ensures
        r == char_is_alphanumeric(c),
        (c as u32) >= 128 ==> r == non_ascii_alphanumeric(c),
{
    c.is_alphanumeric()
}

/// 0 for whitespace, 1 for word characters, 2 for punctuation.
pub open spec fn char_class(c: char) -> u8 {
    if c == ' ' || c == '\t' || c == '\n' {
        0
    } else if char_is_alphanumeric(c) || c == '_' {
        1
    } else {
        2
    }
}

pub(crate) fn class(c: char) -> (r: u8)
    ensures
        r == char_class(c),
{
    if c == ' ' || c == '\t' || c == '\n' {
        0
    } else if is_alphanumeric(c) || c == '_' {
        1
    } else {
        2
    }
}

/// First position at or after `j` whose character is not of class `c`, or `len`.
pub open spec fn skip_class(s: Seq<char>, j: int, c: u8) -> int
    decreases s.len() - j,
{
    if 0 <= j < s.len() && char_class(s[j]) == c {
        skip_class(s, j + 1, c)
    } else {
        j
    }
}

/// Moving back from `j` over whitespace: the last position at or before `j`
/// that is not whitespace, or 0.
pub open spec fn skip_back_space(s: Seq<char>, j: int) -> int
    decreases j,
{
    if j > 0 && char_class(s[j]) == 0 {
        skip_back_space(s, j - 1)
    } else {
        j
    }
}

/// Start of the run of class `c` that ends at `j`.
pub open spec fn run_start(s: Seq<char>, j: int, c: u8) -> int
    decreases j,
{
    if j > 0 && char_class(s[j - 1]) == c {
        run_start(s, j - 1, c)
    } else {
        j
    }
}

/// Last position of the run of class `c` that starts at `j`.
pub open spec fn run_end(s: Seq<char>, j: int, c: u8) -> int
    decreases s.len() - j,
{
    if 0 <= j && j + 1 < s.len() && char_class(s[j + 1]) == c {
        run_end(s, j + 1, c)
    } else {
        j
    }
}

/// `w`: past the rest of the current word (or punctuation run) and the
/// whitespace after it.
pub open spec fn word_forward_of(s: Seq<char>, i: int) -> int {
    if i >= s.len() {
        s.len() as int
    } else {
        let c0 = char_class(s[i]);
        let j = if c0 != 0 {
            skip_class(s, i, c0)
        } else {
            i
        };
        skip_class(s, j, 0)
    }
}

/// `b`: back over whitespace to the start of the previous word or run.
pub open spec fn word_backward_of(s: Seq<char>, i: int) -> int {
    if i == 0 {
        0
    } else {
        let j = skip_back_space(s, i - 1);
        if char_class(s[j]) == 0 {
            j
        } else {
            run_start(s, j, char_class(s[j]))
        }
    }
}

/// `e`: forward over whitespace to the end of the next word or run.
pub open spec fn word_end_of(s: Seq<char>, i: int) -> int {
    if i + 1 >= s.len() {
        i
    } else {
        let j = skip_class(s, i + 1, 0);
        if j >= s.len() {
            s.len() - 1
        } else {
            run_end(s, j, char_class(s[j]))
        }
    }
}

proof fn lemma_skip_class_bounds(s: Seq<char>, j: int, c: u8)
    requires
        0 <= j <= s.len(),
    ensures
        j <= skip_class(s, j, c) <= s.len(),
    decreases s.len() - j,
{
    if j < s.len() && char_class(s[j]) == c {
        lemma_skip_class_bounds(s, j + 1, c);
    }
}

fn skip_class_exec(s: &[char], j0: usize, c: u8) -> (r: usize)
    requires
        j0 <= s.len(),
    ensures
        r == skip_class(s@, j0 as int, c),
        j0 <= r <= s.len(),
{
    let mut j = j0;
    while j < s.len() && class(s[j]) == c
        invariant
            j0 <= j <= s.len(),
            skip_class(s@, j as int, c) == skip_class(s@, j0 as int, c),
        decreases s.len() - j,
    {
        j += 1;
    }
    j
}

/// `w`: start of the next word.
pub fn word_forward(s: &[char], i: usize) -> (r: usize)
    ensures
        r == word_forward_of(s@, i as int),
        r <= s.len(),
        i < s.len() ==> i < r,
{
    let n = s.len();
    if i >= n {
        return n;
    }
    let c0 = class(s[i]);
    let j = if c0 != 0 {
        skip_class_exec(s, i, c0)
    } else {
        i
    };
    proof {
        if c0 != 0 {
            assert(skip_class(s@, i as int, c0) == skip_class(s@, i + 1, c0));
            lemma_skip_class_bounds(s@, i + 1, c0);
        }
    }
    let r = skip_class_exec(s, j, 0);
    proof {
        if c0 == 0 {
            assert(skip_class(s@, i as int, 0) == skip_class(s@, i + 1, 0));
            lemma_skip_class_bounds(s@, i + 1, 0);
        }
    }
    r
}

/// `b`: start of the previous word.
pub fn word_backward(s: &[char], i: usize) -> (r: usize)
    requires
        i <= s.len(),
    ensures
        r == word_backward_of(s@, i as int),
        i > 0 ==> r < i,
        i == 0 ==> r == 0,
{
    if i == 0 {
        return 0;
    }
    let mut j = i - 1;
    while j > 0 && class(s[j]) == 0
        invariant
            j < i <= s.len(),
            skip_back_space(s@, j as int) == skip_back_space(s@, i - 1),
        decreases j,
    {
        j -= 1;
    }
    let cj = class(s[j]);
    if cj == 0 {
        return j;
    }
    let ghost j0 = j;
    while j > 0 && class(s[j - 1]) == cj
        invariant
            j <= j0 < i <= s.len(),
            run_start(s@, j as int, cj) == run_start(s@, j0 as int, cj),
        decreases j,
    {
        j -= 1;
    }
    j
}

/// `e`: end of the current or next word.
pub fn word_end(s: &[char], i: usize) -> (r: usize)
    requires
        i < usize::MAX,
    ensures
        r == word_end_of(s@, i as int),
        i + 1 < s.len() ==> i < r < s.len(),
{
    let n = s.len();
    if i + 1 >= n {
        return i;
    }
    let mut j = skip_class_exec(s, i + 1, 0);
    if j >= n {
        return n - 1;
    }
    let c = class(s[j]);
    let ghost j0 = j;
    while j + 1 < n && class(s[j + 1]) == c
        invariant
            i < j0 <= j < n == s.len(),
            run_end(s@, j as int, c) == run_end(s@, j0 as int, c),
        decreases n - j,
    {
        j += 1;
    }
    j
}

/// Vim `G`: the first non-blank character of the last line.
pub fn buffer_bottom(s: &[char]) -> (r: usize)
    ensures
        r == first_non_blank_of(s@, s.len() as int),
{
    first_non_blank(s, s.len())
}

/// Vim `gg`: the first non-blank character of the first line.
pub fn buffer_top(s: &[char]) -> (r: usize)
    ensures
        r == first_non_blank_of(s@, 0),
{
    first_non_blank(s, 0)
}

// ─── Find on line ─────────────────────────────────────────────────────────────

/// The `k`-th (`k >= 1`) occurrence of `ch` in `[j, end)`, scanning forward.
pub open spec fn nth_forward(s: Seq<char>, j: int, end: int, ch: char, k: nat) -> Option<int>
    decreases end - j,
{
    if j >= end {
        None
    } else if s[j] == ch {
        if k <= 1 {
            Some(j)
        } else {
            nth_forward(s, j + 1, end, ch, (k - 1) as nat)
        }
    } else {
        nth_forward(s, j + 1, end, ch, k)
    }
}

/// The `k`-th (`k >= 1`) occurrence of `ch` in `[start, j)`, scanning backward
/// from `j`.
pub open spec fn nth_backward(s: Seq<char>, j: int, start: int, ch: char, k: nat) -> Option<int>
    decreases j - start,
{
    if j <= start {
        None
    } else if s[j - 1] == ch {
        if k <= 1 {
            Some(j - 1)
        } else {
            nth_backward(s, j - 1, start, ch, (k - 1) as nat)
        }
    } else {
        nth_backward(s, j - 1, start, ch, k)
    }
}

/// `f`/`F`/`t`/`T`: the `count`-th `ch` on the cursor's line after (or
/// before) the cursor; for `t`/`T` the position one short of it.
pub open spec fn find_in_line_of(s: Seq<char>, cursor: int, kind: FindKind, ch: char, count: nat) -> Option<int> {
    let k: nat = if count >= 1 {
        count
    } else {
        1
    };
    let start = line_start_of(s, cursor);
    let end = line_end_of(s, cursor);
    match kind {
        FindKind::Forward => nth_forward(s, cursor + 1, end, ch, k),
        FindKind::Till => match nth_forward(s, cursor + 1, end, ch, k) {
            Some(j) => Some(j - 1),
            None => None,
        },
        FindKind::Back => nth_backward(s, cursor, start, ch, k),
        FindKind::TillBack => match nth_backward(s, cursor, start, ch, k) {
            Some(j) => Some(j + 1),
            None => None,
        },
    }
}

proof fn lemma_nth_forward(s: Seq<char>, j: int, end: int, ch: char, k: nat)
    requires
        0 <= j,
        end <= s.len(),
    ensures
        nth_forward(s, j, end, ch, k) matches Some(r) ==> j <= r < end && s[r] == ch,
    decreases end - j,
{
    if j < end {
        if s[j] == ch && k > 1 {
            lemma_nth_forward(s, j + 1, end, ch, (k - 1) as nat);
        } else if s[j] != ch {
            lemma_nth_forward(s, j + 1, end, ch, k);
        }
    }
}

proof fn lemma_nth_backward(s: Seq<char>, j: int, start: int, ch: char, k: nat)
    requires
        0 <= start,
        j <= s.len(),
    ensures
        nth_backward(s, j, start, ch, k) matches Some(r) ==> start <= r < j && s[r] == ch,
    decreases j - start,
{
    if j > start {
        if s[j - 1] == ch && k > 1 {
            lemma_nth_backward(s, j - 1, start, ch, (k - 1) as nat);
        } else if s[j - 1] != ch {
            lemma_nth_backward(s, j - 1, start, ch, k);
        }
    }
}

/// `f`/`F`/`t`/`T`: find the `count`-th `ch` on the current line. Returns the
/// resulting cursor index (for `t`/`T`, one short of the match).
pub fn find_in_line(s: &[char], cursor: usize, kind: FindKind, ch: char, count: usize) -> (r: Option<usize>)
    requires
        kind == FindKind::Forward || kind == FindKind::Till ==> cursor < usize::MAX,
        kind == FindKind::Back || kind == FindKind::TillBack ==> cursor <= s.len(),
    ensures
        r matches Some(v) ==> find_in_line_of(s@, cursor as int, kind, ch, count as nat) == Some(v as int),
        r is None ==> find_in_line_of(s@, cursor as int, kind, ch, count as nat) is None,
        r matches Some(v) ==> line_start_of(s@, cursor as int) <= v <= line_end_of(s@, cursor as int),
        kind == FindKind::Forward || kind == FindKind::Back ==> (r matches Some(v) ==> s@[v as int] == ch),
{
    let k = if count >= 1 {
        count
    } else {
        1
    };
    let start = line_start(s, cursor);
    let end = line_end(s, cursor);
    proof {
        lemma_line_bounds(s@, cursor as int);
    }
    match kind {
        FindKind::Forward | FindKind::Till => {
            let mut found: usize = 0;
            let mut j = cursor + 1;
            while j < end
                invariant
                    found < k,
                    k as nat == (if count >= 1 { count as nat } else { 1nat }),
                    start == line_start_of(s@, cursor as int),
                    end == line_end_of(s@, cursor as int),
                    start <= cursor,
                    end <= s.len(),
                    cursor < j,
                    kind == FindKind::Forward || kind == FindKind::Till,
                    nth_forward(s@, j as int, end as int, ch, (k - found) as nat)
                        == nth_forward(s@, cursor + 1, end as int, ch, k as nat),
                decreases end - j,
            {
                if s[j] == ch {
                    found += 1;
                    if found == k {
                        proof {
                            lemma_nth_forward(s@, cursor + 1, end as int, ch, k as nat);
                        }
                        return Some(
                            if kind == FindKind::Till {
                                j - 1
                            } else {
                                j
                            },
                        );
                    }
                }
                j += 1;
            }
            None
        },
        FindKind::Back | FindKind::TillBack => {
            let mut found: usize = 0;
            let mut j = cursor;
            while j > start
                invariant
                    found < k,
                    k as nat == (if count >= 1 { count as nat } else { 1nat }),
                    start == line_start_of(s@, cursor as int),
                    end == line_end_of(s@, cursor as int),
                    start <= cursor,
                    start <= j <= cursor <= s.len(),
                    cursor <= end,
                    kind == FindKind::Back || kind == FindKind::TillBack,
                    nth_backward(s@, j as int, start as int, ch, (k - found) as nat)
                        == nth_backward(s@, cursor as int, start as int, ch, k as nat),
                decreases j,
            {
                j -= 1;
                if s[j] == ch {
                    found += 1;
                    if found == k {
                        proof {
                            lemma_nth_backward(s@, cursor as int, start as int, ch, k as nat);
                        }
                        return Some(
                            if kind == FindKind::TillBack {
                                j + 1
                            } else {
                                j
                            },
                        );
                    }
                }
            }
            None
        },
    }
}

// ─── Paragraph motions ────────────────────────────────────────────────────────

/// A newline that ends a paragraph: followed by another newline or the end.
pub open spec fn is_paragraph_break(s: Seq<char>, k: int) -> bool {
    s[k] == '\n' && (k + 1 >= s.len() || s[k + 1] == '\n')
}

/// `}` from `k`: just past the first paragraph break at or after `k`, or `len`.
pub open spec fn paragraph_forward_of(s: Seq<char>, k: int) -> int
    decreases s.len() - k,
{
    if k >= s.len() {
        s.len() as int
    } else if is_paragraph_break(s, k) {
        k + 1
    } else {
        paragraph_forward_of(s, k + 1)
    }
}

/// `{` from `k`: the last newline before `k` that starts the buffer or follows
/// another newline, or 0.
pub open spec fn paragraph_backward_of(s: Seq<char>, k: int) -> int
    decreases k,
{
    if k <= 0 {
        0
    } else if s[k - 1] == '\n' && (k - 1 == 0 || s[k - 2] == '\n') {
        k - 1
    } else {
        paragraph_backward_of(s, k - 1)
    }
}

/// `}`: move to the next blank-line paragraph boundary.
pub fn paragraph_forward(s: &[char], i: usize) -> (r: usize)
    ensures
        r == paragraph_forward_of(s@, i as int),
        r <= s.len(),
{
    let n = s.len();
    let mut k = i;
    while k < n
        invariant
            n == s.len(),
            i <= k,
            paragraph_forward_of(s@, k as int) == paragraph_forward_of(s@, i as int),
        decreases n - k,
    {
        if s[k] == '\n' && (k + 1 >= n || s[k + 1] == '\n') {
            return k + 1;
        }
        k += 1;
    }
    proof {
        if i > n {
            assert(paragraph_forward_of(s@, i as int) == n);
        }
    }
    n
}

/// `{`: move to the previous blank-line paragraph boundary.
pub fn paragraph_backward(s: &[char], i: usize) -> (r: usize)
    requires
        i <= s.len(),
    ensures
        r == paragraph_backward_of(s@, i as int),
        r <= i,
{
    let mut k = i;
    while k > 0
        invariant
            k <= i <= s.len(),
            paragraph_backward_of(s@, k as int) == paragraph_backward_of(s@, i as int),
        decreases k,
    {
        k -= 1;
        if s[k] == '\n' && (k == 0 || s[k - 1] == '\n') {
            return k;
        }
    }
    0
}

// ─── Operator ranges ──────────────────────────────────────────────────────────

/// Range `[start, end)` an operator acts on, and whether it is linewise.
pub open spec fn op_range_of(s: Seq<char>, from: int, target: int, kind: MotionKind) -> (int, int, bool) {
    let a = if from < target {
        from
    } else {
        target
    };
    let b = if from < target {
        target
    } else {
        from
    };
    match kind {
        MotionKind::Exclusive => (a, b, false),
        MotionKind::Inclusive => (
            a,
            if b + 1 < s.len() {
                b + 1
            } else {
                s.len() as int
            },
            false,
        ),
        MotionKind::Linewise => {
            let st = line_start_of(s, a);
            let nl = line_end_of(s, b);
            let end = if nl < s.len() {
                nl + 1
            } else {
                nl
            };
            let start = if end == s.len() && st > 0 && s[st - 1] == '\n' {
                st - 1
            } else {
                st
            };
            (start, end, true)
        },
    }
}

/// Character range `[start, end)` an operator should act on, given the cursor
/// and a motion target with its kind. Linewise expands to whole lines
/// (including the trailing newline, so `dd` removes the line); deleting the
/// last line also takes the newline before it. Returns `(start, end, linewise)`.
pub fn op_range(s: &[char], from: usize, target: usize, kind: MotionKind) -> (r: (usize, usize, bool))
    requires
        kind == MotionKind::Inclusive ==> from < usize::MAX && target < usize::MAX,
    ensures
        (r.0 as int, r.1 as int, r.2) == op_range_of(s@, from as int, target as int, kind),
        kind != MotionKind::Inclusive ==> r.0 <= r.1,
        from <= s.len() && target <= s.len() ==> r.0 <= r.1,
        kind != MotionKind::Exclusive ==> r.1 <= s.len(),
        kind == MotionKind::Exclusive && from <= s.len() && target <= s.len() ==> r.1 <= s.len(),
        r.2 == (kind == MotionKind::Linewise),
{
    match kind {
        MotionKind::Exclusive => {
            let (a, b) = if from < target {
                (from, target)
            } else {
                (target, from)
            };
            (a, b, false)
        },
        MotionKind::Inclusive => {
            let (a, b) = if from < target {
                (from, target)
            } else {
                (target, from)
            };
            let e = if b + 1 < s.len() {
                b + 1
            } else {
                s.len()
            };
            (a, e, false)
        },
        MotionKind::Linewise => {
            let (a0, b0) = if from < target {
                (from, target)
            } else {
                (target, from)
            };
            let mut start = line_start(s, a0);
            let nl = line_end(s, b0);
            let end = if nl < s.len() {
                nl + 1
            } else {
                nl
            };
            proof {
                lemma_line_bounds(s@, a0 as int);
                lemma_line_bounds(s@, b0 as int);
            }
            if end == s.len() && start > 0 && s[start - 1] == '\n' {
                start -= 1;
            }
            (start, end, true)
        },
    }
}

// ─── Vertical motion column ───────────────────────────────────────────────────

/// The column `j`/`k` aim for: the remembered one, or the cursor's own.
pub open spec fn aim_col(s: Seq<char>, i: int, want: Option<usize>) -> int {
    match want {
        Some(w) => w as int,
        None => i - line_start_of(s, i),
    }
}

// ─── Laws ─────────────────────────────────────────────────────────────────────

/// Clamping a Normal-mode cursor twice is the same as clamping it once.
pub proof fn law_clamp_normal_idempotent(s: Seq<char>, i: int)
    requires
        0 <= i,
    ensures
        clamp_normal_of(s, clamp_normal_of(s, i)) == clamp_normal_of(s, i),
{
    lemma_clamp_normal_line(s, i);
    lemma_line_bounds(s, i);
}

/// The start and the end of a cursor's line lie on that same line.
pub proof fn law_line_start_end_same_line(s: Seq<char>, i: int)
    requires
        0 <= i,
    ensures
        line_start_of(s, line_start_of(s, i)) == line_start_of(s, i),
        line_end_of(s, line_start_of(s, i)) == line_end_of(s, i),
        line_start_of(s, line_end_of(s, i)) == line_start_of(s, i),
        line_end_of(s, line_end_of(s, i)) == line_end_of(s, i),
{
    lemma_line_bounds(s, i);
    let c = clamp_index(s, i);
    lemma_same_line(s, c, line_start_of(s, i));
    lemma_same_line(s, c, line_end_of(s, i));
}

/// `j` then `k` with the kept column returns a Normal-mode cursor to where it
/// was, when a line follows the cursor's line.
pub proof fn law_up_after_down(s: Seq<char>, i: int, c: int)
    requires
        0 <= i <= s.len(),
        clamp_normal_of(s, i) == i,
        line_end_of(s, i) < s.len(),
        c == i - line_start_of(s, i),
    ensures
        up_of(s, down_of(s, i, c), c) == i,
{
    lemma_line_bounds(s, i);
    let a = line_start_of(s, i);
    let e = line_end_of(s, i);
    let ns = e + 1;
    assert(line_start_at(s, ns) == ns);
    lemma_line_end_at(s, ns);
    let d = down_of(s, i, c);
    assert(ns <= d <= line_end_at(s, ns));
    lemma_same_line(s, ns, d);
    assert(clamp_index(s, d) == d);
    assert(line_start_of(s, d) == ns);
    lemma_same_line(s, clamp_index(s, i), e);
    assert(line_start_at(s, ns - 1) == a);
}

/// An operator's range does not depend on which end the cursor is at; it
/// lies inside the text, spans the two positions (one more character for an
/// inclusive motion) and is linewise exactly for a linewise motion.
pub proof fn law_op_range_symmetric(s: Seq<char>, from: int, target: int, kind: MotionKind)
    requires
        0 <= from <= s.len(),
        0 <= target <= s.len(),
    ensures
        op_range_of(s, from, target, kind) == op_range_of(s, target, from, kind),
        0 <= op_range_of(s, from, target, kind).0 <= op_range_of(s, from, target, kind).1 <= s.len(),
        op_range_of(s, from, target, kind).2 == (kind == MotionKind::Linewise),
        kind == MotionKind::Exclusive ==> {
            let r = op_range_of(s, from, target, kind);
            &&& r.0 == (if from < target { from } else { target })
            &&& r.1 == (if from < target { target } else { from })
        },
        kind == MotionKind::Inclusive ==> {
            let r = op_range_of(s, from, target, kind);
            let hi = if from < target { target } else { from };
            &&& r.0 == (if from < target { from } else { target })
            &&& r.1 == (if hi + 1 < s.len() { hi + 1 } else { s.len() as int })
        },
{
    lemma_line_bounds(s, from);
    lemma_line_bounds(s, target);
}

/// How many times `ch` occurs in `s[a..b)`.
pub open spec fn occurrences(s: Seq<char>, a: int, b: int, ch: char) -> nat
    decreases b - a,
{
    if a >= b {
        0
    } else {
        (if s[a] == ch {
            1nat
        } else {
            0nat
        }) + occurrences(s, a + 1, b, ch)
    }
}

proof fn lemma_occurrences_last(s: Seq<char>, a: int, b: int, ch: char)
    requires
        a < b,
    ensures
        occurrences(s, a, b, ch) == occurrences(s, a, b - 1, ch) + (if s[b - 1] == ch {
            1nat
        } else {
            0nat
        }),
    decreases b - a,
{
    if a + 1 < b {
        lemma_occurrences_last(s, a + 1, b, ch);
        assert(occurrences(s, a, b - 1, ch) == (if s[a] == ch {
            1nat
        } else {
            0nat
        }) + occurrences(s, a + 1, b - 1, ch));
    } else {
        assert(occurrences(s, a + 1, b, ch) == 0);
        assert(occurrences(s, a, b - 1, ch) == 0);
    }
}

/// The `k`-th forward occurrence is an occurrence with exactly `k - 1` before
/// it in the range; there is none exactly when the range holds fewer than `k`.
pub proof fn law_nth_forward_counts(s: Seq<char>, j: int, end: int, ch: char, k: nat)
    requires
        0 <= j,
        end <= s.len(),
        k >= 1,
    ensures
        nth_forward(s, j, end, ch, k) matches Some(r) ==> j <= r < end && s[r] == ch && occurrences(
            s,
            j,
            r,
            ch,
        ) == k - 1,
        nth_forward(s, j, end, ch, k) is None <==> occurrences(s, j, end, ch) < k,
    decreases end - j,
{
    if j < end {
        if s[j] == ch && k > 1 {
            law_nth_forward_counts(s, j + 1, end, ch, (k - 1) as nat);
        } else if s[j] != ch {
            law_nth_forward_counts(s, j + 1, end, ch, k);
        }
    }
}

/// The `k`-th backward occurrence is an occurrence with exactly `k - 1`
/// after it before `j`; there is none exactly when the range holds fewer
/// than `k`.
pub proof fn law_nth_backward_counts(s: Seq<char>, j: int, start: int, ch: char, k: nat)
    requires
        0 <= start,
        j <= s.len(),
        k >= 1,
    ensures
        nth_backward(s, j, start, ch, k) matches Some(r) ==> start <= r < j && s[r] == ch
            && occurrences(s, r + 1, j, ch) == k - 1,
        nth_backward(s, j, start, ch, k) is None <==> occurrences(s, start, j, ch) < k,
    decreases j - start,
{
    if j > start {
        lemma_occurrences_last(s, start, j, ch);
        if s[j - 1] == ch && k > 1 {
            law_nth_backward_counts(s, j - 1, start, ch, (k - 1) as nat);
            if let Some(r) = nth_backward(s, j - 1, start, ch, (k - 1) as nat) {
                lemma_occurrences_last(s, r + 1, j, ch);
            }
        } else if s[j - 1] != ch {
            law_nth_backward_counts(s, j - 1, start, ch, k);
            if let Some(r) = nth_backward(s, j - 1, start, ch, k) {
                lemma_occurrences_last(s, r + 1, j, ch);
            }
        }
    }
}

/// `f` and `F` find the `count`-th (at least the first) `ch` after or before
/// the cursor on its line, with exactly `count - 1` of them passed over; they
/// find none exactly when the line holds fewer than that many there.
pub proof fn law_find_in_line_counts(s: Seq<char>, cursor: int, ch: char, count: nat)
    requires
        0 <= cursor <= s.len(),
    ensures
        ({
            let k = if count >= 1 { count } else { 1 };
            let end = line_end_of(s, cursor);
            match find_in_line_of(s, cursor, FindKind::Forward, ch, count) {
                Some(r) => cursor < r < end && s[r] == ch && occurrences(s, cursor + 1, r, ch) == k - 1,
                None => occurrences(s, cursor + 1, end, ch) < k,
            }
        }),
        ({
            let k = if count >= 1 { count } else { 1 };
            let start = line_start_of(s, cursor);
            match find_in_line_of(s, cursor, FindKind::Back, ch, count) {
                Some(r) => start <= r < cursor && s[r] == ch && occurrences(s, r + 1, cursor, ch) == k - 1,
                None => occurrences(s, start, cursor, ch) < k,
            }
        }),
{
    lemma_line_bounds(s, cursor);
    let k: nat = if count >= 1 {
        count
    } else {
        1
    };
    law_nth_forward_counts(s, cursor + 1, line_end_of(s, cursor), ch, k);
    law_nth_backward_counts(s, cursor, line_start_of(s, cursor), ch, k);
}

/// A Normal-mode cursor never rests on a newline unless its line is empty.
pub proof fn law_clamp_normal_on_character(s: Seq<char>, i: int)
    requires
        0 <= i,
        clamp_normal_of(s, i) < s.len(),
        s[clamp_normal_of(s, i)] == '\n',
    ensures
        line_start_of(s, i) == line_end_of(s, i),
        clamp_normal_of(s, i) == line_start_of(s, i),
{
    lemma_clamp_normal_line(s, i);
    lemma_line_bounds(s, i);
}

} // verus!
