//! Minimal Markdown parser for the live-preview pane.
//!
//! The editor content is always treated as Markdown. This covers the common
//! constructs (headings, emphasis, inline code, fenced code blocks, lists,
//! blockquotes, horizontal rules, and links) rather than full CommonMark. The
//! parser turns text into blocks of styled segments; painting them is left to
//! the user interface.

use vstd::prelude::*;
use crate::text::{find_char, find_from, lemma_find_from, slice_chars, string_from_chars, trim_start_chars, trim_start_spec};

verus! {

// ─── Inline segments ────────────────────────────────────────────────────────

/// A run of text with one style.
pub struct Seg {
    pub text: String,
    pub bold: bool,
    pub italic: bool,
    pub code: bool,
    pub link: Option<String>,
}

/// The mathematical content of a segment.
pub struct SegModel {
    pub text: Seq<char>,
    pub bold: bool,
    pub italic: bool,
    pub code: bool,
    pub link: Option<Seq<char>>,
}

impl View for Seg {
    type V = SegModel;

    open spec fn view(&self) -> SegModel {
        SegModel {
            text: self.text@,
            bold: self.bold,
            italic: self.italic,
            code: self.code,
            link: match self.link {
                Some(l) => Some(l@),
                None => None,
            },
        }
    }
}

pub open spec fn segs_view(v: Seq<Seg>) -> Seq<SegModel> {
    v.map_values(|g: Seg| g@)
}

/// The pending plain text as a segment (none if it is empty).
pub open spec fn flush(buf: Seq<char>, bold: bool, italic: bool) -> Seq<SegModel> {
    if buf.len() == 0 {
        Seq::empty()
    } else {
        seq![SegModel { text: buf, bold, italic, code: false, link: None }]
    }
}

/// `[text](url)` starting at `i`: the positions of `]` and `)`.
pub open spec fn link_at(s: Seq<char>, i: int) -> Option<(int, int)> {
    match find_from(s, i + 1, ']') {
        Some(cb) => if cb + 1 < s.len() && s[cb + 1] == '(' {
            match find_from(s, cb + 2, ')') {
                Some(cp) => Some((cb, cp)),
                None => None,
            }
        } else {
            None
        },
        None => None,
    }
}

/// Segments of `s` from position `i` on, with the current emphasis state and
/// the plain text gathered so far. `` `code` `` spans are taken verbatim;
/// `**`/`__` toggle bold, a single `*`/`_` toggles italic; `[text](url)` is a
/// link; an unclosed marker is plain text.
pub open spec fn inline_from(s: Seq<char>, i: int, bold: bool, italic: bool, buf: Seq<char>) -> Seq<SegModel>
    decreases s.len() - i,
{
    if i < 0 || i >= s.len() {
        flush(buf, bold, italic)
    } else {
        let c = s[i];
        if c == '`' && find_from(s, i + 1, '`') is Some {
            let close = find_from(s, i + 1, '`')->0;
            proof {
                lemma_find_from(s, i + 1, '`');
            }
            flush(buf, bold, italic) + seq![
                SegModel {
                    text: s.subrange(i + 1, close),
                    bold: false,
                    italic: false,
                    code: true,
                    link: None,
                },
            ] + inline_from(s, close + 1, bold, italic, Seq::empty())
        } else if (c == '*' || c == '_') && i + 1 < s.len() && s[i + 1] == c {
            flush(buf, bold, italic) + inline_from(s, i + 2, !bold, italic, Seq::empty())
        } else if c == '*' || c == '_' {
            flush(buf, bold, italic) + inline_from(s, i + 1, bold, !italic, Seq::empty())
        } else if c == '[' && link_at(s, i) is Some {
            let (cb, cp) = link_at(s, i)->0;
            proof {
                lemma_find_from(s, i + 1, ']');
                lemma_find_from(s, cb + 2, ')');
            }
            flush(buf, bold, italic) + seq![
                SegModel {
                    text: s.subrange(i + 1, cb),
                    bold,
                    italic,
                    code: false,
                    link: Some(s.subrange(cb + 2, cp)),
                },
            ] + inline_from(s, cp + 1, bold, italic, Seq::empty())
        } else {
            inline_from(s, i + 1, bold, italic, buf.push(c))
        }
    }
}

/// The styled segments of one line of text.
pub open spec fn inline_segs(s: Seq<char>) -> Seq<SegModel> {
    inline_from(s, 0, false, false, Seq::empty())
}

fn push_text(buf: &mut Vec<char>, segs: &mut Vec<Seg>, bold: bool, italic: bool)
    ensures
        segs_view(final(segs)@) == segs_view(old(segs)@) + flush(old(buf)@, bold, italic),
        final(buf)@ == Seq::<char>::empty(),
{
    if buf.len() > 0 {
        let text = string_from_chars(buf.as_slice());
        let seg = Seg { text, bold, italic, code: false, link: None };
        proof {
            assert(segs_view(segs@.push(seg)) =~= segs_view(segs@).push(seg@));
        }
        segs.push(seg);
        *buf = Vec::new();
    } else {
        proof {
            assert(segs_view(segs@) + flush(buf@, bold, italic) =~= segs_view(segs@));
        }
    }
}

/// Emits a finished segment after the pending plain text.
fn emit(buf: &mut Vec<char>, segs: &mut Vec<Seg>, bold: bool, italic: bool, seg: Seg)
    ensures
        segs_view(final(segs)@) == segs_view(old(segs)@) + flush(old(buf)@, bold, italic) + seq![seg@],
        final(buf)@ == Seq::<char>::empty(),
{
    push_text(buf, segs, bold, italic);
    proof {
        assert(segs_view(segs@.push(seg)) =~= segs_view(segs@).push(seg@));
    }
    segs.push(seg);
}

/// One step of the inline scanner at position `i`: consumes a construct or a
/// plain character and returns the next position and emphasis state.
fn inline_step(s: &[char], i: usize, bold: bool, italic: bool, buf: &mut Vec<char>, segs: &mut Vec<Seg>) -> (r: (usize, bool, bool))
    requires
        i < s.len(),
    ensures
        i < r.0 <= s.len(),
        segs_view(final(segs)@) + inline_from(s@, r.0 as int, r.1, r.2, final(buf)@)
            == segs_view(old(segs)@) + inline_from(s@, i as int, bold, italic, old(buf)@),
{
    let c = s[i];
    let ghost before = segs_view(segs@);
    let ghost fl = flush(buf@, bold, italic);
    if c == '`' {
        if let Some(close) = find_char(s, i + 1, '`') {
            proof {
                lemma_find_from(s@, i + 1, '`');
            }
            let code = string_from_chars(slice_chars(s, i + 1, close).as_slice());
            let seg = Seg { text: code, bold: false, italic: false, code: true, link: None };
            emit(buf, segs, bold, italic, seg);
            let ghost rest = inline_from(s@, close + 1, bold, italic, Seq::empty());
            proof {
                assert(segs_view(segs@) + rest =~= before + (fl + seq![seg@] + rest));
            }
            return (close + 1, bold, italic);
        }
    }
    if (c == '*' || c == '_') && i + 1 < s.len() && s[i + 1] == c {
        push_text(buf, segs, bold, italic);
        let ghost rest = inline_from(s@, i + 2, !bold, italic, Seq::empty());
        proof {
            assert(segs_view(segs@) + rest =~= before + (fl + rest));
        }
        return (i + 2, !bold, italic);
    }
    if c == '*' || c == '_' {
        push_text(buf, segs, bold, italic);
        let ghost rest = inline_from(s@, i + 1, bold, !italic, Seq::empty());
        proof {
            assert(segs_view(segs@) + rest =~= before + (fl + rest));
        }
        return (i + 1, bold, !italic);
    }
    if c == '[' {
        if let Some(cb) = find_char(s, i + 1, ']') {
            proof {
                lemma_find_from(s@, i + 1, ']');
            }
            if cb + 1 < s.len() && s[cb + 1] == '(' {
                if let Some(cp) = find_char(s, cb + 2, ')') {
                    proof {
                        lemma_find_from(s@, cb + 2, ')');
                    }
                    let text = string_from_chars(slice_chars(s, i + 1, cb).as_slice());
                    let url = string_from_chars(slice_chars(s, cb + 2, cp).as_slice());
                    let seg = Seg { text, bold, italic, code: false, link: Some(url) };
                    emit(buf, segs, bold, italic, seg);
                    let ghost rest = inline_from(s@, cp + 1, bold, italic, Seq::empty());
                    proof {
                        assert(segs_view(segs@) + rest =~= before + (fl + seq![seg@] + rest));
                    }
                    return (cp + 1, bold, italic);
                }
            }
        }
    }
    buf.push(c);
    (i + 1, bold, italic)
}

/// Split a single line of text into styled segments.
pub fn parse_inline(s: &[char]) -> (r: Vec<Seg>)
    ensures
        segs_view(r@) == inline_segs(s@),
{
    let mut segs: Vec<Seg> = Vec::new();
    let mut buf: Vec<char> = Vec::new();
    let mut bold = false;
    let mut italic = false;
    let mut i: usize = 0;
    proof {
        assert(segs_view(segs@) =~= Seq::<SegModel>::empty());
        assert(segs_view(segs@) + inline_from(s@, 0, false, false, buf@) =~= inline_segs(s@));
    }
    while i < s.len()
        invariant
            i <= s.len(),
            segs_view(segs@) + inline_from(s@, i as int, bold, italic, buf@) == inline_segs(s@),
        decreases s.len() - i,
    {
        let (ni, nb, nit) = inline_step(s, i, bold, italic, &mut buf, &mut segs);
        i = ni;
        bold = nb;
        italic = nit;
    }
    push_text(&mut buf, &mut segs, bold, italic);
    segs
}

// ─── Line-level helpers ─────────────────────────────────────────────────────

/// End of the run of `c` starting at `j`.
pub open spec fn run_of(s: Seq<char>, j: int, c: char) -> int
    decreases s.len() - j,
{
    if 0 <= j < s.len() && s[j] == c {
        run_of(s, j + 1, c)
    } else {
        j
    }
}

pub open spec fn is_ascii_digit(c: char) -> bool {
    '0' <= c && c <= '9'
}

/// End of the run of ASCII digits starting at `j`.
pub open spec fn digits_end(s: Seq<char>, j: int) -> int
    decreases s.len() - j,
{
    if 0 <= j < s.len() && is_ascii_digit(s[j]) {
        digits_end(s, j + 1)
    } else {
        j
    }
}

/// End of the run of spaces and tabs starting at `j`.
pub open spec fn indent_end(s: Seq<char>, j: int) -> int
    decreases s.len() - j,
{
    if 0 <= j < s.len() && (s[j] == ' ' || s[j] == '\t') {
        indent_end(s, j + 1)
    } else {
        j
    }
}

/// `# ` … `###### `: the number of leading `#`s when 1 to 6 are followed by a
/// space.
pub open spec fn heading_level_of(s: Seq<char>) -> Option<int> {
    let h = run_of(s, 0, '#');
    if 1 <= h <= 6 && h < s.len() && s[h] == ' ' {
        Some(h)
    } else {
        None
    }
}

/// `- `, `* ` or `+ `: the rest of the line after the marker.
pub open spec fn strip_bullet_of(s: Seq<char>) -> Option<Seq<char>> {
    if s.len() >= 2 && (s[0] == '-' || s[0] == '*' || s[0] == '+') && s[1] == ' ' {
        Some(s.skip(2))
    } else {
        None
    }
}

/// `12. item`: the number and the rest of the line.
pub open spec fn ordered_item_of(s: Seq<char>) -> Option<(Seq<char>, Seq<char>)> {
    let d = digits_end(s, 0);
    if d > 0 && d + 1 < s.len() && s[d] == '.' && s[d + 1] == ' ' {
        Some((s.take(d), s.skip(d + 2)))
    } else {
        None
    }
}

proof fn lemma_run_bounds(s: Seq<char>, j: int, c: char)
    requires
        0 <= j <= s.len(),
    ensures
        j <= run_of(s, j, c) <= s.len(),
    decreases s.len() - j,
{
    if j < s.len() && s[j] == c {
        lemma_run_bounds(s, j + 1, c);
    }
}

fn run_len(s: &[char], c: char) -> (r: usize)
    ensures
        r == run_of(s@, 0, c),
        r <= s.len(),
{
    let mut j: usize = 0;
    while j < s.len() && s[j] == c
        invariant
            j <= s.len(),
            run_of(s@, j as int, c) == run_of(s@, 0, c),
        decreases s.len() - j,
    {
        j += 1;
    }
    j
}

/// Heading level of a line (1–6), if it is a heading.
pub fn heading_level(s: &[char]) -> (r: Option<usize>)
    ensures
        r matches Some(h) ==> heading_level_of(s@) == Some(h as int),
        r is None ==> heading_level_of(s@) is None,
{
    let hashes = run_len(s, '#');
    if 1 <= hashes && hashes <= 6 && hashes < s.len() && s[hashes] == ' ' {
        Some(hashes)
    } else {
        None
    }
}

/// The rest of a bullet-list line after its marker.
pub fn strip_bullet(s: &[char]) -> (r: Option<Vec<char>>)
    ensures
        r matches Some(v) ==> strip_bullet_of(s@) == Some(v@),
        r is None ==> strip_bullet_of(s@) is None,
{
    if s.len() >= 2 && (s[0] == '-' || s[0] == '*' || s[0] == '+') && s[1] == ' ' {
        Some(slice_chars(s, 2, s.len()))
    } else {
        None
    }
}

/// The number and the rest of an ordered-list line.
pub fn ordered_item(s: &[char]) -> (r: Option<(Vec<char>, Vec<char>)>)
    ensures
        r matches Some(p) ==> ordered_item_of(s@) == Some((p.0@, p.1@)),
        r is None ==> ordered_item_of(s@) is None,
{
    let mut d: usize = 0;
    while d < s.len() && '0' <= s[d] && s[d] <= '9'
        invariant
            d <= s.len(),
            digits_end(s@, d as int) == digits_end(s@, 0),
        decreases s.len() - d,
    {
        d += 1;
    }
    if d == 0 {
        return None;
    }
    if d < s.len() && s.len() - d > 1 && s[d] == '.' && s[d + 1] == ' ' {
        Some((slice_chars(s, 0, d), slice_chars(s, d + 2, s.len())))
    } else {
        None
    }
}

/// Number of leading spaces and tabs.
pub fn leading_spaces(s: &[char]) -> (r: usize)
    ensures
        r == indent_end(s@, 0),
{
    let mut j: usize = 0;
    while j < s.len() && (s[j] == ' ' || s[j] == '\t')
        invariant
            j <= s.len(),
            indent_end(s@, j as int) == indent_end(s@, 0),
        decreases s.len() - j,
    {
        j += 1;
    }
    j
}

// ─── Blocks ─────────────────────────────────────────────────────────────────

/// One laid-out block of the preview.
pub enum Block {
    /// A fenced code block with its lines, shown verbatim.
    Code(Vec<String>),
    /// A blank line (paragraph spacing).
    Blank,
    /// A horizontal rule.
    Rule,
    Heading { level: usize, segs: Vec<Seg> },
    Quote(Vec<Seg>),
    Bullet { indent: usize, segs: Vec<Seg> },
    Ordered { indent: usize, number: String, segs: Vec<Seg> },
    Paragraph(Vec<Seg>),
}

pub enum BlockModel {
    Code(Seq<Seq<char>>),
    Blank,
    Rule,
    Heading { level: int, segs: Seq<SegModel> },
    Quote(Seq<SegModel>),
    Bullet { indent: int, segs: Seq<SegModel> },
    Ordered { indent: int, number: Seq<char>, segs: Seq<SegModel> },
    Paragraph(Seq<SegModel>),
}

pub open spec fn strings_view(v: Seq<String>) -> Seq<Seq<char>> {
    v.map_values(|x: String| x@)
}

impl View for Block {
    type V = BlockModel;

    open spec fn view(&self) -> BlockModel {
        match self {
            Block::Code(lines) => BlockModel::Code(strings_view(lines@)),
            Block::Blank => BlockModel::Blank,
            Block::Rule => BlockModel::Rule,
            Block::Heading { level, segs } => BlockModel::Heading {
                level: *level as int,
                segs: segs_view(segs@),
            },
            Block::Quote(segs) => BlockModel::Quote(segs_view(segs@)),
            Block::Bullet { indent, segs } => BlockModel::Bullet {
                indent: *indent as int,
                segs: segs_view(segs@),
            },
            Block::Ordered { indent, number, segs } => BlockModel::Ordered {
                indent: *indent as int,
                number: number@,
                segs: segs_view(segs@),
            },
            Block::Paragraph(segs) => BlockModel::Paragraph(segs_view(segs@)),
        }
    }
}

pub open spec fn blocks_view(v: Seq<Block>) -> Seq<BlockModel> {
    v.map_values(|b: Block| b@)
}

/// A line (after its indentation) that opens or closes a fenced code block.
pub open spec fn is_fence(t: Seq<char>) -> bool {
    t.len() >= 3 && t[0] == '`' && t[1] == '`' && t[2] == '`'
}

/// `---`, `***` or `___`.
pub open spec fn is_rule(t: Seq<char>) -> bool {
    t.len() == 3 && t[0] == t[1] && t[1] == t[2] && (t[0] == '-' || t[0] == '*' || t[0] == '_')
}

/// The block shown for a single line outside any code fence.
pub open spec fn line_block_of(line: Seq<char>) -> BlockModel {
    let t = trim_start_spec(line);
    if t.len() == 0 {
        BlockModel::Blank
    } else if is_rule(t) {
        BlockModel::Rule
    } else if heading_level_of(t) is Some {
        let level = heading_level_of(t)->0;
        BlockModel::Heading { level, segs: inline_segs(trim_start_spec(t.skip(level))) }
    } else if t[0] == '>' {
        let rest = t.skip(1);
        let q = if rest.len() > 0 && rest[0] == ' ' {
            rest.skip(1)
        } else {
            rest
        };
        BlockModel::Quote(inline_segs(q))
    } else if strip_bullet_of(t) is Some {
        BlockModel::Bullet { indent: indent_end(line, 0), segs: inline_segs(strip_bullet_of(t)->0) }
    } else if ordered_item_of(t) is Some {
        let (num, rest) = ordered_item_of(t)->0;
        BlockModel::Ordered { indent: indent_end(line, 0), number: num, segs: inline_segs(rest) }
    } else {
        BlockModel::Paragraph(inline_segs(line))
    }
}

/// The lines of `s` from position `start` on, split at each `\n`.
pub open spec fn lines_from(s: Seq<char>, start: int) -> Seq<Seq<char>>
    decreases s.len() - start,
{
    if start < 0 || start > s.len() {
        Seq::empty()
    } else {
        match find_from(s, start, '\n') {
            Some(k) => {
                proof {
                    lemma_find_from(s, start, '\n');
                }
                seq![s.subrange(start, k)] + lines_from(s, k + 1)
            },
            None => seq![s.subrange(start, s.len() as int)],
        }
    }
}

/// `text.split('\n')`: always at least one (possibly empty) line.
pub open spec fn split_lines(s: Seq<char>) -> Seq<Seq<char>> {
    lines_from(s, 0)
}

/// Index of the line that closes a code fence opened before `j`, or `len`.
pub open spec fn fence_end(lines: Seq<Seq<char>>, j: int) -> int
    decreases lines.len() - j,
{
    if j < 0 || j >= lines.len() {
        lines.len() as int
    } else if is_fence(trim_start_spec(lines[j])) {
        j
    } else {
        fence_end(lines, j + 1)
    }
}

pub proof fn lemma_fence_end(lines: Seq<Seq<char>>, j: int)
    requires
        0 <= j <= lines.len(),
    ensures
        j <= fence_end(lines, j) <= lines.len(),
    decreases lines.len() - j,
{
    if j < lines.len() && !is_fence(trim_start_spec(lines[j])) {
        lemma_fence_end(lines, j + 1);
    }
}

/// The blocks of the lines from index `i` on. A fence line opens a code block
/// that runs to the next fence line (consumed) or to the end of the text.
pub open spec fn blocks_from(lines: Seq<Seq<char>>, i: int) -> Seq<BlockModel>
    decreases lines.len() - i,
{
    if i < 0 || i >= lines.len() {
        Seq::empty()
    } else if is_fence(trim_start_spec(lines[i])) {
        let j = fence_end(lines, i + 1);
        proof {
            lemma_fence_end(lines, i + 1);
        }
        seq![BlockModel::Code(lines.subrange(i + 1, j))] + blocks_from(
            lines,
            if j < lines.len() {
                j + 1
            } else {
                j
            },
        )
    } else {
        seq![line_block_of(lines[i])] + blocks_from(lines, i + 1)
    }
}

/// The blocks of a whole text.
pub open spec fn markdown_blocks(s: Seq<char>) -> Seq<BlockModel> {
    blocks_from(split_lines(s), 0)
}

/// The block shown for one line outside a code fence.
pub fn line_block(line: &[char]) -> (r: Block)
    ensures
        r@ == line_block_of(line@),
{
    let t = trim_start_chars(line);
    let ts = t.as_slice();
    if ts.len() == 0 {
        return Block::Blank;
    }
    if ts.len() == 3 && ts[0] == ts[1] && ts[1] == ts[2] && (ts[0] == '-' || ts[0] == '*' || ts[0] == '_') {
        return Block::Rule;
    }
    if let Some(level) = heading_level(ts) {
        let content = trim_start_chars(slice_chars(ts, level, ts.len()).as_slice());
        let segs = parse_inline(content.as_slice());
        return Block::Heading { level, segs };
    }
    if ts[0] == '>' {
        let q = if ts.len() > 1 && ts[1] == ' ' {
            slice_chars(ts, 2, ts.len())
        } else {
            slice_chars(ts, 1, ts.len())
        };
        proof {
            let rest = ts@.skip(1);
            if rest.len() > 0 && rest[0] == ' ' {
                assert(rest.skip(1) =~= ts@.subrange(2, ts.len() as int));
            } else {
                assert(rest =~= ts@.subrange(1, ts.len() as int));
            }
        }
        return Block::Quote(parse_inline(q.as_slice()));
    }
    if let Some(rest) = strip_bullet(ts) {
        let indent = leading_spaces(line);
        return Block::Bullet { indent, segs: parse_inline(rest.as_slice()) };
    }
    if let Some((num, rest)) = ordered_item(ts) {
        let indent = leading_spaces(line);
        return Block::Ordered {
            indent,
            number: string_from_chars(num.as_slice()),
            segs: parse_inline(rest.as_slice()),
        };
    }
    Block::Paragraph(parse_inline(line))
}

pub open spec fn lines_view(v: Seq<Vec<char>>) -> Seq<Seq<char>> {
    v.map_values(|l: Vec<char>| l@)
}

/// Split text at each `\n` (`str::split('\n')`).
pub fn split_lines_exec(s: &[char]) -> (r: Vec<Vec<char>>)
    ensures
        lines_view(r@) == split_lines(s@),
{
    let mut lines: Vec<Vec<char>> = Vec::new();
    let mut start: usize = 0;
    loop
        invariant
            start <= s.len(),
            lines_view(lines@) + lines_from(s@, start as int) == split_lines(s@),
        decreases s.len() - start,
    {
        match find_char(s, start, '\n') {
            Some(k) => {
                proof {
                    lemma_find_from(s@, start as int, '\n');
                }
                let line = slice_chars(s, start, k);
                let ghost rest = lines_from(s@, k + 1);
                proof {
                    assert(lines_view(lines@.push(line)) =~= lines_view(lines@).push(line@));
                    assert(lines_view(lines@.push(line)) + rest =~= lines_view(lines@) + (seq![line@] + rest));
                }
                lines.push(line);
                start = k + 1;
            },
            None => {
                let line = slice_chars(s, start, s.len());
                proof {
                    assert(lines_view(lines@.push(line)) =~= lines_view(lines@).push(line@));
                }
                lines.push(line);
                return lines;
            },
        }
    }
}

fn is_fence_line(line: &[char]) -> (r: bool)
    ensures
        r == is_fence(trim_start_spec(line@)),
{
    let t = trim_start_chars(line);
    t.len() >= 3 && t[0] == '`' && t[1] == '`' && t[2] == '`'
}

/// Parse `text` as Markdown into blocks for the preview.
pub fn parse_blocks(text: &[char]) -> (r: Vec<Block>)
    ensures
        blocks_view(r@) == markdown_blocks(text@),
{
    let lines = split_lines_exec(text);
    let ghost ls = lines_view(lines@);
    let mut blocks: Vec<Block> = Vec::new();
    let mut i: usize = 0;
    proof {
        assert(blocks_view(blocks@) + blocks_from(ls, 0) =~= markdown_blocks(text@));
    }
    while i < lines.len()
        invariant
            i <= lines.len(),
            ls == lines_view(lines@),
            ls.len() == lines.len(),
            blocks_view(blocks@) + blocks_from(ls, i as int) == markdown_blocks(text@),
        decreases lines.len() - i,
    {
        let ghost before = blocks_view(blocks@);
        if is_fence_line(lines[i].as_slice()) {
            let mut code: Vec<String> = Vec::new();
            let mut j = i + 1;
            while j < lines.len() && !is_fence_line(lines[j].as_slice())
                invariant
                    i < j <= lines.len(),
                    ls == lines_view(lines@),
                    ls.len() == lines.len(),
                    fence_end(ls, j as int) == fence_end(ls, i + 1),
                    strings_view(code@) == ls.subrange(i + 1, j as int),
                decreases lines.len() - j,
            {
                let l = string_from_chars(lines[j].as_slice());
                proof {
                    assert(strings_view(code@.push(l)) =~= strings_view(code@).push(l@));
                    assert(ls.subrange(i + 1, j + 1) =~= ls.subrange(i + 1, j as int).push(ls[j as int]));
                }
                code.push(l);
                j += 1;
            }
            let next = if j < lines.len() {
                j + 1
            } else {
                j
            };
            let b = Block::Code(code);
            proof {
                assert(blocks_view(blocks@.push(b)) =~= blocks_view(blocks@).push(b@));
                assert(blocks_view(blocks@.push(b)) + blocks_from(ls, next as int) =~= before + (seq![b@]
                    + blocks_from(ls, next as int)));
            }
            blocks.push(b);
            i = next;
        } else {
            let b = line_block(lines[i].as_slice());
            proof {
                assert(blocks_view(blocks@.push(b)) =~= blocks_view(blocks@).push(b@));
                assert(blocks_view(blocks@.push(b)) + blocks_from(ls, i + 1) =~= before + (seq![b@]
                    + blocks_from(ls, i + 1)));
            }
            blocks.push(b);
            i += 1;
        }
    }
    proof {
        assert(blocks_view(blocks@) + blocks_from(ls, i as int) =~= blocks_view(blocks@));
    }
    blocks
}

// ─── Laws ─────────────────────────────────────────────────────────────────────

/// A character with no inline meaning: not an emphasis marker, a backtick or
/// an opening bracket.
pub open spec fn is_plain_char(c: char) -> bool {
    c != '*' && c != '_' && c != '`' && c != '['
}

/// Plain characters only gather into the pending text.
proof fn lemma_plain_run(s: Seq<char>, i: int, j: int, bold: bool, italic: bool, buf: Seq<char>)
    requires
        0 <= i <= j <= s.len(),
        forall|k: int| i <= k < j ==> is_plain_char(#[trigger] s[k]),
    ensures
        inline_from(s, i, bold, italic, buf) == inline_from(s, j, bold, italic, buf + s.subrange(i, j)),
    decreases j - i,
{
    if i < j {
        assert(is_plain_char(s[i]));
        lemma_plain_run(s, i + 1, j, bold, italic, buf.push(s[i]));
        assert(buf.push(s[i]) + s.subrange(i + 1, j) =~= buf + s.subrange(i, j));
    } else {
        assert(buf + s.subrange(i, j) =~= buf);
    }
}

/// A word of plain characters between two emphasis markers `m` (`*` or
/// `_`, the same for both) is one segment of that word: bold between doubled
/// markers, italic between single ones, and plain without markers.
pub proof fn law_emphasis_markers(x: Seq<char>, m: char)
    requires
        x.len() > 0,
        forall|k: int| 0 <= k < x.len() ==> is_plain_char(#[trigger] x[k]),
        m == '*' || m == '_',
    ensures
        inline_segs(seq![m, m] + x + seq![m, m]) == seq![
            SegModel { text: x, bold: true, italic: false, code: false, link: None },
        ],
        inline_segs(seq![m] + x + seq![m]) == seq![
            SegModel { text: x, bold: false, italic: true, code: false, link: None },
        ],
        inline_segs(x) == seq![SegModel { text: x, bold: false, italic: false, code: false, link: None }],
{
    let n = x.len() as int;
    let e: Seq<char> = Seq::empty();
    // Doubled markers.
    let s2 = seq![m, m] + x + seq![m, m];
    assert(s2[0] == m && s2[1] == m);
    assert(s2.subrange(2, n + 2) =~= x);
    assert forall|k: int| 2 <= k < n + 2 implies is_plain_char(#[trigger] s2[k]) by {
        assert(s2[k] == x[k - 2]);
    }
    lemma_plain_run(s2, 2, n + 2, true, false, e);
    assert(e + x =~= x);
    assert(s2[n + 2] == m && s2[n + 3] == m);
    assert(inline_from(s2, n + 4, false, false, e) == flush(e, false, false));
    assert(flush(e, false, false) =~= Seq::<SegModel>::empty());
    assert(inline_from(s2, 2, true, false, e) == inline_from(s2, n + 2, true, false, x));
    assert(inline_from(s2, n + 2, true, false, x) =~= flush(x, true, false) + inline_from(s2, n + 4, false, false, e));
    assert(inline_from(s2, 0, false, false, e) =~= flush(e, false, false) + inline_from(s2, 2, true, false, e));
    // Single markers.
    let s1 = seq![m] + x + seq![m];
    assert(s1[0] == m && s1[1] != m) by {
        assert(s1[1] == x[0]);
    }
    assert(s1.subrange(1, n + 1) =~= x);
    assert forall|k: int| 1 <= k < n + 1 implies is_plain_char(#[trigger] s1[k]) by {
        assert(s1[k] == x[k - 1]);
    }
    lemma_plain_run(s1, 1, n + 1, false, true, e);
    assert(s1[n + 1] == m);
    assert(inline_from(s1, n + 2, false, false, e) == flush(e, false, false));
    assert(inline_from(s1, n + 1, false, true, x) =~= flush(x, false, true) + inline_from(s1, n + 2, false, false, e));
    assert(inline_from(s1, 0, false, false, e) =~= flush(e, false, false) + inline_from(s1, 1, false, true, e));
    // No markers.
    lemma_plain_run(x, 0, n, false, false, e);
    assert(x.subrange(0, n) =~= x);
}

} // verus!
