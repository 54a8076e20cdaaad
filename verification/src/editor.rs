//! Text-editing helpers behind the editor pane: character/byte positions,
//! the status-bar figures, and the edits that cut, paste, delete and open
//! lines.

use vstd::prelude::*;
use vstd::utf8::*;
use crate::text::{char_is_whitespace, chars_of, is_whitespace, slice_chars, string_from_chars, string_push};
use crate::vim::{col, line_start_of, clamp_index};

verus! {

broadcast use group_utf8_lib;

/// UTF-8 encoding distributes over concatenation.
pub proof fn lemma_encode_utf8_concat(a: Seq<char>, b: Seq<char>)
    ensures
        encode_utf8(a + b) == encode_utf8(a) + encode_utf8(b),
    decreases a.len(),
{
    if a.len() == 0 {
        assert(a + b =~= b);
        assert(encode_utf8(a) + encode_utf8(b) =~= encode_utf8(b));
    } else {
        assert((a + b).drop_first() =~= a.drop_first() + b);
        lemma_encode_utf8_concat(a.drop_first(), b);
        assert(encode_utf8(a + b) =~= encode_utf8(a) + encode_utf8(b));
    }
}

proof fn lemma_encode_single(c: char)
    ensures
        encode_utf8(seq![c]) == encode_scalar(c as u32),
{
    assert(seq![c].drop_first() =~= Seq::<char>::empty());
    assert(encode_utf8(seq![c]) =~= encode_scalar(c as u32) + encode_utf8(Seq::<char>::empty()));
    assert(encode_scalar(c as u32) + Seq::<u8>::empty() =~= encode_scalar(c as u32));
}

/// Number of bytes in the UTF-8 encoding of a character.
pub open spec fn utf8_width(c: char) -> int {
    encode_scalar(c as u32).len() as int
}

fn char_width(c: char) -> (r: usize)
    ensures
        r == utf8_width(c),
        1 <= r <= 4,
{
    let v = c as u32;
    proof {
        char_is_scalar(c);
    }
    if v <= 0x7F {
        1
    } else if v <= 0x7FF {
        2
    } else if v <= 0xFFFF {
        3
    } else {
        4
    }
}

/// Byte offset of character index `i` in `s` (the length of `s` for an
/// index past its end).
pub open spec fn char_to_byte_of(s: Seq<char>, i: int) -> int {
    encode_utf8(s.take(clamp_index(s, i))).len() as int
}

/// Convert a character index into a byte offset within `s`.
pub fn char_to_byte(s: &str, char_idx: usize) -> (r: usize)
    ensures
        r == char_to_byte_of(s@, char_idx as int),
{
    let total = s.as_bytes().len();
    let cs = chars_of(s);
    let n = if char_idx < cs.len() {
        char_idx
    } else {
        cs.len()
    };
    let mut b: usize = 0;
    let mut i: usize = 0;
    while i < n
        invariant
            i <= n <= cs.len(),
            cs@ == s@,
            total == encode_utf8(s@).len(),
            b == encode_utf8(s@.take(i as int)).len(),
        decreases n - i,
    {
        proof {
            assert(s@.take(i + 1) =~= s@.take(i as int) + seq![s@[i as int]]);
            lemma_encode_utf8_concat(s@.take(i as int), seq![s@[i as int]]);
            assert(s@ =~= s@.take(i + 1) + s@.skip(i + 1));
            lemma_encode_utf8_concat(s@.take(i + 1), s@.skip(i + 1));
            lemma_encode_single(s@[i as int]);
        }
        b = b + char_width(cs[i]);
        i += 1;
    }
    b
}

/// Number of newlines in `s`.
pub open spec fn count_newlines(s: Seq<char>) -> nat
    decreases s.len(),
{
    if s.len() == 0 {
        0
    } else {
        count_newlines(s.drop_last()) + if s.last() == '\n' {
            1nat
        } else {
            0nat
        }
    }
}

fn newlines_in(cs: &[char], n: usize) -> (r: usize)
    requires
        n <= cs.len(),
    ensures
        r == count_newlines(cs@.take(n as int)),
        r <= n,
{
    let mut count: usize = 0;
    let mut i: usize = 0;
    while i < n
        invariant
            i <= n <= cs.len(),
            count == count_newlines(cs@.take(i as int)),
            count <= i,
        decreases n - i,
    {
        proof {
            assert(cs@.take(i + 1).drop_last() =~= cs@.take(i as int));
        }
        if cs[i] == '\n' {
            count += 1;
        }
        i += 1;
    }
    count
}

/// Line and column (both 0-based) of the cursor at character index `i`: the
/// newlines before it, and its distance from the start of its line.
pub fn cursor_line_col(text: &str, char_idx: usize) -> (r: (usize, usize))
    ensures
        r.0 == count_newlines(text@.take(clamp_index(text@, char_idx as int))),
        r.1 == clamp_index(text@, char_idx as int) - line_start_of(text@, char_idx as int),
{
    let cs = chars_of(text);
    let i = if char_idx < cs.len() {
        char_idx
    } else {
        cs.len()
    };
    let line = newlines_in(cs.as_slice(), i);
    let c = col(cs.as_slice(), i);
    (line, c)
}

/// Number of lines: one more than the number of newlines.
pub fn line_count(text: &str) -> (r: usize)
    requires
        text@.len() < usize::MAX,
    ensures
        r == count_newlines(text@) + 1,
{
    let cs = chars_of(text);
    proof {
        assert(cs@.take(cs.len() as int) =~= cs@);
    }
    let n = newlines_in(cs.as_slice(), cs.len());
    n + 1
}

/// Number of maximal runs of non-whitespace characters in `s`.
pub open spec fn count_words(s: Seq<char>) -> nat
    decreases s.len(),
{
    if s.len() == 0 {
        0
    } else {
        let k = s.len() - 1;
        count_words(s.drop_last()) + if !char_is_whitespace(s[k]) && (k == 0 || char_is_whitespace(
            s[k - 1],
        )) {
            1nat
        } else {
            0nat
        }
    }
}

/// Number of whitespace-separated words (`str::split_whitespace().count()`).
pub fn word_count(text: &str) -> (r: usize)
    ensures
        r == count_words(text@),
{
    let cs = chars_of(text);
    let mut count: usize = 0;
    let mut prev_ws = true;
    let mut i: usize = 0;
    while i < cs.len()
        invariant
            i <= cs.len(),
            cs@ == text@,
            count == count_words(cs@.take(i as int)),
            count <= i,
            prev_ws == (i == 0 || char_is_whitespace(cs@[i - 1])),
        decreases cs.len() - i,
    {
        proof {
            assert(cs@.take(i + 1).drop_last() =~= cs@.take(i as int));
        }
        let ws = is_whitespace(cs[i]);
        if !ws && prev_ws {
            count += 1;
        }
        prev_ws = ws;
        i += 1;
    }
    proof {
        assert(cs@.take(cs.len() as int) =~= cs@);
    }
    count
}

/// The characters between indices `a` and `b`, both clamped to the text.
pub fn chars_between(text: &str, a: usize, b: usize) -> (r: String)
    requires
        a <= b,
    ensures
        r@ == text@.subrange(clamp_index(text@, a as int), clamp_index(text@, b as int)),
{
    let cs = chars_of(text);
    let n = cs.len();
    let x = if a < n {
        a
    } else {
        n
    };
    let y = if b < n {
        b
    } else {
        n
    };
    string_from_chars(slice_chars(cs.as_slice(), x, y).as_slice())
}

/// The text with the characters between `a` and `b` (both clamped) replaced
/// by `ins`.
pub fn splice(text: &str, a: usize, b: usize, ins: &str) -> (r: String)
    requires
        a <= b,
    ensures
        r@ == text@.take(clamp_index(text@, a as int)) + ins@ + text@.skip(clamp_index(text@, b as int)),
{
    let cs = chars_of(text);
    let n = cs.len();
    let x = if a < n {
        a
    } else {
        n
    };
    let y = if b < n {
        b
    } else {
        n
    };
    let mut out = string_from_chars(slice_chars(cs.as_slice(), 0, x).as_slice());
    let ic = chars_of(ins);
    let mut k: usize = 0;
    while k < ic.len()
        invariant
            k <= ic.len(),
            ic@ == ins@,
            out@ == text@.take(x as int) + ins@.take(k as int),
        decreases ic.len() - k,
    {
        string_push(&mut out, ic[k]);
        proof {
            assert(ins@.take(k + 1) =~= ins@.take(k as int).push(ins@[k as int]));
        }
        k += 1;
    }
    let mut j = y;
    while j < n
        invariant
            y <= j <= n == cs.len(),
            cs@ == text@,
            out@ == text@.take(x as int) + ins@ + text@.subrange(y as int, j as int),
        decreases n - j,
    {
        string_push(&mut out, cs[j]);
        proof {
            assert(text@.subrange(y as int, j + 1) =~= text@.subrange(y as int, j as int).push(text@[j as int]));
        }
        j += 1;
    }
    proof {
        assert(ins@.take(ic.len() as int) =~= ins@);
        assert(text@.subrange(y as int, n as int) =~= text@.skip(y as int));
    }
    out
}

/// Tab names longer than this are shortened in the tab bar.
pub const TAB_NAME_MAX: usize = 11;

/// A tab name as shown in the tab bar: names longer than 11 characters are
/// cut to 10 followed by an ellipsis.
pub fn display_tab_name(name: &str) -> (r: String)
    ensures
        name@.len() > TAB_NAME_MAX ==> r@ == name@.take(TAB_NAME_MAX - 1).push('…'),
        name@.len() <= TAB_NAME_MAX ==> r@ == name@,
{
    let cs = chars_of(name);
    if cs.len() > TAB_NAME_MAX {
        let mut r = string_from_chars(slice_chars(cs.as_slice(), 0, TAB_NAME_MAX - 1).as_slice());
        string_push(&mut r, '…');
        r
    } else {
        string_from_chars(cs.as_slice())
    }
}

/// The gutter label of line `logical` when the cursor is on line `cur`:
/// relative numbering shows the distance from the cursor line and the
/// cursor line's own number; otherwise every line shows its number.
pub fn line_number_label(logical: usize, cur: usize, relative: bool) -> (r: usize)
    requires
        logical < usize::MAX,
    ensures
        !relative || logical == cur ==> r == logical + 1,
        relative && logical > cur ==> r == logical - cur,
        relative && logical < cur ==> r == cur - logical,
{
    if relative && logical != cur {
        if logical > cur {
            logical - cur
        } else {
            cur - logical
        }
    } else {
        logical + 1
    }
}

/// Number of characters of `s` that lie wholly within its first `b` bytes.
pub open spec fn chars_before(s: Seq<char>, b: int) -> int
    decreases s.len(),
{
    if s.len() == 0 || b < utf8_width(s[0]) {
        0
    } else {
        1 + chars_before(s.skip(1), b - utf8_width(s[0]))
    }
}

proof fn lemma_chars_before_step(s: Seq<char>, k: int, b: int, acc: int)
    requires
        0 <= k < s.len(),
    ensures
        chars_before(s.skip(k), b - acc) == (if b - acc < utf8_width(s[k]) {
            0
        } else {
            1 + chars_before(s.skip(k + 1), b - acc - utf8_width(s[k]))
        }),
{
    assert(s.skip(k)[0] == s[k]);
    assert(s.skip(k).skip(1) =~= s.skip(k + 1));
}

/// The character index at byte offset `b` of `s`: how many characters end
/// within the first `b` bytes.
pub fn byte_to_char(s: &str, b: usize) -> (r: usize)
    ensures
        r == chars_before(s@, b as int),
        r <= s@.len(),
{
    let cs = chars_of(s);
    let mut k: usize = 0;
    let mut acc: usize = 0;
    proof {
        assert(cs@.skip(0) =~= cs@);
    }
    while k < cs.len()
        invariant
            k <= cs.len(),
            cs@ == s@,
            acc <= b,
            chars_before(s@, b as int) == k + chars_before(s@.skip(k as int), b - acc),
        decreases cs.len() - k,
    {
        let w = char_width(cs[k]);
        proof {
            lemma_chars_before_step(s@, k as int, b as int, acc as int);
        }
        if b - acc < w {
            return k;
        }
        acc = acc + w;
        k += 1;
    }
    proof {
        assert(s@.skip(k as int).len() == 0);
    }
    k
}

// ─── Laws ─────────────────────────────────────────────────────────────────────

/// Appending after a text that ends in whitespace (or is empty) adds the
/// words of the appended text.
proof fn lemma_count_words_after_space(t: Seq<char>, b: Seq<char>)
    requires
        t.len() == 0 || char_is_whitespace(t.last()),
    ensures
        count_words(t + b) == count_words(t) + count_words(b),
    decreases b.len(),
{
    if b.len() == 0 {
        assert(t + b =~= t);
    } else {
        lemma_count_words_after_space(t, b.drop_last());
        assert((t + b).drop_last() =~= t + b.drop_last());
        let k = t.len() + b.len() - 1;
        assert((t + b)[k] == b[b.len() - 1]);
        if b.len() >= 2 {
            assert((t + b)[k - 1] == b[b.len() - 2]);
        } else if t.len() > 0 {
            assert((t + b)[k - 1] == t.last());
        }
    }
}

/// A non-empty text without whitespace is one word.
proof fn lemma_one_word(x: Seq<char>)
    requires
        x.len() > 0,
        forall|k: int| 0 <= k < x.len() ==> !char_is_whitespace(#[trigger] x[k]),
    ensures
        count_words(x) == 1,
    decreases x.len(),
{
    if x.len() > 1 {
        let d = x.drop_last();
        assert forall|k: int| 0 <= k < d.len() implies !char_is_whitespace(#[trigger] d[k]) by {
            assert(d[k] == x[k]);
        }
        lemma_one_word(d);
        assert(!char_is_whitespace(x[x.len() - 2]));
        assert(!char_is_whitespace(x[x.len() - 1]));
    } else {
        assert(x.drop_last().len() == 0);
        assert(count_words(x.drop_last()) == 0);
        assert(!char_is_whitespace(x[0]));
    }
}

/// Every whitespace character separates words, as `str::split_whitespace`
/// does: a text split at any whitespace character (a line break, a tab, a
/// space, or one of Unicode's spaces) has the words of its two parts; a
/// non-empty text without whitespace is one word.
pub proof fn law_whitespace_separates_words(a: Seq<char>, w: char, b: Seq<char>)
    requires
        char_is_whitespace(w),
    ensures
        count_words(a + seq![w] + b) == count_words(a) + count_words(b),
        forall|x: Seq<char>|
            x.len() > 0 && (forall|k: int| 0 <= k < x.len() ==> !char_is_whitespace(#[trigger] x[k]))
                ==> #[trigger] count_words(x) == 1,
        char_is_whitespace('\n') && char_is_whitespace(' ') && char_is_whitespace('\t'),
{
    let t = a + seq![w];
    assert(t.drop_last() =~= a);
    assert(count_words(t) == count_words(a));
    lemma_count_words_after_space(t, b);
    assert forall|x: Seq<char>|
        x.len() > 0 && (forall|k: int| 0 <= k < x.len() ==> !char_is_whitespace(#[trigger] x[k]))
            implies #[trigger] count_words(x) == 1 by {
        lemma_one_word(x);
    }
}

} // verus!
