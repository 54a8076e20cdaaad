//! Character-level text helpers shared by the editor, the Markdown parser and
//! the note store.

use vstd::prelude::*;
use vstd::utf8::{decode_utf8, valid_utf8};

verus! {

/// The characters of a string slice, in order.
pub fn chars_of(s: &str) -> (r: Vec<char>)
    ensures
        r@ == s@,
{
    let mut r: Vec<char> = Vec::new();
    for c in it: s.chars()
        invariant
            r@ == it.seq().take(it.index() as int),
            it.seq() == s@,
    {
        r.push(c);
    }
    r
}

/// Calls `String::push`: appends one character.
#[verifier::external_body]
pub(crate) fn string_push(s: &mut String, c: char)
    ensures
        final(s)@ == old(s)@.push(c),
{
    s.push(c);
}

/// A `String` holding exactly the given characters.
pub fn string_from_chars(v: &[char]) -> (r: String)
    ensures
        r@ == v@,
{
    let mut r = String::new();
    let mut i: usize = 0;
    while i < v.len()
        invariant
            i <= v.len(),
            r@ == v@.take(i as int),
        decreases v.len() - i,
    {
        string_push(&mut r, v[i]);
        proof {
            assert(v@.take(i + 1) == v@.take(i as int).push(v@[i as int]));
        }
        i += 1;
    }
    proof {
        assert(v@.take(v.len() as int) == v@);
    }
    r
}

/// The members of the Unicode White_Space property outside ASCII: next line,
/// no-break space, ogham space mark, the spaces from en quad to hair space,
/// line and paragraph separators, narrow no-break space, medium mathematical
/// space and ideographic space.
pub open spec fn non_ascii_whitespace(c: char) -> bool {
    let v = c as u32;
    ||| v == 0x85
    ||| v == 0xA0
    ||| v == 0x1680
    ||| (0x2000 <= v && v <= 0x200A)
    ||| v == 0x2028
    ||| v == 0x2029
    ||| v == 0x202F
    ||| v == 0x205F
    ||| v == 0x3000
}

/// The ASCII members of White_Space: tab, line feed, vertical tab, form feed,
/// carriage return and space.
pub open spec fn ascii_whitespace(c: char) -> bool {
    c == ' ' || ('\t' <= c && c <= '\r')
}

/// `char::is_whitespace`: the Unicode White_Space property.
pub open spec fn char_is_whitespace(c: char) -> bool {
    if (c as u32) < 128 {
        ascii_whitespace(c)
    } else {
        non_ascii_whitespace(c)
    }
}

/// Whether a character is whitespace in the sense of `char::is_whitespace`
/// (the Unicode White_Space property): tab through carriage return and
/// space in ASCII, and the 19 code points of `non_ascii_whitespace` beyond it.
pub(crate) fn is_whitespace(c: char) -> (r: bool)
    ensures
        r == char_is_whitespace(c),
{
    let v = c as u32;
    v == 32 || (9 <= v && v <= 13) || v == 0x85 || v == 0xA0 || v == 0x1680 || (0x2000 <= v && v
        <= 0x200A) || v == 0x2028 || v == 0x2029 || v == 0x202F || v == 0x205F || v == 0x3000
}

/// Number of leading whitespace characters of `s` from position `j` on.
pub open spec fn leading_ws_end(s: Seq<char>, j: int) -> int
    decreases s.len() - j,
{
    if 0 <= j < s.len() && char_is_whitespace(s[j]) {
        leading_ws_end(s, j + 1)
    } else {
        j
    }
}

/// Position just after the last non-whitespace character at or before `j`.
pub open spec fn trailing_ws_start(s: Seq<char>, j: int) -> int
    decreases j,
{
    if j > 0 && char_is_whitespace(s[j - 1]) {
        trailing_ws_start(s, j - 1)
    } else {
        j
    }
}

/// `s` with leading whitespace removed (`str::trim_start`).
pub open spec fn trim_start_spec(s: Seq<char>) -> Seq<char> {
    s.subrange(leading_ws_end(s, 0), s.len() as int)
}

/// `s` with leading and trailing whitespace removed (`str::trim`).
pub open spec fn trim_spec(s: Seq<char>) -> Seq<char> {
    let a = leading_ws_end(s, 0);
    let b = trailing_ws_start(s, s.len() as int);
    if a < b {
        s.subrange(a, b)
    } else {
        Seq::empty()
    }
}

proof fn lemma_leading_ws_end_bounds(s: Seq<char>, j: int)
    requires
        0 <= j <= s.len(),
    ensures
        j <= leading_ws_end(s, j) <= s.len(),
    decreases s.len() - j,
{
    if j < s.len() && char_is_whitespace(s[j]) {
        lemma_leading_ws_end_bounds(s, j + 1);
    }
}

proof fn lemma_trailing_ws_start_bounds(s: Seq<char>, j: int)
    requires
        0 <= j <= s.len(),
    ensures
        0 <= trailing_ws_start(s, j) <= j,
    decreases j,
{
    if j > 0 && char_is_whitespace(s[j - 1]) {
        lemma_trailing_ws_start_bounds(s, j - 1);
    }
}

/// Index of the first non-whitespace character of `s` (or its length).
pub fn leading_ws_len(s: &[char]) -> (r: usize)
    ensures
        r == leading_ws_end(s@, 0),
        r <= s.len(),
{
    let mut j: usize = 0;
    while j < s.len() && is_whitespace(s[j])
        invariant
            j <= s.len(),
            leading_ws_end(s@, j as int) == leading_ws_end(s@, 0),
        decreases s.len() - j,
    {
        j += 1;
    }
    j
}

/// `s` without its leading whitespace.
pub fn trim_start_chars(s: &[char]) -> (r: Vec<char>)
    ensures
        r@ == trim_start_spec(s@),
{
    let a = leading_ws_len(s);
    let mut r: Vec<char> = Vec::new();
    let mut i = a;
    while i < s.len()
        invariant
            a <= i <= s.len(),
            r@ == s@.subrange(a as int, i as int),
        decreases s.len() - i,
    {
        r.push(s[i]);
        proof {
            assert(s@.subrange(a as int, i + 1) == s@.subrange(a as int, i as int).push(s@[i as int]));
        }
        i += 1;
    }
    r
}

/// `s` without leading and trailing whitespace.
pub fn trim_chars(s: &[char]) -> (r: Vec<char>)
    ensures
        r@ == trim_spec(s@),
{
    let a = leading_ws_len(s);
    let mut b = s.len();
    while b > 0 && is_whitespace(s[b - 1])
        invariant
            b <= s.len(),
            trailing_ws_start(s@, b as int) == trailing_ws_start(s@, s.len() as int),
        decreases b,
    {
        b -= 1;
    }
    let mut r: Vec<char> = Vec::new();
    if a < b {
        let mut i = a;
        while i < b
            invariant
                a <= i <= b <= s.len(),
                r@ == s@.subrange(a as int, i as int),
            decreases b - i,
        {
            r.push(s[i]);
            proof {
                assert(s@.subrange(a as int, i + 1) == s@.subrange(a as int, i as int).push(s@[i as int]));
            }
            i += 1;
        }
    }
    r
}

/// The characters `s[a..b]` as a new vector.
pub fn slice_chars(s: &[char], a: usize, b: usize) -> (r: Vec<char>)
    requires
        a <= b <= s.len(),
    ensures
        r@ == s@.subrange(a as int, b as int),
{
    let mut r: Vec<char> = Vec::new();
    let mut i = a;
    while i < b
        invariant
            a <= i <= b <= s.len(),
            r@ == s@.subrange(a as int, i as int),
        decreases b - i,
    {
        r.push(s[i]);
        proof {
            assert(s@.subrange(a as int, i + 1) == s@.subrange(a as int, i as int).push(s@[i as int]));
        }
        i += 1;
    }
    r
}

/// The first position at or after `j` holding `c`.
pub open spec fn find_from(s: Seq<char>, j: int, c: char) -> Option<int>
    decreases s.len() - j,
{
    if j < 0 || j >= s.len() {
        None
    } else if s[j] == c {
        Some(j)
    } else {
        find_from(s, j + 1, c)
    }
}

pub proof fn lemma_find_from(s: Seq<char>, j: int, c: char)
    requires
        0 <= j,
    ensures
        find_from(s, j, c) matches Some(k) ==> j <= k < s.len() && s[k] == c,
        find_from(s, j, c) is None ==> forall|k: int| j <= k < s.len() ==> s[k] != c,
    decreases s.len() - j,
{
    if j < s.len() && s[j] != c {
        lemma_find_from(s, j + 1, c);
    }
}

/// First position at or after `from` holding `c`.
pub fn find_char(s: &[char], from: usize, c: char) -> (r: Option<usize>)
    ensures
        r matches Some(k) ==> find_from(s@, from as int, c) == Some(k as int),
        r is None ==> find_from(s@, from as int, c) is None,
{
    let mut j = from;
    while j < s.len()
        invariant
            from <= j,
            find_from(s@, j as int, c) == find_from(s@, from as int, c),
        decreases s.len() - j,
    {
        if s[j] == c {
            return Some(j);
        }
        j += 1;
    }
    None
}

/// Appends the characters of `t` to `s`.
pub fn string_append(s: &mut String, t: &str)
    ensures
        final(s)@ == old(s)@ + t@,
{
    let cs = chars_of(t);
    let mut i: usize = 0;
    while i < cs.len()
        invariant
            i <= cs.len(),
            cs@ == t@,
            s@ == old(s)@ + t@.take(i as int),
        decreases cs.len() - i,
    {
        string_push(s, cs[i]);
        proof {
            assert(t@.take(i + 1) == t@.take(i as int).push(t@[i as int]));
        }
        i += 1;
    }
    proof {
        assert(t@.take(cs.len() as int) =~= t@);
    }
}

/// Calls `String::from_utf8`: success exactly on valid UTF-8.
#[verifier::external_body]
pub(crate) fn string_from_utf8(bytes: Vec<u8>) -> (r: Option<String>)
    ensures
        r is Some <==> valid_utf8(bytes@),
        r matches Some(s) ==> s@ == decode_utf8(bytes@),
{
    match String::from_utf8(bytes) {
        Ok(s) => Some(s),
        Err(_) => None,
    }
}

} // verus!
