//! Find & Replace over a tab's content.
//!
//! Plain search is case-insensitive and reports non-overlapping byte ranges
//! of the lowercased text; regex search reports the non-empty matches of a
//! regular expression. Replace-all is case-sensitive in plain mode.

use vstd::prelude::*;
use vstd::utf8::*;
use crate::text::{chars_of, string_from_chars, string_from_utf8};

verus! {

broadcast use group_utf8_lib;

// ─── Outside functions ────────────────────────────────────────────────────────

/// Whether a pattern compiles as a regular expression (`regex::Regex::new`).
pub uninterp spec fn regex_valid(pattern: Seq<char>) -> bool;

/// The byte ranges of the successive non-overlapping matches of a valid
/// pattern in a text (`Regex::find_iter`).
pub uninterp spec fn regex_find_spans(pattern: Seq<char>, text: Seq<char>) -> Seq<(usize, usize)>;

/// The text with every match of a valid pattern replaced, `$name` and `$1`
/// in the replacement expanding to capture groups (`Regex::replace_all`).
pub uninterp spec fn regex_replace(pattern: Seq<char>, text: Seq<char>, rep: Seq<char>) -> Seq<char>;

/// Calls `regex::Regex::new` and collects `Regex::find_iter` as byte ranges.
/// The contract claims: a result exactly when the pattern compiles; each
/// range is ordered, inside the text and on character boundaries.
#[verifier::external_body]
pub(crate) fn regex_find_all(pattern: &str, text: &str) -> (r: Option<Vec<(usize, usize)>>)
    ensures
        r is Some <==> regex_valid(pattern@),
        r matches Some(v) ==> v@ == regex_find_spans(pattern@, text@),
        r matches Some(v) ==> forall|k: int|
            0 <= k < v@.len() ==> {
                &&& (#[trigger] v@[k]).0 <= v@[k].1 <= text.len()
                &&& is_char_boundary(encode_utf8(text@), v@[k].0 as int)
                &&& is_char_boundary(encode_utf8(text@), v@[k].1 as int)
            },
{
    match regex::Regex::new(pattern) {
        Ok(re) => {
            let mut v = Vec::new();
            for m in re.find_iter(text) {
                v.push((m.start(), m.end()));
            }
            Some(v)
        },
        Err(_) => None,
    }
}

/// The text with the first match of a valid pattern replaced, with the same
/// expansion of the replacement (`Regex::replace`).
pub uninterp spec fn regex_replace_first(pattern: Seq<char>, text: Seq<char>, rep: Seq<char>) -> Seq<char>;

/// Calls `regex::Regex::new` and `Regex::replace` (one match at most): a
/// result exactly when the pattern compiles.
#[verifier::external_body]
pub(crate) fn regex_replace_once(pattern: &str, text: &str, rep: &str) -> (r: Option<String>)
    ensures
        r is Some <==> regex_valid(pattern@),
        r matches Some(s) ==> s@ == regex_replace_first(pattern@, text@, rep@),
{
    match regex::Regex::new(pattern) {
        Ok(re) => Some(re.replace(text, rep).into_owned()),
        Err(_) => None,
    }
}

/// Calls `regex::Regex::new` and `Regex::replace_all`: a result exactly when
/// the pattern compiles.
#[verifier::external_body]
pub(crate) fn regex_replace_all(pattern: &str, text: &str, rep: &str) -> (r: Option<String>)
    ensures
        r is Some <==> regex_valid(pattern@),
        r matches Some(s) ==> s@ == regex_replace(pattern@, text@, rep@),
{
    match regex::Regex::new(pattern) {
        Ok(re) => Some(re.replace_all(text, rep).into_owned()),
        Err(_) => None,
    }
}

/// What `str::to_lowercase` returns for a text with a character outside
/// ASCII.
pub uninterp spec fn unicode_lowercase(s: Seq<char>) -> Seq<char>;

/// The ASCII lowercase of a character: `A` to `Z` become `a` to `z`, every
/// other character stays.
pub open spec fn ascii_lower(c: char) -> char {
    if 'A' <= c && c <= 'Z' {
        ((c as u32) + 32) as char
    } else {
        c
    }
}

/// The lowercase form of a text (`str::to_lowercase`): an ASCII text has each
/// capital letter lowered and every other character kept; any other text is
/// the name above.
pub open spec fn lowercase(s: Seq<char>) -> Seq<char> {
    if is_ascii_chars(s) {
        s.map_values(|c: char| ascii_lower(c))
    } else {
        unicode_lowercase(s)
    }
}

/// Calls `str::to_lowercase`. On ASCII text only the capital letters change,
/// each to its small letter; beyond ASCII every character maps to one or more
/// characters, so a non-empty text stays non-empty, and the result is the
/// name `unicode_lowercase`.
#[verifier::external_body]
pub(crate) fn to_lowercase(s: &str) -> (r: String)
    ensures
        r@ == lowercase(s@),
        !is_ascii_chars(s@) ==> r@ == unicode_lowercase(s@),
        s@.len() > 0 ==> r@.len() > 0,
{
    s.to_lowercase()
}

// ─── Plain search ─────────────────────────────────────────────────────────────

/// Successive non-overlapping occurrences of `q` in `c` from byte `i` on,
/// leftmost first.
pub open spec fn plain_matches(c: Seq<u8>, q: Seq<u8>, i: int) -> Seq<(usize, usize)>
    decreases c.len() - i,
{
    if q.len() == 0 || i < 0 || i + q.len() > c.len() {
        Seq::empty()
    } else if c.subrange(i, i + q.len()) == q {
        seq![(i as usize, (i + q.len()) as usize)] + plain_matches(c, q, i + q.len())
    } else {
        plain_matches(c, q, i + 1)
    }
}

/// Every plain match is an occurrence of the query inside the text, at or
/// after the starting byte, and the matches come in order without
/// overlapping.
pub proof fn law_plain_matches_disjoint(c: Seq<u8>, q: Seq<u8>, i: int)
    requires
        0 <= i,
        c.len() <= usize::MAX,
    ensures
        forall|k: int|
            0 <= k < plain_matches(c, q, i).len() ==> {
                let m = #[trigger] plain_matches(c, q, i)[k];
                &&& i <= m.0
                &&& m.1 == m.0 + q.len()
                &&& m.1 <= c.len()
                &&& c.subrange(m.0 as int, m.1 as int) == q
            },
        forall|j: int, k: int|
            0 <= j < k < plain_matches(c, q, i).len() ==> plain_matches(c, q, i)[j].1
                <= plain_matches(c, q, i)[k].0,
    decreases c.len() - i,
{
    if q.len() == 0 || i + q.len() > c.len() {
        assert(plain_matches(c, q, i).len() == 0);
    } else if c.subrange(i, i + q.len()) == q {
        law_plain_matches_disjoint(c, q, i + q.len());
        let rest = plain_matches(c, q, i + q.len());
        let all = plain_matches(c, q, i);
        assert(all == seq![(i as usize, (i + q.len()) as usize)] + rest);
        assert(all[0].0 == i && all[0].1 == i + q.len());
        assert forall|k: int| 0 < k < all.len() implies #[trigger] all[k] == rest[k - 1] by {}
        assert forall|k: int| 0 < k < all.len() implies i + q.len() <= (#[trigger] all[k]).0 by {
            assert(all[k] == rest[k - 1]);
        }
        assert forall|j: int, k: int| 0 <= j < k < all.len() implies all[j].1 <= all[k].0 by {
            assert(all[k] == rest[k - 1]);
            if j > 0 {
                assert(all[j] == rest[j - 1]);
            }
        }
    } else {
        law_plain_matches_disjoint(c, q, i + 1);
        assert(plain_matches(c, q, i) == plain_matches(c, q, i + 1));
    }
}

/// The spans with a non-empty range, in order.
pub open spec fn nonempty_spans(s: Seq<(usize, usize)>) -> Seq<(usize, usize)>
    decreases s.len(),
{
    if s.len() == 0 {
        Seq::empty()
    } else {
        let r = nonempty_spans(s.drop_last());
        if s.last().0 < s.last().1 {
            r.push(s.last())
        } else {
            r
        }
    }
}

/// The matches of a non-empty query: `None` for an invalid regex.
pub open spec fn search_spans(query: Seq<char>, content: Seq<char>, regex: bool) -> Option<Seq<(usize, usize)>> {
    if regex {
        if regex_valid(query) {
            Some(nonempty_spans(regex_find_spans(query, content)))
        } else {
            None
        }
    } else {
        Some(plain_matches(encode_utf8(lowercase(content)), encode_utf8(lowercase(query)), 0))
    }
}

fn bytes_equal_at(c: &[u8], q: &[u8], i: usize) -> (r: bool)
    requires
        i + q.len() <= c.len(),
    ensures
        r == (c@.subrange(i as int, i + q.len()) == q@),
{
    let mut k: usize = 0;
    while k < q.len()
        invariant
            k <= q.len(),
            i + q.len() <= c.len(),
            forall|j: int| 0 <= j < k ==> c@[i + j] == q@[j],
        decreases q.len() - k,
    {
        if c[i + k] != q[k] {
            proof {
                assert(c@.subrange(i as int, i + q.len())[k as int] != q@[k as int]);
            }
            return false;
        }
        k += 1;
    }
    proof {
        assert(c@.subrange(i as int, i + q.len()) =~= q@);
    }
    true
}

/// Case-insensitive search: non-overlapping byte ranges of the lowercased
/// query in the lowercased content.
pub fn plain_search(content: &str, query: &str) -> (r: Vec<(usize, usize)>)
    requires
        query@.len() > 0,
    ensures
        r@ == plain_matches(encode_utf8(lowercase(content@)), encode_utf8(lowercase(query@)), 0),
{
    let q = to_lowercase(query);
    let c = to_lowercase(content);
    let qb = q.as_str().as_bytes();
    let cb = c.as_str().as_bytes();
    let ghost cs = cb@;
    let ghost qs = qb@;
    proof {
        assert(qs.len() > 0);
    }
    let mut out: Vec<(usize, usize)> = Vec::new();
    let mut i: usize = 0;
    while qb.len() <= cb.len() && i <= cb.len() - qb.len()
        invariant
            cs == cb@,
            qs == qb@,
            qs.len() > 0,
            i <= cb.len() + 1,
            out@ + plain_matches(cs, qs, i as int) == plain_matches(cs, qs, 0),
        decreases cb.len() + 1 - i,
    {
        if bytes_equal_at(cb, qb, i) {
            let ghost rest = plain_matches(cs, qs, i + qs.len());
            out.push((i, i + qb.len()));
            proof {
                assert(out@ + rest =~= out@.drop_last() + (seq![(i as usize, (i + qs.len()) as usize)] + rest));
            }
            i += qb.len();
        } else {
            i += 1;
        }
    }
    proof {
        assert(out@ + plain_matches(cs, qs, i as int) =~= out@);
    }
    out
}

// ─── Replacing ────────────────────────────────────────────────────────────────

/// Replace the byte range `[start, end)` of a text (on character boundaries)
/// with `rep`.
pub fn replace_byte_range(s: &str, start: usize, end: usize, rep: &str) -> (r: String)
    requires
        start <= end <= encode_utf8(s@).len(),
        is_char_boundary(encode_utf8(s@), start as int),
        is_char_boundary(encode_utf8(s@), end as int),
    ensures
        r@ == decode_utf8(
            encode_utf8(s@).subrange(0, start as int) + encode_utf8(rep@) + encode_utf8(s@).subrange(
                end as int,
                encode_utf8(s@).len() as int,
            ),
        ),
{
    let b = s.as_bytes();
    let rb = rep.as_bytes();
    let ghost bs = encode_utf8(s@);
    let mut out: Vec<u8> = Vec::new();
    let mut i: usize = 0;
    while i < start
        invariant
            i <= start <= end <= b.len(),
            b@ == bs,
            out@ == bs.subrange(0, i as int),
        decreases start - i,
    {
        out.push(b[i]);
        proof {
            assert(bs.subrange(0, i + 1) == bs.subrange(0, i as int).push(bs[i as int]));
        }
        i += 1;
    }
    let mut k: usize = 0;
    while k < rb.len()
        invariant
            k <= rb.len(),
            out@ == bs.subrange(0, start as int) + rb@.subrange(0, k as int),
        decreases rb.len() - k,
    {
        out.push(rb[k]);
        proof {
            assert(rb@.subrange(0, k + 1) == rb@.subrange(0, k as int).push(rb@[k as int]));
        }
        k += 1;
    }
    let mut j = end;
    while j < b.len()
        invariant
            end <= j <= b.len(),
            b@ == bs,
            out@ == bs.subrange(0, start as int) + rb@ + bs.subrange(end as int, j as int),
        decreases b.len() - j,
    {
        out.push(b[j]);
        proof {
            assert(bs.subrange(end as int, j + 1) == bs.subrange(end as int, j as int).push(bs[j as int]));
        }
        j += 1;
    }
    proof {
        assert(rb@.subrange(0, rb@.len() as int) =~= rb@);
        encode_utf8_valid_utf8(s@);
        encode_utf8_valid_utf8(rep@);
        valid_utf8_split(bs, start as int);
        valid_utf8_split(bs, end as int);
        valid_utf8_concat(bs.subrange(0, start as int), rb@);
        valid_utf8_concat(bs.subrange(0, start as int) + rb@, bs.subrange(end as int, bs.len() as int));
    }
    match string_from_utf8(out) {
        Some(r) => r,
        None => String::new(),
    }
}

/// `s` with every non-overlapping occurrence of `q` (scanning left to right,
/// from position `i`) replaced by `r`.
pub open spec fn replace_from(s: Seq<char>, q: Seq<char>, r: Seq<char>, i: int) -> Seq<char>
    decreases s.len() - i,
{
    if q.len() == 0 || i < 0 || i >= s.len() {
        Seq::empty()
    } else if i + q.len() <= s.len() && s.subrange(i, i + q.len()) == q {
        r + replace_from(s, q, r, i + q.len())
    } else {
        seq![s[i]] + replace_from(s, q, r, i + 1)
    }
}

fn chars_equal_at(c: &[char], q: &[char], i: usize) -> (r: bool)
    requires
        i + q.len() <= c.len(),
    ensures
        r == (c@.subrange(i as int, i + q.len()) == q@),
{
    let mut k: usize = 0;
    while k < q.len()
        invariant
            k <= q.len(),
            i + q.len() <= c.len(),
            forall|j: int| 0 <= j < k ==> c@[i + j] == q@[j],
        decreases q.len() - k,
    {
        if c[i + k] != q[k] {
            proof {
                assert(c@.subrange(i as int, i + q.len())[k as int] != q@[k as int]);
            }
            return false;
        }
        k += 1;
    }
    proof {
        assert(c@.subrange(i as int, i + q.len()) =~= q@);
    }
    true
}

/// Replace every occurrence of a non-empty `q` in `s` by `r`
/// (`str::replace`).
pub fn replace_plain(s: &str, q: &str, r: &str) -> (out: String)
    requires
        q@.len() > 0,
    ensures
        out@ == replace_from(s@, q@, r@, 0),
{
    let sc = chars_of(s);
    let qc = chars_of(q);
    let rc = chars_of(r);
    let mut res: Vec<char> = Vec::new();
    let mut i: usize = 0;
    while i < sc.len()
        invariant
            i <= sc.len(),
            sc@ == s@,
            qc@ == q@,
            rc@ == r@,
            qc.len() > 0,
            res@ + replace_from(s@, q@, r@, i as int) == replace_from(s@, q@, r@, 0),
        decreases sc.len() - i,
    {
        let ghost before = res@;
        if qc.len() <= sc.len() - i && chars_equal_at(sc.as_slice(), qc.as_slice(), i) {
            let mut k: usize = 0;
            while k < rc.len()
                invariant
                    k <= rc.len(),
                    res@ == before + rc@.subrange(0, k as int),
                decreases rc.len() - k,
            {
                res.push(rc[k]);
                proof {
                    assert(rc@.subrange(0, k + 1) == rc@.subrange(0, k as int).push(rc@[k as int]));
                }
                k += 1;
            }
            proof {
                assert(rc@.subrange(0, rc.len() as int) =~= rc@);
                assert(res@ + replace_from(s@, q@, r@, i + qc.len()) =~= before + (r@ + replace_from(
                    s@,
                    q@,
                    r@,
                    i + qc.len(),
                )));
            }
            i += qc.len();
        } else {
            res.push(sc[i]);
            proof {
                assert(res@ + replace_from(s@, q@, r@, i + 1) =~= before + (seq![s@[i as int]]
                    + replace_from(s@, q@, r@, i + 1)));
            }
            i += 1;
        }
    }
    proof {
        assert(res@ + replace_from(s@, q@, r@, i as int) =~= res@);
    }
    string_from_chars(res.as_slice())
}

// ─── Search state ─────────────────────────────────────────────────────────────

/// Results, error flag and current match after searching `content`: an empty
/// query has no matches; an invalid regex sets the error flag and keeps the
/// index; otherwise the index falls back to 0 when out of range.
pub open spec fn search_outcome(query: Seq<char>, content: Seq<char>, regex: bool, idx: usize) -> (Seq<(usize, usize)>, bool, usize) {
    if query.len() == 0 {
        (Seq::empty(), false, idx)
    } else {
        match search_spans(query, content, regex) {
            None => (Seq::empty(), true, idx),
            Some(rs) => (rs, false, if idx >= rs.len() {
                0
            } else {
                idx
            }),
        }
    }
}

/// The Find & Replace bar's state.
pub struct Search {
    pub query: String,
    pub replace: String,
    /// Interpret the query as a regular expression.
    pub regex: bool,
    /// The regex query does not compile.
    pub regex_error: bool,
    /// Byte ranges of the matches.
    pub results: Vec<(usize, usize)>,
    /// The current match.
    pub idx: usize,
}

impl Search {
    /// The current match index is inside the results whenever there are any.
    pub open spec fn wf(&self) -> bool {
        self.results.len() > 0 ==> self.idx < self.results.len()
    }

    pub fn new() -> (s: Search)
        ensures
            s.wf(),
            s.query@ == Seq::<char>::empty(),
            s.replace@ == Seq::<char>::empty(),
            !s.regex,
            !s.regex_error,
            s.results@ == Seq::<(usize, usize)>::empty(),
            s.idx == 0,
    {
        Search {
            query: String::new(),
            replace: String::new(),
            regex: false,
            regex_error: false,
            results: Vec::new(),
            idx: 0,
        }
    }

    /// Recompute the matches of the query in `content`. An empty query has
    /// no matches; an invalid regex sets the error flag. The current match
    /// index falls back to the first match when it is out of range.
    pub fn run_search(&mut self, content: &str)
        requires
            old(self).wf(),
        ensures
            final(self).wf(),
            final(self).query == old(self).query,
            final(self).replace == old(self).replace,
            final(self).regex == old(self).regex,
            (final(self).results@, final(self).regex_error, final(self).idx) == search_outcome(
                old(self).query@,
                content@,
                old(self).regex,
                old(self).idx,
            ),
    {
        self.results = Vec::new();
        self.regex_error = false;
        if self.query.as_str().is_empty() {
            return;
        }
        if self.regex {
            match regex_find_all(self.query.as_str(), content) {
                Some(spans) => {
                    let mut out: Vec<(usize, usize)> = Vec::new();
                    let mut k: usize = 0;
                    while k < spans.len()
                        invariant
                            k <= spans.len(),
                            out@ == nonempty_spans(spans@.take(k as int)),
                        decreases spans.len() - k,
                    {
                        proof {
                            assert(spans@.take(k + 1).drop_last() =~= spans@.take(k as int));
                        }
                        let (a, b) = spans[k];
                        if a < b {
                            out.push((a, b));
                        }
                        k += 1;
                    }
                    proof {
                        assert(spans@.take(spans.len() as int) =~= spans@);
                    }
                    self.results = out;
                },
                None => {
                    self.regex_error = true;
                    return;
                },
            }
        } else {
            self.results = plain_search(content, self.query.as_str());
        }
        if self.idx >= self.results.len() {
            self.idx = 0;
        }
    }

    /// Move to the next match, wrapping around.
    pub fn next_match(&mut self)
        requires
            old(self).wf(),
        ensures
            final(self).wf(),
            final(self).results == old(self).results,
            final(self).query == old(self).query,
            final(self).replace == old(self).replace,
            final(self).regex == old(self).regex,
            final(self).regex_error == old(self).regex_error,
            final(self).idx == (if old(self).results.len() > 0 {
                (old(self).idx + 1) % (old(self).results.len() as int)
            } else {
                old(self).idx as int
            }),
    {
        if self.results.len() > 0 {
            self.idx = (self.idx + 1) % self.results.len();
        }
    }

    /// Move to the previous match, wrapping around.
    pub fn prev_match(&mut self)
        requires
            old(self).wf(),
        ensures
            final(self).wf(),
            final(self).results == old(self).results,
            final(self).query == old(self).query,
            final(self).replace == old(self).replace,
            final(self).regex == old(self).regex,
            final(self).regex_error == old(self).regex_error,
            final(self).idx == (if old(self).results.len() > 0 {
                (old(self).idx + old(self).results.len() - 1) % (old(self).results.len() as int)
            } else {
                old(self).idx as int
            }),
    {
        let len = self.results.len();
        if len > 0 {
            let ghost i = self.idx as int;
            let ghost n = len as int;
            proof {
                if i == 0 {
                    assert((i + n - 1) % n == n - 1) by (nonlinear_arith)
                        requires
                            i == 0,
                            n > 0,
                    ;
                } else {
                    assert((i + n - 1) % n == i - 1) by (nonlinear_arith)
                        requires
                            0 < i < n,
                    ;
                }
            }
            self.idx = if self.idx == 0 {
                len - 1
            } else {
                self.idx - 1
            };
        }
    }
}

} // verus!
