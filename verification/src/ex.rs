//! Parsing the Vim `:` command line.

use vstd::prelude::*;
use crate::text::{
    char_is_whitespace, chars_of, find_char, find_from, leading_ws_end, lemma_find_from, trailing_ws_start,
    trim_chars, trim_spec,
};

verus! {

/// A line number typed after `:` is read up to this value; larger numbers
/// all mean the last line.
pub const LINE_NUMBER_CAP: usize = usize::MAX / 2 + 1;

/// A command typed after `:`.
pub enum ExCommand {
    /// `:w` — save.
    Write,
    /// `:q`, `:wq`, `:x` — save and lock.
    Quit,
    /// `:q!` — lock without saving.
    QuitNoSave,
    /// `:noh` — clear the search highlight.
    NoHighlight,
    /// `:{number}` — go to that line (read up to `LINE_NUMBER_CAP`).
    GotoLine(usize),
    /// `:s/pat/rep/[g]` on the cursor's line, or `:%s/...` on every line.
    Substitute { pattern: Vec<char>, replacement: Vec<char>, global: bool, whole: bool },
    /// Anything else.
    Unknown,
}

pub enum ExModel {
    Write,
    Quit,
    QuitNoSave,
    NoHighlight,
    GotoLine(int),
    Substitute(Seq<char>, Seq<char>, bool, bool),
    Unknown,
}

impl View for ExCommand {
    type V = ExModel;

    open spec fn view(&self) -> ExModel {
        match self {
            ExCommand::Write => ExModel::Write,
            ExCommand::Quit => ExModel::Quit,
            ExCommand::QuitNoSave => ExModel::QuitNoSave,
            ExCommand::NoHighlight => ExModel::NoHighlight,
            ExCommand::GotoLine(n) => ExModel::GotoLine(*n as int),
            ExCommand::Substitute { pattern, replacement, global, whole } => ExModel::Substitute(
                pattern@,
                replacement@,
                *global,
                *whole,
            ),
            ExCommand::Unknown => ExModel::Unknown,
        }
    }
}

/// All characters are decimal digits.
pub open spec fn all_digits(t: Seq<char>) -> bool {
    forall|k: int| 0 <= k < t.len() ==> '0' <= #[trigger] t[k] <= '9'
}

/// The decimal value of a string of digits.
pub open spec fn digits_value(t: Seq<char>) -> nat
    decreases t.len(),
{
    if t.len() == 0 {
        0
    } else {
        digits_value(t.drop_last()) * 10 + (t.last() as int - '0' as int) as nat
    }
}

/// A number capped at `LINE_NUMBER_CAP`.
pub open spec fn cap_line(v: nat) -> int {
    if v > LINE_NUMBER_CAP {
        LINE_NUMBER_CAP as int
    } else {
        v as int
    }
}

/// The pieces of `pat/rep/flags` split at the first two slashes.
pub open spec fn substitute_parts(rest: Seq<char>) -> (Seq<char>, Seq<char>, Seq<char>) {
    let (pattern, after) = match find_from(rest, 0, '/') {
        Some(k) => (rest.take(k), rest.skip(k + 1)),
        None => (rest, Seq::empty()),
    };
    match find_from(after, 0, '/') {
        Some(k) => (pattern, after.take(k), after.skip(k + 1)),
        None => (pattern, after, Seq::empty()),
    }
}

/// The command a line typed after `:` holds (surrounding whitespace is
/// ignored).
pub open spec fn ex_command_of(b: Seq<char>) -> ExModel {
    let t = trim_spec(b);
    if t == "w"@ {
        ExModel::Write
    } else if t == "q"@ || t == "wq"@ || t == "x"@ {
        ExModel::Quit
    } else if t == "q!"@ {
        ExModel::QuitNoSave
    } else if t == "noh"@ {
        ExModel::NoHighlight
    } else if t.len() > 0 && all_digits(t) {
        ExModel::GotoLine(cap_line(digits_value(t)))
    } else if (t.len() >= 2 && t[0] == 's' && t[1] == '/') || (t.len() >= 3 && t[0] == '%' && t[1] == 's'
        && t[2] == '/') {
        let whole = t[0] == '%';
        let rest = if whole {
            t.skip(3)
        } else {
            t.skip(2)
        };
        let (pattern, replacement, flags) = substitute_parts(rest);
        if pattern.len() == 0 {
            ExModel::Unknown
        } else {
            ExModel::Substitute(pattern, replacement, flags.contains('g'), whole)
        }
    } else {
        ExModel::Unknown
    }
}

/// Whether `t` equals the literal `lit`.
fn is_word(t: &[char], lit: &str) -> (r: bool)
    ensures
        r == (t@ == lit@),
{
    let l = chars_of(lit);
    if t.len() != l.len() {
        return false;
    }
    let mut k: usize = 0;
    while k < t.len()
        invariant
            k <= t.len() == l.len(),
            l@ == lit@,
            forall|j: int| 0 <= j < k ==> t@[j] == l@[j],
        decreases t.len() - k,
    {
        if t[k] != l[k] {
            return false;
        }
        k += 1;
    }
    proof {
        assert(t@ =~= l@);
    }
    true
}

/// The characters `[a, b)`.
fn take_range(s: &[char], a: usize, b: usize) -> (r: Vec<char>)
    requires
        a <= b <= s.len(),
    ensures
        r@ == s@.subrange(a as int, b as int),
{
    let mut r: Vec<char> = Vec::new();
    let mut k = a;
    while k < b
        invariant
            a <= k <= b <= s.len(),
            r@ == s@.subrange(a as int, k as int),
        decreases b - k,
    {
        r.push(s[k]);
        proof {
            assert(s@.subrange(a as int, k + 1) =~= s@.subrange(a as int, k as int).push(s@[k as int]));
        }
        k += 1;
    }
    r
}

/// Split `pat/rep/flags` at its first two slashes.
fn split_substitute(rest: &[char]) -> (r: (Vec<char>, Vec<char>, Vec<char>))
    ensures
        (r.0@, r.1@, r.2@) == substitute_parts(rest@),
{
    proof {
        lemma_find_from(rest@, 0, '/');
    }
    let first = find_char(rest, 0, '/');
    let (pattern, after) = match first {
        Some(k) => {
            assert(find_from(rest@, 0, '/') == Some(k as int));
            assert(k < rest.len()) by {
                lemma_find_from(rest@, 0, '/');
            }
            (take_range(rest, 0, k), take_range(rest, k + 1, rest.len()))
        },
        None => (take_range(rest, 0, rest.len()), Vec::new()),
    };
    proof {
        assert(rest@.subrange(0, rest@.len() as int) =~= rest@);
        match find_from(rest@, 0, '/') {
            Some(k) => {
                assert(rest@.subrange(0, k) =~= rest@.take(k));
                assert(rest@.subrange(k + 1, rest@.len() as int) =~= rest@.skip(k + 1));
            },
            None => {},
        }
        lemma_find_from(after@, 0, '/');
    }
    match find_char(after.as_slice(), 0, '/') {
        Some(k) => {
            assert(find_from(after@, 0, '/') == Some(k as int));
            assert(k < after.len()) by {
                lemma_find_from(after@, 0, '/');
            }
            let rep = take_range(after.as_slice(), 0, k);
            let flags = take_range(after.as_slice(), k + 1, after.len());
            proof {
                assert(after@.subrange(0, k as int) =~= after@.take(k as int));
                assert(after@.subrange(k + 1, after@.len() as int) =~= after@.skip(k + 1));
            }
            (pattern, rep, flags)
        },
        None => (pattern, after, Vec::new()),
    }
}

/// Read the command line typed after `:`.
pub fn parse_ex(b: &str) -> (r: ExCommand)
    ensures
        r@ == ex_command_of(b@),
{
    let t = trim_chars(chars_of(b).as_slice());
    let ts = t.as_slice();
    proof {
        reveal_strlit("w");
        reveal_strlit("q");
        reveal_strlit("wq");
        reveal_strlit("x");
        reveal_strlit("q!");
        reveal_strlit("noh");
    }
    if is_word(ts, "w") {
        return ExCommand::Write;
    }
    if is_word(ts, "q") || is_word(ts, "wq") || is_word(ts, "x") {
        return ExCommand::Quit;
    }
    if is_word(ts, "q!") {
        return ExCommand::QuitNoSave;
    }
    if is_word(ts, "noh") {
        return ExCommand::NoHighlight;
    }
    let mut digits = t.len() > 0;
    let mut k: usize = 0;
    while k < t.len()
        invariant
            k <= t.len(),
            digits == (t.len() > 0 && forall|j: int| 0 <= j < k ==> '0' <= #[trigger] t@[j] <= '9'),
        decreases t.len() - k,
    {
        if !('0' <= t[k] && t[k] <= '9') {
            digits = false;
        }
        k += 1;
    }
    if digits {
        let mut v: usize = 0;
        let mut k: usize = 0;
        while k < t.len()
            invariant
                k <= t.len(),
                all_digits(t@),
                v == cap_line(digits_value(t@.take(k as int))),
            decreases t.len() - k,
        {
            let d = (t[k] as u32 - '0' as u32) as usize;
            proof {
                assert(t@.take(k + 1).drop_last() =~= t@.take(k as int));
                assert(t@.take(k + 1).last() == t@[k as int]);
                assert('0' <= t@[k as int] <= '9');
            }
            let cap = LINE_NUMBER_CAP;
            v = if v > (cap - d) / 10 {
                cap
            } else {
                v * 10 + d
            };
            proof {
                let old_v = digits_value(t@.take(k as int));
                assert(digits_value(t@.take(k + 1)) == old_v * 10 + d);
            }
            k += 1;
        }
        proof {
            assert(t@.take(t.len() as int) =~= t@);
        }
        return ExCommand::GotoLine(v);
    }
    let sub = t.len() >= 2 && t[0] == 's' && t[1] == '/';
    let whole = t.len() >= 3 && t[0] == '%' && t[1] == 's' && t[2] == '/';
    if sub || whole {
        let from: usize = if whole {
            3
        } else {
            2
        };
        let rest = take_range(ts, from, t.len());
        proof {
            assert(rest@ =~= t@.skip(from as int));
        }
        let (pattern, replacement, flags) = split_substitute(rest.as_slice());
        if pattern.len() == 0 {
            return ExCommand::Unknown;
        }
        let mut global = false;
        let mut k: usize = 0;
        while k < flags.len()
            invariant
                k <= flags.len(),
                global == (exists|j: int| 0 <= j < k && flags@[j] == 'g'),
            decreases flags.len() - k,
        {
            if flags[k] == 'g' {
                global = true;
            }
            k += 1;
        }
        return ExCommand::Substitute { pattern, replacement, global, whole };
    }
    ExCommand::Unknown
}

// ─── Laws ─────────────────────────────────────────────────────────────────────

/// The decimal digit for `d` (`0 <= d < 10`).
pub open spec fn decimal_digit(d: nat) -> char {
    (48 + d) as char
}

/// The usual decimal writing of a number, without leading zeros.
pub open spec fn decimal(n: nat) -> Seq<char>
    decreases n,
{
    if n < 10 {
        seq![decimal_digit(n)]
    } else {
        decimal(n / 10).push(decimal_digit(n % 10))
    }
}

proof fn lemma_decimal(n: nat)
    ensures
        decimal(n).len() > 0,
        all_digits(decimal(n)),
        digits_value(decimal(n)) == n,
    decreases n,
{
    let c = decimal_digit(n % 10);
    assert(c as int == 48 + n % 10);
    assert('0' as int == 48);
    assert((c as int - '0' as int) as nat == n % 10);
    if n >= 10 {
        lemma_decimal(n / 10);
        let d = decimal(n);
        assert(d.drop_last() =~= decimal(n / 10));
        assert(d.last() == c);
        assert forall|k: int| 0 <= k < d.len() implies '0' <= #[trigger] d[k] <= '9' by {
            if k < d.len() - 1 {
                assert(d[k] == decimal(n / 10)[k]);
            }
        }
        assert(n == (n / 10) * 10 + n % 10);
        assert(digits_value(d) == digits_value(decimal(n / 10)) * 10 + n % 10);
    } else {
        assert(decimal(n).drop_last() =~= Seq::<char>::empty());
        assert(digits_value(Seq::<char>::empty()) == 0);
        assert(n % 10 == n);
        assert(digits_value(decimal(n)) == digits_value(decimal(n).drop_last()) * 10 + n % 10);
    }
}

/// A non-empty text of digits is its own trimmed form.
proof fn lemma_digits_untrimmed(t: Seq<char>)
    requires
        t.len() > 0,
        all_digits(t),
    ensures
        trim_spec(t) == t,
{
    assert('0' <= t[0] <= '9');
    assert(!char_is_whitespace(t[0]));
    assert('0' <= t[t.len() - 1] <= '9');
    assert(!char_is_whitespace(t[t.len() - 1]));
    assert(leading_ws_end(t, 0) == 0);
    assert(trailing_ws_start(t, t.len() as int) == t.len());
    assert(t.subrange(0, t.len() as int) =~= t);
}

/// `:` followed by a number, written in decimal, goes to that line; numbers
/// beyond `LINE_NUMBER_CAP` all go to that line number (the last line).
/// Leading zeros change nothing.
pub proof fn law_number_goes_to_line(n: nat, zeros: nat)
    ensures
        ex_command_of(decimal(n)) == ExModel::GotoLine(if n > LINE_NUMBER_CAP {
            LINE_NUMBER_CAP as int
        } else {
            n as int
        }),
        ex_command_of(Seq::new(zeros, |k: int| '0') + decimal(n)) == ex_command_of(decimal(n)),
{
    lemma_decimal(n);
    let t = decimal(n);
    lemma_digits_untrimmed(t);
    reveal_strlit("w");
    reveal_strlit("q");
    reveal_strlit("wq");
    reveal_strlit("x");
    reveal_strlit("q!");
    reveal_strlit("noh");
    assert('0' <= t[0] <= '9');
    assert(t != "w"@ && t != "q"@ && t != "wq"@ && t != "x"@ && t != "q!"@ && t != "noh"@);
    assert(!(t.len() >= 2 && t[0] == 's') && !(t.len() >= 3 && t[0] == '%'));
    let z = Seq::new(zeros, |k: int| '0') + t;
    lemma_zeros_value(zeros, t);
    assert forall|k: int| 0 <= k < z.len() implies '0' <= #[trigger] z[k] <= '9' by {
        if k >= zeros {
            assert(z[k] == t[k - zeros]);
        }
    }
    lemma_digits_untrimmed(z);
    assert('0' <= z[0] <= '9');
    assert(z != "w"@ && z != "q"@ && z != "wq"@ && z != "x"@ && z != "q!"@ && z != "noh"@);
    assert(!(z.len() >= 2 && z[0] == 's') && !(z.len() >= 3 && z[0] == '%'));
}

/// Leading zeros do not change the value of a digit string.
proof fn lemma_zeros_value(zeros: nat, t: Seq<char>)
    ensures
        digits_value(Seq::new(zeros, |k: int| '0') + t) == digits_value(t),
    decreases t.len(),
{
    let z = Seq::new(zeros, |k: int| '0');
    if t.len() == 0 {
        lemma_zeros_only(zeros);
        assert(z + t =~= z);
    } else {
        lemma_zeros_value(zeros, t.drop_last());
        assert((z + t).drop_last() =~= z + t.drop_last());
        assert((z + t).last() == t.last());
    }
}

proof fn lemma_zeros_only(zeros: nat)
    ensures
        digits_value(Seq::new(zeros, |k: int| '0')) == 0,
    decreases zeros,
{
    if zeros > 0 {
        lemma_zeros_only((zeros - 1) as nat);
        assert(Seq::new(zeros, |k: int| '0').drop_last() =~= Seq::new((zeros - 1) as nat, |k: int| '0'));
    }
}

} // verus!
