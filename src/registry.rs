use vstd::prelude::*;

use crate::decimal::{decimal_of, decimal_string, parse_u64_of, parse_u64_range};

verus! {

/// Whitespace as Unicode's White_Space property has it, the set that
/// `str::trim` removes.
pub open spec fn is_blank(c: char) -> bool {
    ('\t' <= c && c <= '\r') || c == ' ' || c == '\u{85}' || c == '\u{A0}' || c == '\u{1680}'
        || ('\u{2000}' <= c && c <= '\u{200A}') || c == '\u{2028}' || c == '\u{2029}' || c
        == '\u{202F}' || c == '\u{205F}' || c == '\u{3000}'
}

/// The number of blanks that `s` starts with.
pub open spec fn leading_blanks(s: Seq<char>) -> int
    decreases s.len(),
{
    if s.len() > 0 && is_blank(s[0]) {
        1 + leading_blanks(s.drop_first())
    } else {
        0
    }
}

/// The number of blanks that `s` ends with.
pub open spec fn trailing_blanks(s: Seq<char>) -> int
    decreases s.len(),
{
    if s.len() > 0 && is_blank(s.last()) {
        1 + trailing_blanks(s.drop_last())
    } else {
        0
    }
}

/// `s` without the blanks at either end.
pub open spec fn trim_blanks(s: Seq<char>) -> Seq<char> {
    let t = s.subrange(leading_blanks(s), s.len() as int);
    t.subrange(0, t.len() - trailing_blanks(t))
}

/// `t` without one leading `+`, if it has one.
pub open spec fn unsigned_digits(t: Seq<char>) -> Seq<char> {
    if t.len() > 0 && t[0] == '+' {
        t.drop_first()
    } else {
        t
    }
}

/// The process identifier that the text of a PID file names, if any: decimal
/// digits after an optional `+`, whitespace around them allowed.
pub open spec fn pid_of(s: Seq<char>) -> Option<u32> {
    match parse_u64_of(unsigned_digits(trim_blanks(s))) {
        Some(n) => if n <= u32::MAX {
            Some(n as u32)
        } else {
            None
        },
        None => None,
    }
}

/// What a check of the registry found.
#[derive(Clone, Copy, Debug, PartialEq, Eq, Structural)]
pub enum RegistryCheck {
    /// No readable PID in the file, or no file.
    Absent,
    /// The file names this live process.
    Running(u32),
    /// The file names a process that is gone: the file is to be removed.
    Stale,
}

/// The outcome of a check of a PID file that names `pid`.
pub open spec fn judged(pid: u32, alive: bool) -> RegistryCheck {
    if alive {
        RegistryCheck::Running(pid)
    } else {
        RegistryCheck::Stale
    }
}

/// The running daemon's process that a check found, if any.
pub open spec fn running_of(c: RegistryCheck) -> Option<u32> {
    match c {
        RegistryCheck::Running(p) => Some(p),
        _ => None,
    }
}

/// Staleness heals itself: once the process that a PID file names has exited,
/// a check reports no daemon running and removes the file, though nothing
/// cleared it before.
pub proof fn lemma_stale_pid_heals(text: Seq<char>, pid: u32)
    requires
        pid_of(text) == Some(pid),
    ensures
        running_of(judged(pid, false)) is None,
        judged(pid, false) == RegistryCheck::Stale,
        running_of(judged(pid, true)) == Some(pid),
{
}

proof fn lemma_leading_blanks(s: Seq<char>, j: int)
    requires
        0 <= j <= s.len(),
        forall|k: int| 0 <= k < j ==> is_blank(#[trigger] s[k]),
        j < s.len() ==> !is_blank(s[j]),
    ensures
        leading_blanks(s) == j,
    decreases j,
{
    if j > 0 {
        let u = s.drop_first();
        assert forall|k: int| 0 <= k < j - 1 implies is_blank(#[trigger] u[k]) by {
            assert(u[k] == s[k + 1]);
        }
        lemma_leading_blanks(u, j - 1);
    }
}

proof fn lemma_trailing_blanks(s: Seq<char>, j: int)
    requires
        0 <= j <= s.len(),
        forall|k: int| j <= k < s.len() ==> is_blank(#[trigger] s[k]),
        j > 0 ==> !is_blank(s[j - 1]),
    ensures
        trailing_blanks(s) == s.len() - j,
    decreases s.len() - j,
{
    if j < s.len() {
        let u = s.drop_last();
        assert forall|k: int| j <= k < u.len() implies is_blank(#[trigger] u[k]) by {
            assert(u[k] == s[k]);
        }
        lemma_trailing_blanks(u, j);
    }
}

/// The text written to the PID file for process `pid`.
pub fn pid_file_text(pid: u32) -> (r: String)
    ensures
        r@ == decimal_of(pid as nat),
        pid_of(r@) == Some(pid),
{
    let r = decimal_string(pid as u64);
    proof {
        crate::decimal::lemma_decimal_round_trip(pid as nat);
        let s = r@;
        assert forall|k: int| 0 <= k < s.len() implies !is_blank(#[trigger] s[k]) by {
            assert(crate::decimal::is_digit(s[k]));
        }
        lemma_leading_blanks(s, 0);
        assert(s.subrange(0, s.len() as int) =~= s);
        lemma_trailing_blanks(s, s.len() as int);
        assert(trim_blanks(s) =~= s);
        assert(s[0] != '+');
    }
    r
}

/// The bounds of `text` without the blanks at either end.
pub fn trim_range(text: &str) -> (r: (usize, usize))
    ensures
        r.0 <= r.1 <= text@.len(),
        trim_blanks(text@) == text@.subrange(r.0 as int, r.1 as int),
{
    let ghost s = text@;
    let n = text.unicode_len();
    let mut lo: usize = 0;
    while lo < n && is_blank_char(text.get_char(lo))
        invariant
            n == s.len(),
            s == text@,
            lo <= n,
            forall|k: int| 0 <= k < lo ==> is_blank(#[trigger] s[k]),
        decreases n - lo,
    {
        lo = lo + 1;
    }
    let mut hi: usize = n;
    while hi > lo && is_blank_char(text.get_char(hi - 1))
        invariant
            n == s.len(),
            s == text@,
            lo <= hi <= n,
            forall|k: int| hi <= k < n ==> is_blank(#[trigger] s[k]),
        decreases hi,
    {
        hi = hi - 1;
    }
    proof {
        lemma_leading_blanks(s, lo as int);
        let t = s.subrange(lo as int, n as int);
        assert forall|k: int| hi - lo <= k < t.len() implies is_blank(#[trigger] t[k]) by {
            assert(t[k] == s[k + lo]);
        }
        lemma_trailing_blanks(t, hi - lo);
        assert(trim_blanks(s) =~= s.subrange(lo as int, hi as int));
    }
    (lo, hi)
}

/// Reads a process identifier from the text of a PID file: decimal digits
/// after an optional `+`, with whitespace allowed around them.
pub fn parse_pid(text: &str) -> (r: Option<u32>)
    ensures
        r == pid_of(text@),
{
    let (mut lo, hi) = trim_range(text);
    if lo < hi && text.get_char(lo) == '+' {
        assert(unsigned_digits(trim_blanks(text@)) =~= text@.subrange(lo + 1, hi as int));
        lo = lo + 1;
    }
    match parse_u64_range(text, lo, hi) {
        Some(v) => if v <= 4294967295 {
            Some(v as u32)
        } else {
            None
        },
        None => None,
    }
}

fn is_blank_char(c: char) -> (r: bool)
    ensures
        r == is_blank(c),
{
    ('\t' <= c && c <= '\r') || c == ' ' || c == '\u{85}' || c == '\u{A0}' || c == '\u{1680}'
        || ('\u{2000}' <= c && c <= '\u{200A}') || c == '\u{2028}' || c == '\u{2029}' || c
        == '\u{202F}' || c == '\u{205F}' || c == '\u{3000}'
}

/// The process that the PID file names, read from its text (`None` where there
/// is no file or it could not be read).
pub fn registry_pid(content: Option<&str>) -> (r: Option<u32>)
    ensures
        r == match content {
            Some(t) => pid_of(t@),
            None => None,
        },
{
    match content {
        Some(t) => parse_pid(t),
        None => None,
    }
}

/// Judges the process that the PID file names, once its liveness is known: a
/// live process is the running daemon; a dead one leaves a stale file behind.
pub fn judge_pid(pid: u32, alive: bool) -> (r: RegistryCheck)
    ensures
        r == judged(pid, alive),
{
    if alive {
        RegistryCheck::Running(pid)
    } else {
        RegistryCheck::Stale
    }
}

impl RegistryCheck {
    /// The process of the running daemon, if one is running.
    pub fn running_pid(&self) -> (r: Option<u32>)
        ensures
            r == running_of(*self),
    {
        match *self {
            RegistryCheck::Running(p) => Some(p),
            _ => None,
        }
    }

    /// Whether the PID file is to be removed as a consequence of the check.
    pub fn clears_file(&self) -> (r: bool)
        ensures
            r == (*self == RegistryCheck::Stale),
    {
        match *self {
            RegistryCheck::Stale => true,
            _ => false,
        }
    }
}

} // verus!
