//! Attribution parsing: turns the first output line of the history
//! subprocess, of the shape `hash (Author Name YYYY-MM-DD HH:MM:SS +ZZZZ
//! linenum) code...`, into an attributed record. The author may contain
//! spaces, so the four trailing fields inside the parentheses are peeled off
//! from the right.

use vstd::prelude::*;
use vstd::string::StrSliceExecFns;

use crate::todo::clip_i64;
use crate::todo::Todo;
use crate::todo::TodoLocation;

verus! {

/// Why a file or one marker occurrence could not be attributed. All of these
/// are recoverable: the occurrence is dropped and the batch continues.
#[derive(Clone, Copy, Debug, PartialEq, Eq, Structural)]
pub enum TodoError {
    /// The file could not be opened or read during scanning.
    FileUnreadable,
    /// The occurrence's path could not be canonicalized.
    PathResolutionError,
    /// The attribution subprocess exited with a failure status.
    AttributionSubprocessError,
    /// The attribution subprocess produced no output lines.
    EmptyAttributionOutput,
    /// The attribution line lacked its delimiters or trailing fields.
    MalformedAttributionLine,
    /// The composed timestamp text did not match the fixed format.
    TimestampParseError,
}

impl TodoError {
    /// A short human-readable cause, for diagnostic lines.
    pub fn describe(&self) -> (r: &'static str)
        ensures
            self matches TodoError::FileUnreadable ==> r@ == "could not read file"@,
            self matches TodoError::PathResolutionError ==> r@ == "could not resolve path"@,
            self matches TodoError::AttributionSubprocessError ==> r@ == "git blame failed"@,
            self matches TodoError::EmptyAttributionOutput ==> r@
                == "git blame returned no output"@,
            self matches TodoError::MalformedAttributionLine ==> r@
                == "malformed git blame line"@,
            self matches TodoError::TimestampParseError ==> r@ == "could not parse timestamp"@,
    {
        match self {
            TodoError::FileUnreadable => "could not read file",
            TodoError::PathResolutionError => "could not resolve path",
            TodoError::AttributionSubprocessError => "git blame failed",
            TodoError::EmptyAttributionOutput => "git blame returned no output",
            TodoError::MalformedAttributionLine => "malformed git blame line",
            TodoError::TimestampParseError => "could not parse timestamp",
        }
    }
}

/// `i` is the first index at which `c` occurs in `s`.
pub open spec fn first_idx_is(s: Seq<char>, c: char, i: int) -> bool {
    0 <= i < s.len() && s[i] == c && forall|j: int| 0 <= j < i ==> s[j] != c
}

/// The first index at which `c` occurs in `s`, if any.
pub open spec fn spec_first_idx(s: Seq<char>, c: char) -> Option<int> {
    if exists|i: int| first_idx_is(s, c, i) {
        Some(choose|i: int| first_idx_is(s, c, i))
    } else {
        None
    }
}

/// `i` is the last index at which `c` occurs in `s`.
pub open spec fn last_idx_is(s: Seq<char>, c: char, i: int) -> bool {
    0 <= i < s.len() && s[i] == c && forall|j: int| i < j < s.len() ==> s[j] != c
}

/// The last index at which `c` occurs in `s`, if any.
pub open spec fn spec_last_idx(s: Seq<char>, c: char) -> Option<int> {
    if exists|i: int| last_idx_is(s, c, i) {
        Some(choose|i: int| last_idx_is(s, c, i))
    } else {
        None
    }
}

pub proof fn lemma_first_idx_some(s: Seq<char>, c: char, i: int)
    requires
        first_idx_is(s, c, i),
    ensures
        spec_first_idx(s, c) == Some(i),
{
    let i2 = choose|k: int| first_idx_is(s, c, k);
    if i2 < i {
        assert(s[i2] != c);
        assert(false);
    } else if i < i2 {
        assert(s[i] != c);
        assert(false);
    }
}

pub proof fn lemma_first_idx_none(s: Seq<char>, c: char)
    requires
        forall|j: int| 0 <= j < s.len() ==> s[j] != c,
    ensures
        spec_first_idx(s, c) == None::<int>,
{
    if exists|i: int| first_idx_is(s, c, i) {
        let i = choose|k: int| first_idx_is(s, c, k);
        assert(s[i] != c);
        assert(false);
    }
}

pub proof fn lemma_last_idx_some(s: Seq<char>, c: char, i: int)
    requires
        last_idx_is(s, c, i),
    ensures
        spec_last_idx(s, c) == Some(i),
{
    let i2 = choose|k: int| last_idx_is(s, c, k);
    if i2 < i {
        assert(s[i] != c);
        assert(false);
    } else if i < i2 {
        assert(s[i2] != c);
        assert(false);
    }
}

pub proof fn lemma_last_idx_none(s: Seq<char>, c: char)
    requires
        forall|j: int| 0 <= j < s.len() ==> s[j] != c,
    ensures
        spec_last_idx(s, c) == None::<int>,
{
    if exists|i: int| last_idx_is(s, c, i) {
        let i = choose|k: int| last_idx_is(s, c, k);
        assert(s[i] != c);
        assert(false);
    }
}

/// The text between the first `(` and the first `)` after it, if both exist.
pub open spec fn spec_blame_info(line: Seq<char>) -> Option<Seq<char>> {
    match spec_first_idx(line, '(') {
        None => None,
        Some(oi) => {
            let rest = line.subrange(oi + 1, line.len() as int);
            match spec_first_idx(rest, ')') {
                None => None,
                Some(ci) => Some(rest.subrange(0, ci)),
            }
        },
    }
}

/// Peel the four whitespace-delimited trailing fields (line number, timezone,
/// time, date) off the parenthesized text from the right. Yields the author
/// (everything left of the date, spaces preserved) and the composed
/// `date time timezone` text, or nothing when fewer than four spaces exist.
pub open spec fn spec_peel_info(info: Seq<char>) -> Option<(Seq<char>, Seq<char>)> {
    match spec_last_idx(info, ' ') {
        None => None,
        Some(p1) => match spec_last_idx(info.subrange(0, p1), ' ') {
            None => None,
            Some(p2) => match spec_last_idx(info.subrange(0, p2), ' ') {
                None => None,
                Some(p3) => match spec_last_idx(info.subrange(0, p3), ' ') {
                    None => None,
                    Some(p4) => Some((info.subrange(0, p4), info.subrange(p4 + 1, p1))),
                },
            },
        },
    }
}

/// Full parse of one attribution line: author and composed timestamp text,
/// or nothing when the line is malformed.
pub open spec fn spec_parse_blame(line: Seq<char>) -> Option<(Seq<char>, Seq<char>)> {
    match spec_blame_info(line) {
        None => None,
        Some(info) => spec_peel_info(info),
    }
}

/// The author and composed `date time timezone` text parsed out of one
/// attribution line.
#[derive(Debug)]
pub struct BlameParts {
    pub author: String,
    pub datetime: String,
}

fn find_char_from(s: &str, start: usize, c: char) -> (r: Option<usize>)
    requires
        start <= s@.len(),
    ensures
        match r {
            Some(i) => start <= i < s@.len() && s@[i as int] == c && (forall|j: int|
                start <= j < i ==> s@[j] != c),
            None => forall|j: int| start <= j < s@.len() ==> s@[j] != c,
        },
{
    let n = s.unicode_len();
    let mut i = start;
    while i < n
        invariant
            start <= i <= n,
            n == s@.len(),
            forall|j: int| start <= j < i ==> s@[j] != c,
        decreases n - i,
    {
        if s.get_char(i) == c {
            return Some(i);
        }
        i = i + 1;
    }
    None
}

pub(crate) fn rfind_char_before(s: &str, end: usize, c: char) -> (r: Option<usize>)
    requires
        end <= s@.len(),
    ensures
        match r {
            Some(i) => i < end && s@[i as int] == c && (forall|j: int|
                i < j < end ==> s@[j] != c),
            None => forall|j: int| 0 <= j < end ==> s@[j] != c,
        },
{
    let mut i = end;
    while i > 0
        invariant
            i <= end <= s@.len(),
            forall|j: int| i <= j < end ==> s@[j] != c,
        decreases i,
    {
        i = i - 1;
        if s.get_char(i) == c {
            return Some(i);
        }
    }
    None
}

/// Parse one attribution line into its author and composed timestamp text.
/// Fails exactly when the line is malformed: no `(`, no `)` after it, or
/// fewer than five space-delimited segments between them.
pub fn parse_blame_line(line: &str) -> (r: Result<BlameParts, TodoError>)
    ensures
        r matches Ok(p) ==> spec_parse_blame(line@) == Some((p.author@, p.datetime@)),
        r is Ok <==> spec_parse_blame(line@) is Some,
        r is Err ==> r == Err::<BlameParts, TodoError>(TodoError::MalformedAttributionLine),
{
    let n = line.unicode_len();
    let oi = match find_char_from(line, 0, '(') {
        Some(i) => i,
        None => {
            proof {
                lemma_first_idx_none(line@, '(');
            }
            return Err(TodoError::MalformedAttributionLine);
        },
    };
    proof {
        lemma_first_idx_some(line@, '(', oi as int);
    }
    let ghost rest = line@.subrange(oi + 1, line@.len() as int);
    let ci = match find_char_from(line, oi + 1, ')') {
        Some(i) => i,
        None => {
            proof {
                assert(forall|j: int| 0 <= j < rest.len() ==> rest[j] == line@[oi + 1 + j]);
                lemma_first_idx_none(rest, ')');
            }
            return Err(TodoError::MalformedAttributionLine);
        },
    };
    proof {
        assert(forall|j: int| 0 <= j < rest.len() ==> rest[j] == line@[oi + 1 + j]);
        assert(first_idx_is(rest, ')', ci - oi - 1));
        lemma_first_idx_some(rest, ')', ci - oi - 1);
    }
    let info = line.substring_char(oi + 1, ci);
    proof {
        assert(info@ =~= rest.subrange(0, ci - oi - 1));
        assert(spec_blame_info(line@) == Some(info@));
    }

    let p1 = match rfind_char_before(info, info.unicode_len(), ' ') {
        Some(i) => i,
        None => {
            proof {
                lemma_last_idx_none(info@, ' ');
            }
            return Err(TodoError::MalformedAttributionLine);
        },
    };
    proof {
        lemma_last_idx_some(info@, ' ', p1 as int);
    }
    let ghost pre1 = info@.subrange(0, p1 as int);
    let p2 = match rfind_char_before(info, p1, ' ') {
        Some(i) => i,
        None => {
            proof {
                assert(forall|j: int| 0 <= j < pre1.len() ==> pre1[j] == info@[j]);
                lemma_last_idx_none(pre1, ' ');
            }
            return Err(TodoError::MalformedAttributionLine);
        },
    };
    proof {
        assert(forall|j: int| 0 <= j < pre1.len() ==> pre1[j] == info@[j]);
        assert(last_idx_is(pre1, ' ', p2 as int));
        lemma_last_idx_some(pre1, ' ', p2 as int);
    }
    let ghost pre2 = info@.subrange(0, p2 as int);
    let p3 = match rfind_char_before(info, p2, ' ') {
        Some(i) => i,
        None => {
            proof {
                assert(forall|j: int| 0 <= j < pre2.len() ==> pre2[j] == info@[j]);
                lemma_last_idx_none(pre2, ' ');
            }
            return Err(TodoError::MalformedAttributionLine);
        },
    };
    proof {
        assert(forall|j: int| 0 <= j < pre2.len() ==> pre2[j] == info@[j]);
        assert(last_idx_is(pre2, ' ', p3 as int));
        lemma_last_idx_some(pre2, ' ', p3 as int);
    }
    let ghost pre3 = info@.subrange(0, p3 as int);
    let p4 = match rfind_char_before(info, p3, ' ') {
        Some(i) => i,
        None => {
            proof {
                assert(forall|j: int| 0 <= j < pre3.len() ==> pre3[j] == info@[j]);
                lemma_last_idx_none(pre3, ' ');
            }
            return Err(TodoError::MalformedAttributionLine);
        },
    };
    proof {
        assert(forall|j: int| 0 <= j < pre3.len() ==> pre3[j] == info@[j]);
        assert(last_idx_is(pre3, ' ', p4 as int));
        lemma_last_idx_some(pre3, ' ', p4 as int);
    }
    let author = info.substring_char(0, p4).to_owned();
    let datetime = info.substring_char(p4 + 1, p1).to_owned();
    Ok(BlameParts { author, datetime })
}

/// What the history subprocess's composed `YYYY-MM-DD HH:MM:SS +ZZZZ` text
/// denotes as seconds since the Unix epoch, or nothing when the text does
/// not match that fixed format.
pub uninterp spec fn epoch_of_timestamp(s: Seq<char>) -> Option<i64>;

/// Relies on chrono's `DateTime::parse_from_str` with the fixed format
/// `%Y-%m-%d %H:%M:%S %z`, converted to UTC, and `DateTime::timestamp`: the
/// parse accepts exactly that format and its result is a function of the
/// input text alone.
#[verifier::external_body]
fn parse_timestamp(s: &str) -> (r: Option<i64>)
    ensures
        r == epoch_of_timestamp(s@),
{
    match chrono::DateTime::parse_from_str(s, "%Y-%m-%d %H:%M:%S %z") {
        Ok(dt) => Some(dt.with_timezone(&chrono::Utc).timestamp()),
        Err(_) => None,
    }
}

/// Relies on chrono's `Utc::now` and `DateTime::timestamp` for the current
/// instant; nothing is assumed of the clock's reading.
#[verifier::external_body]
fn now_epoch_seconds() -> i64 {
    chrono::Utc::now().timestamp()
}

/// A trailing carriage return removed, as the line iterator of std does.
pub open spec fn spec_strip_cr(s: Seq<char>) -> Seq<char> {
    if s.len() > 0 && s[s.len() - 1] == '\r' {
        s.subrange(0, s.len() - 1)
    } else {
        s
    }
}

/// The first line of `s`: the text before the first newline, with a trailing
/// carriage return removed.
pub open spec fn spec_first_line(s: Seq<char>) -> Seq<char> {
    match spec_first_idx(s, '\n') {
        None => spec_strip_cr(s),
        Some(i) => spec_strip_cr(s.subrange(0, i)),
    }
}

/// Extract the first line of a block of text.
pub fn first_line(s: &str) -> (r: String)
    ensures
        r@ == spec_first_line(s@),
{
    let end = match find_char_from(s, 0, '\n') {
        Some(i) => {
            proof {
                lemma_first_idx_some(s@, '\n', i as int);
            }
            i
        },
        None => {
            proof {
                lemma_first_idx_none(s@, '\n');
            }
            s.unicode_len()
        },
    };
    let line = s.substring_char(0, end);
    proof {
        if end < s@.len() {
            assert(line@ =~= s@.subrange(0, end as int));
        } else {
            assert(line@ =~= s@);
        }
    }
    let ln = line.unicode_len();
    if ln > 0 && line.get_char(ln - 1) == '\r' {
        let out = line.substring_char(0, ln - 1).to_owned();
        assert(out@ =~= spec_first_line(s@));
        out
    } else {
        let out = line.to_owned();
        assert(out@ =~= spec_first_line(s@));
        out
    }
}

/// What `attribute_with_now` returns, as a function of the subprocess output,
/// the occurrence, and the resolution instant `now`.
pub open spec fn attribution_ok(
    r: Result<Todo, TodoError>,
    loc: TodoLocation,
    abs_path: Seq<char>,
    stdout: Seq<char>,
    now: int,
) -> bool {
    if stdout.len() == 0 {
        r == Err::<Todo, TodoError>(TodoError::EmptyAttributionOutput)
    } else {
        match spec_parse_blame(spec_first_line(stdout)) {
            None => r == Err::<Todo, TodoError>(TodoError::MalformedAttributionLine),
            Some(parts) => match epoch_of_timestamp(parts.1) {
                None => r == Err::<Todo, TodoError>(TodoError::TimestampParseError),
                Some(ts) => r matches Ok(t) && t.author@ == parts.0 && t.timestamp == ts
                    && t.age == clip_i64(now - ts) && t.path@ == loc.path@ && t.abs_path@
                    == abs_path && t.line_number == loc.line_number && t.text@ == loc.text@,
            },
        }
    }
}

/// Resolve one marker occurrence from the subprocess's standard output,
/// taking the resolution instant as an argument: fails on empty output, on a
/// malformed first line, or on a timestamp that does not match the fixed
/// format, and otherwise yields the attributed record whose age is the
/// seconds from the commit instant to `now`, clamped into `i64`.
pub fn attribute_with_now(
    loc: &TodoLocation,
    abs_path: String,
    blame_stdout: &str,
    now: i64,
) -> (r: Result<Todo, TodoError>)
    ensures
        attribution_ok(r, *loc, abs_path@, blame_stdout@, now as int),
{
    if blame_stdout.unicode_len() == 0 {
        return Err(TodoError::EmptyAttributionOutput);
    }
    let line = first_line(blame_stdout);
    let parts = match parse_blame_line(line.as_str()) {
        Ok(p) => p,
        Err(e) => {
            return Err(e);
        },
    };
    let ts = match parse_timestamp(parts.datetime.as_str()) {
        Some(t) => t,
        None => {
            return Err(TodoError::TimestampParseError);
        },
    };
    let age = match now.checked_sub(ts) {
        Some(a) => a,
        None => if ts < 0 {
            i64::MAX
        } else {
            i64::MIN
        },
    };
    Ok(
        Todo {
            path: loc.path.clone(),
            abs_path,
            line_number: loc.line_number,
            text: loc.text.clone(),
            author: parts.author,
            timestamp: ts,
            age,
        },
    )
}

/// Resolve one marker occurrence at the current instant. The record's age is
/// measured against the clock at the moment of the call; everything else is
/// as `attribute_with_now` states.
pub fn attribute_occurrence(loc: &TodoLocation, abs_path: String, blame_stdout: &str) -> (r:
    Result<Todo, TodoError>)
    ensures
        exists|now: int| attribution_ok(r, *loc, abs_path@, blame_stdout@, now),
{
    let now = now_epoch_seconds();
    attribute_with_now(loc, abs_path, blame_stdout, now)
}

} // verus!
