//! The marker scanner: finds the lines of one file that contain a recognized
//! TODO marker. Line numbers are 1-based and count physical lines; a line
//! that failed to decode is skipped but still counted, so later numbering
//! never shifts.

use vstd::prelude::*;
use vstd::string::StringExecFns;

use crate::text::spec_contains_seq;
use crate::text::spec_trim;
use crate::text::str_contains;
use crate::text::trim_str;
use crate::todo::TodoLocation;

verus! {

/// A line contains a recognized marker: `// TODO` or `# TODO`, case
/// sensitive, with or without a following colon.
pub open spec fn spec_is_marker(line: Seq<char>) -> bool {
    spec_contains_seq(line, "// TODO"@) || spec_contains_seq(line, "# TODO"@)
}

/// Whether one line contains a recognized marker.
pub fn is_marker_line(line: &str) -> (r: bool)
    ensures
        r == spec_is_marker(line@),
{
    str_contains(line, "// TODO") || str_contains(line, "# TODO")
}

/// The marker occurrences of a file's physical lines, as pairs of a 1-based
/// line number and the trimmed line text. A line that failed to decode is
/// absent (`None`) and yields nothing, but still counts toward numbering.
pub open spec fn spec_scan(lines: Seq<Option<String>>) -> Seq<(int, Seq<char>)>
    decreases lines.len(),
{
    if lines.len() == 0 {
        Seq::empty()
    } else {
        let rest = spec_scan(lines.drop_last());
        match lines.last() {
            Some(l) => if spec_is_marker(l@) {
                rest.push((lines.len() as int, spec_trim(l@)))
            } else {
                rest
            },
            None => rest,
        }
    }
}

/// Scan one file's physical lines for marker occurrences: one occurrence per
/// line whose text contains a recognized marker, carrying the file's path,
/// the 1-based physical line number, and the trimmed line text.
pub fn scan_file(path: &str, lines: &Vec<Option<String>>) -> (r: Vec<TodoLocation>)
    ensures
        r@.len() == spec_scan(lines@).len(),
        forall|k: int|
            0 <= k < r@.len() ==> (#[trigger] r@[k]).path@ == path@ && r@[k].line_number as int
                == spec_scan(lines@)[k].0 && r@[k].text@ == spec_scan(lines@)[k].1,
{
    let mut out: Vec<TodoLocation> = Vec::new();
    let mut i: usize = 0;
    while i < lines.len()
        invariant
            i <= lines@.len(),
            out@.len() == spec_scan(lines@.subrange(0, i as int)).len(),
            forall|k: int|
                0 <= k < out@.len() ==> (#[trigger] out@[k]).path@ == path@
                    && out@[k].line_number as int == spec_scan(lines@.subrange(0, i as int))[k].0
                    && out@[k].text@ == spec_scan(lines@.subrange(0, i as int))[k].1,
        decreases lines@.len() - i,
    {
        proof {
            let pre = lines@.subrange(0, i as int);
            let cur = lines@.subrange(0, i as int + 1);
            assert(cur.drop_last() =~= pre);
            assert(cur.last() == lines@[i as int]);
        }
        match &lines[i] {
            Some(l) => {
                if is_marker_line(l.as_str()) {
                    let loc = TodoLocation {
                        path: path.to_owned(),
                        line_number: i + 1,
                        text: trim_str(l.as_str()),
                    };
                    out.push(loc);
                }
            },
            None => {},
        }
        i = i + 1;
    }
    proof {
        assert(lines@.subrange(0, lines@.len() as int) =~= lines@);
    }
    out
}

} // verus!
