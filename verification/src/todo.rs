//! The core record types — a marker occurrence found during scanning and the
//! attributed record produced once history attribution has resolved it — and
//! the rendering of one record as a report line.

use vstd::prelude::*;
use vstd::string::StrSliceExecFns;
use vstd::string::StringExecFns;

use crate::color::blue_pre;
use crate::color::fg_post;
use crate::color::green_pre;
use crate::color::italic_pre;
use crate::color::paint_blue;
use crate::color::paint_green;
use crate::color::paint_italic;
use crate::color::paint_red;
use crate::color::paint_yellow;
use crate::color::red_pre;
use crate::color::style_post;
use crate::color::yellow_pre;
use crate::git::lemma_last_idx_none;
use crate::git::lemma_last_idx_some;
use crate::git::rfind_char_before;
use crate::git::spec_last_idx;
use crate::stats::days_of_secs;
use crate::stats::spec_days_of_secs;
use crate::stats::trunc_div;
use crate::stats::trunc_div_i64;
use crate::text::dec_i64;
use crate::text::dec_usize;
use crate::text::pad_right;
use crate::text::spec_dec_digits;
use crate::text::spec_dec_i64;
use crate::text::spec_pad_right;

verus! {

/// One line in one file flagged as containing a TODO-style marker.
/// `line_number` is 1-based and counts physical lines of the file.
#[derive(Clone)]
pub struct TodoLocation {
    pub path: String,
    pub line_number: usize,
    pub text: String,
}

/// One successfully attributed marker occurrence.
/// `timestamp` is the commit instant as seconds since the Unix epoch (UTC);
/// `age` is the elapsed seconds between resolution time and `timestamp`.
/// `abs_path` is the canonically resolved absolute path when resolution
/// could produce one, and equals `path` otherwise.
#[derive(Debug)]
pub struct Todo {
    pub path: String,
    pub abs_path: String,
    pub line_number: usize,
    pub text: String,
    pub author: String,
    pub timestamp: i64,
    pub age: i64,
}

/// Clamp a mathematical integer into the range of `i64`.
pub open spec fn clip_i64(v: int) -> int {
    if v > i64::MAX {
        i64::MAX as int
    } else if v < i64::MIN {
        i64::MIN as int
    } else {
        v
    }
}

/// The final component of a path: the text after the last `/`, or the whole
/// path when it has none.
pub open spec fn spec_filename(p: Seq<char>) -> Seq<char> {
    match spec_last_idx(p, '/') {
        None => p,
        Some(i) => p.subrange(i + 1, p.len() as int),
    }
}

/// The `name:line` reference of one record.
pub open spec fn spec_filename_line(t: Todo) -> Seq<char> {
    spec_filename(t.path@) + seq![':'] + spec_dec_digits(t.line_number as nat)
}

/// The age label of a record: ages of at least one whole day are rendered as
/// `N days`, padded to ten characters and colored by severity (red past 364
/// days, yellow past 60, green otherwise); younger ages fall back to whole
/// hours, then minutes, then seconds, unpadded and uncolored.
pub open spec fn spec_age_label(age: int) -> Seq<char> {
    let days = spec_days_of_secs(age);
    if days > 0 {
        let padded = spec_pad_right(spec_dec_i64(days) + " days"@, 10);
        if days > 364 {
            red_pre() + padded + fg_post()
        } else if days > 60 {
            yellow_pre() + padded + fg_post()
        } else {
            green_pre() + padded + fg_post()
        }
    } else {
        let hours = trunc_div(age, 3600);
        if hours > 0 {
            spec_dec_i64(hours) + " hours"@
        } else {
            let minutes = trunc_div(age, 60);
            if minutes > 0 {
                spec_dec_i64(minutes) + " minutes"@
            } else {
                spec_dec_i64(age) + " seconds"@
            }
        }
    }
}

/// Marker text cut to a width: unchanged when it fits; exactly three
/// truncation characters when three or fewer columns remain; otherwise the
/// text clipped to leave room for the three truncation characters.
pub open spec fn spec_truncate(text: Seq<char>, w: int) -> Seq<char> {
    if text.len() <= w {
        text
    } else if w <= 3 {
        "..."@
    } else {
        text.subrange(0, w - 3) + "..."@
    }
}

/// A clickable file reference: an OSC 8 hyperlink to the absolute path,
/// showing the padded `name:line` text in blue.
pub open spec fn spec_link(abs_path: Seq<char>, padded: Seq<char>) -> Seq<char> {
    "\u{1b}]8;;file://"@ + abs_path + "\u{1b}\\"@ + (blue_pre() + padded + fg_post())
        + "\u{1b}]8;;\u{1b}\\"@
}

/// One rendered report line: the age label padded to ten characters, the
/// author padded to the name column, the file link with its `name:line` text
/// padded to the path column, and the truncated marker text in italics.
pub open spec fn spec_render_line(t: Todo, name_w: int, file_w: int, text_w: int) -> Seq<char> {
    spec_pad_right(spec_age_label(t.age as int), 10) + seq![' '] + spec_pad_right(
        t.author@,
        name_w as nat,
    ) + seq![' '] + spec_link(t.abs_path@, spec_pad_right(spec_filename_line(t), file_w as nat))
        + seq![' '] + spec_pad_right(
        italic_pre() + spec_truncate(t.text@, text_w) + style_post(),
        text_w as nat,
    )
}

impl Todo {
    /// Seconds of age expressed as whole milliseconds, saturating at the
    /// integer limits; the structured output reports age in milliseconds.
    pub fn age_milliseconds(&self) -> (r: i64)
        ensures
            r == clip_i64(self.age * 1000),
    {
        if self.age > i64::MAX / 1000 {
            i64::MAX
        } else if self.age < i64::MIN / 1000 {
            i64::MIN
        } else {
            self.age * 1000
        }
    }

    fn filename(&self) -> (r: String)
        ensures
            r@ == spec_filename(self.path@),
    {
        let n = self.path.as_str().unicode_len();
        match rfind_char_before(self.path.as_str(), n, '/') {
            Some(i) => {
                proof {
                    lemma_last_idx_some(self.path@, '/', i as int);
                }
                self.path.as_str().substring_char(i + 1, n).to_owned()
            },
            None => {
                proof {
                    lemma_last_idx_none(self.path@, '/');
                }
                self.path.clone()
            },
        }
    }

    /// The `name:line` reference shown in the path column.
    pub fn filename_with_line_number(&self) -> (r: String)
        ensures
            r@ == spec_filename_line(*self),
    {
        proof {
            reveal_strlit(":");
        }
        let mut r = self.filename();
        r.append(":");
        let num = dec_usize(self.line_number);
        r.append(num.as_str());
        proof {
            assert(r@ =~= spec_filename_line(*self));
        }
        r
    }

    fn age_string(&self) -> (r: String)
        ensures
            r@ == spec_age_label(self.age as int),
    {
        let days = days_of_secs(self.age);
        if days > 0 {
            let mut s = dec_i64(days);
            s.append(" days");
            let padded = pad_right(s, 10);
            if days > 364 {
                paint_red(padded.as_str())
            } else if days > 60 {
                paint_yellow(padded.as_str())
            } else {
                paint_green(padded.as_str())
            }
        } else {
            let hours = trunc_div_i64(self.age, 3600);
            if hours > 0 {
                let mut s = dec_i64(hours);
                s.append(" hours");
                s
            } else {
                let minutes = trunc_div_i64(self.age, 60);
                if minutes > 0 {
                    let mut s = dec_i64(minutes);
                    s.append(" minutes");
                    s
                } else {
                    let mut s = dec_i64(self.age);
                    s.append(" seconds");
                    s
                }
            }
        }
    }

    /// Cut the marker text to the remaining display width.
    pub fn truncate_text(&self, max_width: usize) -> (r: String)
        ensures
            r@ == spec_truncate(self.text@, max_width as int),
            self.text@.len() > max_width && max_width > 3 ==> r@.len() == max_width,
            self.text@.len() > max_width && max_width <= 3 ==> r@.len() == 3,
    {
        proof {
            reveal_strlit("...");
        }
        let n = self.text.as_str().unicode_len();
        if n <= max_width {
            self.text.clone()
        } else if max_width <= 3 {
            "...".to_owned()
        } else {
            let mut s = self.text.as_str().substring_char(0, max_width - 3).to_owned();
            s.append("...");
            s
        }
    }

    /// Render this record as one report line for the given layout: name
    /// column width, path column width, and total display width.
    pub fn to_string(
        &self,
        max_name_length: usize,
        max_filename_length: usize,
        terminal_width: usize,
    ) -> (r: String)
        requires
            terminal_width >= max_name_length + max_filename_length + 30,
        ensures
            r@ == spec_render_line(
                *self,
                max_name_length as int,
                max_filename_length as int,
                terminal_width - max_name_length - max_filename_length - 30,
            ),
    {
        proof {
            reveal_strlit(" ");
        }
        let text_width = terminal_width - max_name_length - max_filename_length - 30;

        let plain = self.filename_with_line_number();
        let padded_file = pad_right(plain, max_filename_length);
        let mut link: String = "\u{1b}]8;;file://".to_owned();
        link.append(self.abs_path.as_str());
        link.append("\u{1b}\\");
        let blue = paint_blue(padded_file.as_str());
        link.append(blue.as_str());
        link.append("\u{1b}]8;;\u{1b}\\");

        let age_p = pad_right(self.age_string(), 10);
        let author_p = pad_right(self.author.clone(), max_name_length);
        let trunc = self.truncate_text(text_width);
        let ital = paint_italic(trunc.as_str());
        let text_p = pad_right(ital, text_width);

        let mut out = age_p;
        out.append(" ");
        out.append(author_p.as_str());
        out.append(" ");
        out.append(link.as_str());
        out.append(" ");
        out.append(text_p.as_str());
        proof {
            assert(out@ =~= spec_render_line(
                *self,
                max_name_length as int,
                max_filename_length as int,
                text_width as int,
            ));
        }
        out
    }
}

} // verus!
