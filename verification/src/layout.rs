//! Content widths for horizontal scrolling, and the prefix / emphasis /
//! suffix slots of a compare-file row.

use vstd::prelude::*;
use crate::text;
use crate::text::{chars_of, push_all, string_from_chars};
use crate::view_models::{CompareFileRowViewModel, CompareFileTextSegmentViewModel};

verus! {

/// The displayed width in columns that `unicode_width` computes for a text.
pub uninterp spec fn display_width(text: Seq<char>) -> usize;

/// `unicode_width::UnicodeWidthStr::width`: the displayed width of a text in
/// columns, as the crate's tables give it. The contract ties the result to the
/// text alone and says nothing more of it.
#[verifier::external_body]
fn text_display_width(text: &str) -> (r: usize)
    ensures
        r == display_width(text@),
{
    unicode_width::UnicodeWidthStr::width(text)
}

/// A text with each tab replaced by four spaces.
pub open spec fn expand_tabs(s: Seq<char>) -> Seq<char>
    decreases s.len(),
{
    if s.len() == 0 {
        Seq::empty()
    } else {
        expand_tabs(s.drop_last()) + if s.last() == '\t' {
            seq![' ', ' ', ' ', ' ']
        } else {
            seq![s.last()]
        }
    }
}

/// A text with each tab replaced by four spaces.
pub fn expand_tab_chars(text: &str) -> (r: String)
    ensures
        r@ == expand_tabs(text@),
{
    let v = chars_of(text);
    let mut out: Vec<char> = Vec::new();
    for i in 0..v.len()
        invariant
            out@ == expand_tabs(v@.take(i as int)),
    {
        proof {
            assert(v@.take(i + 1).drop_last() =~= v@.take(i as int));
        }
        if v[i] == '\t' {
            out.push(' ');
            out.push(' ');
            out.push(' ');
            out.push(' ');
        } else {
            out.push(v[i]);
        }
        proof {
            assert(out@ =~= expand_tabs(v@.take(i + 1)));
        }
    }
    proof {
        assert(v@.take(v@.len() as int) =~= v@);
    }
    string_from_chars(&out)
}

pub open spec fn sat_mul(a: usize, b: usize) -> usize {
    if a * b > usize::MAX {
        usize::MAX
    } else {
        (a * b) as usize
    }
}

pub open spec fn sat_add(a: usize, b: usize) -> usize {
    if a + b > usize::MAX {
        usize::MAX
    } else {
        (a + b) as usize
    }
}

/// Pixels of a width in columns: eight per column plus padding, at least
/// `min`, capped at `i32::MAX`.
pub open spec fn width_px(units: usize, padding: usize, min: usize) -> i32 {
    let w = sat_add(sat_mul(units, 8), padding);
    let w = if w >= min {
        w
    } else {
        min
    };
    if w <= i32::MAX {
        w as i32
    } else {
        i32::MAX
    }
}

/// Pixels of a width in columns: eight per column plus padding, at least
/// `min`, capped at `i32::MAX`.
pub fn width_px_from_units(units: usize, padding: usize, min: usize) -> (r: i32)
    ensures
        r == width_px(units, padding, min),
{
    let scaled = match units.checked_mul(8) {
        Some(v) => v,
        None => usize::MAX,
    };
    let w = scaled.saturating_add(padding);
    let w = if w >= min {
        w
    } else {
        min
    };
    if w <= 2147483647usize {
        w as i32
    } else {
        i32::MAX
    }
}

/// Estimated pixel width of a compare-file line.
pub open spec fn file_text_width(text: Seq<char>) -> i32 {
    width_px(display_width(expand_tabs(text)), 28, 32)
}

/// Estimated pixel width of a Compare View label.
pub open spec fn label_width(text: Seq<char>) -> i32 {
    width_px(display_width(expand_tabs(text)), 12, 24)
}

/// Estimated pixel width of a compare-file line: its displayed columns
/// (tabs as four spaces) at eight pixels, plus 28, at least 32.
pub fn estimate_compare_file_text_width_px(text: &str) -> (r: i32)
    ensures
        r == file_text_width(text@),
{
    let normalized = expand_tab_chars(text);
    let units = text_display_width(normalized.as_str());
    width_px_from_units(units, 28, 32)
}

/// Estimated pixel width of a Compare View label: its displayed columns
/// (tabs as four spaces) at eight pixels, plus 12, at least 24.
pub fn estimate_compare_view_label_width_px(text: &str) -> (r: i32)
    ensures
        r == label_width(text@),
{
    let normalized = expand_tab_chars(text);
    let units = text_display_width(normalized.as_str());
    width_px_from_units(units, 12, 24)
}

/// Widest estimated width of the non-empty texts on one side of the first
/// `n` rows, 0 when there is none.
pub open spec fn side_width_upto(rows: Seq<CompareFileRowViewModel>, left: bool, n: int) -> i32
    decreases n,
{
    if n <= 0 {
        0
    } else {
        let prev = side_width_upto(rows, left, n - 1);
        let t = if left {
            rows[n - 1].left_text@
        } else {
            rows[n - 1].right_text@
        };
        if t.len() > 0 && file_text_width(t) > prev {
            file_text_width(t)
        } else {
            prev
        }
    }
}

fn side_content_width_px(rows: &[CompareFileRowViewModel], left: bool) -> (r: i32)
    ensures
        r == side_width_upto(rows@, left, rows@.len() as int),
{
    let mut best: i32 = 0;
    for i in 0..rows.len()
        invariant
            best == side_width_upto(rows@, left, i as int),
    {
        let t = if left {
            rows[i].left_text.as_str()
        } else {
            rows[i].right_text.as_str()
        };
        if t.unicode_len() > 0 {
            let w = estimate_compare_file_text_width_px(t);
            if w > best {
                best = w;
            }
        }
    }
    best
}

/// Widest estimated width of the non-empty left texts, 0 when there is none.
pub fn compare_file_left_content_width_px(rows: &[CompareFileRowViewModel]) -> (r: i32)
    ensures
        r == side_width_upto(rows@, true, rows@.len() as int),
{
    side_content_width_px(rows, true)
}

/// Widest estimated width of the non-empty right texts, 0 when there is none.
pub fn compare_file_right_content_width_px(rows: &[CompareFileRowViewModel]) -> (r: i32)
    ensures
        r == side_width_upto(rows@, false, rows@.len() as int),
{
    side_content_width_px(rows, false)
}

/// One row of the Compare View as the width estimate reads it: its depth and,
/// per side, whether the entry is present there and its name.
#[derive(Debug, Clone, PartialEq, Eq, Default)]
pub struct CompareViewRowProjection {
    pub depth: u16,
    pub left_present: bool,
    pub left_name: String,
    pub right_present: bool,
    pub right_name: String,
}

/// `i32` addition saturating at both ends.
pub open spec fn sat_add_i32(a: int, b: int) -> i32 {
    if a + b > i32::MAX {
        i32::MAX
    } else if a + b < i32::MIN {
        i32::MIN
    } else {
        (a + b) as i32
    }
}

/// Width of one side of a Compare View row: twelve pixels per level, sixty
/// fixed, plus the label, each step saturating.
pub open spec fn row_side_width(depth: u16, name: Seq<char>) -> i32 {
    sat_add_i32(sat_add_i32(depth * 12, 60) as int, label_width(name) as int)
}

/// Widest side width among the first `n` rows where the side is present with a name, 0 otherwise.
pub open spec fn view_width_upto(rows: Seq<CompareViewRowProjection>, left: bool, n: int) -> i32
    decreases n,
{
    if n <= 0 {
        0
    } else {
        let prev = view_width_upto(rows, left, n - 1);
        let r = rows[n - 1];
        let (present, name) = if left {
            (r.left_present, r.left_name@)
        } else {
            (r.right_present, r.right_name@)
        };
        if present && name.len() > 0 && row_side_width(r.depth, name) > prev {
            row_side_width(r.depth, name)
        } else {
            prev
        }
    }
}

/// The widest side of the Compare View rows where that side is present with a name.
pub fn compare_view_side_content_width_px(rows: &[CompareViewRowProjection], left_side: bool) -> (r:
    i32)
    ensures
        r == view_width_upto(rows@, left_side, rows@.len() as int),
{
    let mut best: i32 = 0;
    for i in 0..rows.len()
        invariant
            best == view_width_upto(rows@, left_side, i as int),
    {
        let row = &rows[i];
        let (present, name) = if left_side {
            (row.left_present, row.left_name.as_str())
        } else {
            (row.right_present, row.right_name.as_str())
        };
        if present && name.unicode_len() > 0 {
            let indent: i64 = (row.depth as i64) * 12 + 60;
            let label = estimate_compare_view_label_width_px(name);
            let total: i64 = indent + (label as i64);
            let w: i32 = if total > 2147483647i64 {
                i32::MAX
            } else {
                total as i32
            };
            if w > best {
                best = w;
            }
        }
    }
    best
}

/// Prefix, emphasis and suffix of the first `n` segments, and whether an
/// emphasis segment was seen.
pub open spec fn slots_upto(segs: Seq<CompareFileTextSegmentViewModel>, n: int) -> (
    Seq<char>,
    Seq<char>,
    Seq<char>,
    bool,
)
    decreases n,
{
    if n <= 0 {
        (Seq::empty(), Seq::empty(), Seq::empty(), false)
    } else {
        let (p, e, s, seen) = slots_upto(segs, n - 1);
        let seg = segs[n - 1];
        if seg.tone@ == "emphasis"@ {
            (p, e + seg.text@, s, true)
        } else if seen {
            (p, e, s + seg.text@, seen)
        } else {
            (p + seg.text@, e, s, seen)
        }
    }
}

/// The text before the first emphasis segment, of all emphasis segments, and
/// of the plain segments after the first emphasis.
pub fn compare_file_segment_slots(segments: &[CompareFileTextSegmentViewModel]) -> (r: (
    String,
    String,
    String,
))
    ensures
        (r.0@, r.1@, r.2@) == ({
            let t = slots_upto(segments@, segments@.len() as int);
            (t.0, t.1, t.2)
        }),
{
    let mut prefix: Vec<char> = Vec::new();
    let mut emphasis: Vec<char> = Vec::new();
    let mut suffix: Vec<char> = Vec::new();
    let mut seen_emphasis = false;
    for i in 0..segments.len()
        invariant
            (prefix@, emphasis@, suffix@, seen_emphasis) == slots_upto(segments@, i as int),
    {
        let segment = &segments[i];
        let t = chars_of(segment.text.as_str());
        if text::str_eq(segment.tone.as_str(), "emphasis") {
            push_all(&mut emphasis, &t);
            seen_emphasis = true;
        } else if seen_emphasis {
            push_all(&mut suffix, &t);
        } else {
            push_all(&mut prefix, &t);
        }
    }
    (string_from_chars(&prefix), string_from_chars(&emphasis), string_from_chars(&suffix))
}

} // verus!
