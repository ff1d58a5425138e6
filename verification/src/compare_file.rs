//! Side-by-side compare-file projection of text diffs and file previews.

use vstd::prelude::*;
use crate::core_model::{DiffHunk, DiffLine, DiffLineKind, TextDiffResult};
use crate::compare_foundation::opt_view;
use crate::text;
use crate::text::{chars_of, push_all, push_dec_usize, push_str, string_from_chars};
use crate::view_models::{
    CompareEntryRowViewModel, CompareFilePanelViewModel, CompareFileRowViewModel,
    CompareFileTextSegmentViewModel,
};

verus! {

// ---------------------------------------------------------------------------
// Segments
// ---------------------------------------------------------------------------

/// Text and tone of a segment.
pub open spec fn seg_view(s: CompareFileTextSegmentViewModel) -> (Seq<char>, Seq<char>) {
    (s.text@, s.tone@)
}

pub open spec fn segs_view(v: Seq<CompareFileTextSegmentViewModel>) -> Seq<(Seq<char>, Seq<char>)> {
    v.map_values(|s: CompareFileTextSegmentViewModel| seg_view(s))
}

/// One plain segment holding the whole text.
pub open spec fn plain_spec(t: Seq<char>) -> Seq<(Seq<char>, Seq<char>)> {
    seq![(t, "plain"@)]
}

/// Plain prefix, emphasized focus and plain suffix, each only when not
/// empty; one empty plain segment when all three are.
pub open spec fn runs_spec(p: Seq<char>, f: Seq<char>, s: Seq<char>) -> Seq<(Seq<char>, Seq<char>)> {
    let a = (if p.len() > 0 {
        seq![(p, "plain"@)]
    } else {
        Seq::empty()
    }) + (if f.len() > 0 {
        seq![(f, "emphasis"@)]
    } else {
        Seq::empty()
    }) + (if s.len() > 0 {
        seq![(s, "plain"@)]
    } else {
        Seq::empty()
    });
    if a.len() == 0 {
        seq![(Seq::<char>::empty(), "plain"@)]
    } else {
        a
    }
}

/// Length of the common prefix of `a` and `b` from position `i` on, plus `i`.
pub open spec fn cp_from(a: Seq<char>, b: Seq<char>, i: int) -> int
    decreases a.len() - i,
{
    if 0 <= i && i < a.len() && i < b.len() && a[i] == b[i] {
        cp_from(a, b, i + 1)
    } else {
        i
    }
}

/// Length of the common suffix of `a` and `b` within what follows `p`,
/// counted from `j`.
pub open spec fn cs_from(a: Seq<char>, b: Seq<char>, p: int, j: int) -> int
    decreases a.len() - p - j,
{
    if 0 <= j && j < a.len() - p && j < b.len() - p && a[a.len() - 1 - j] == b[b.len() - 1 - j] {
        cs_from(a, b, p, j + 1)
    } else {
        j
    }
}

/// The segments of a changed line pair: the common prefix and suffix plain,
/// what lies between emphasized; a plain segment each when the lines are equal.
pub open spec fn emphasis_spec(a: Seq<char>, b: Seq<char>) -> (
    Seq<(Seq<char>, Seq<char>)>,
    Seq<(Seq<char>, Seq<char>)>,
) {
    if a == b {
        (plain_spec(a), plain_spec(b))
    } else {
        let p = cp_from(a, b, 0);
        let s = cs_from(a, b, p, 0);
        (
            runs_spec(a.take(p), a.subrange(p, a.len() - s), a.skip(a.len() - s)),
            runs_spec(b.take(p), b.subrange(p, b.len() - s), b.skip(b.len() - s)),
        )
    }
}

fn segment(text: String, tone: &str) -> (r: CompareFileTextSegmentViewModel)
    ensures
        seg_view(r) == (text@, tone@),
{
    CompareFileTextSegmentViewModel { text, tone: text::to_string(tone) }
}

/// The whole text as one plain segment.
pub fn plain_segments(text: &str) -> (r: Vec<CompareFileTextSegmentViewModel>)
    ensures
        segs_view(r@) == plain_spec(text@),
{
    let r = vec![segment(text::to_string(text), "plain")];
    assert(segs_view(r@) =~= plain_spec(text@));
    r
}

/// Plain prefix, emphasized focus, plain suffix, leaving out empty parts.
pub fn build_segment_runs(prefix: &str, focus: &str, suffix: &str) -> (r: Vec<
    CompareFileTextSegmentViewModel,
>)
    ensures
        segs_view(r@) == runs_spec(prefix@, focus@, suffix@),
{
    let mut segments: Vec<CompareFileTextSegmentViewModel> = Vec::new();
    if prefix.unicode_len() > 0 {
        segments.push(segment(text::to_string(prefix), "plain"));
    }
    if focus.unicode_len() > 0 {
        segments.push(segment(text::to_string(focus), "emphasis"));
    }
    if suffix.unicode_len() > 0 {
        segments.push(segment(text::to_string(suffix), "plain"));
    }
    if segments.len() == 0 {
        segments.push(segment(String::new(), "plain"));
    }
    assert(segs_view(segments@) =~= runs_spec(prefix@, focus@, suffix@));
    segments
}

/// Segments of both lines of a changed pair, the part between their common
/// prefix and suffix emphasized.
pub fn emphasize_inline_difference(left: &str, right: &str) -> (r: (
    Vec<CompareFileTextSegmentViewModel>,
    Vec<CompareFileTextSegmentViewModel>,
))
    ensures
        (segs_view(r.0@), segs_view(r.1@)) == emphasis_spec(left@, right@),
{
    if text::str_eq(left, right) {
        return (plain_segments(left), plain_segments(right));
    }
    let a = chars_of(left);
    let b = chars_of(right);
    let mut prefix: usize = 0;
    while prefix < a.len() && prefix < b.len() && a[prefix] == b[prefix]
        invariant
            prefix <= a@.len(),
            prefix <= b@.len(),
            cp_from(a@, b@, 0) == cp_from(a@, b@, prefix as int),
        decreases a@.len() - prefix,
    {
        prefix = prefix + 1;
    }
    let mut suffix: usize = 0;
    while suffix < a.len() - prefix && suffix < b.len() - prefix && a[a.len() - 1 - suffix]
        == b[b.len() - 1 - suffix]
        invariant
            prefix <= a@.len(),
            prefix <= b@.len(),
            suffix <= a@.len() - prefix,
            suffix <= b@.len() - prefix,
            cp_from(a@, b@, 0) == prefix,
            cs_from(a@, b@, prefix as int, 0) == cs_from(a@, b@, prefix as int, suffix as int),
        decreases a@.len() - suffix,
    {
        suffix = suffix + 1;
    }
    let la = a.len() - suffix;
    let lb = b.len() - suffix;
    let left_prefix = string_from_chars(&text::slice_chars(&a, 0, prefix));
    let right_prefix = string_from_chars(&text::slice_chars(&b, 0, prefix));
    let left_focus = string_from_chars(&text::slice_chars(&a, prefix, la));
    let right_focus = string_from_chars(&text::slice_chars(&b, prefix, lb));
    let left_suffix = string_from_chars(&text::slice_chars(&a, la, a.len()));
    let right_suffix = string_from_chars(&text::slice_chars(&b, lb, b.len()));
    proof {
        assert(a@.subrange(0, prefix as int) =~= a@.take(prefix as int));
        assert(b@.subrange(0, prefix as int) =~= b@.take(prefix as int));
        assert(a@.subrange(la as int, a@.len() as int) =~= a@.skip(la as int));
        assert(b@.subrange(lb as int, b@.len() as int) =~= b@.skip(lb as int));
    }
    (
        build_segment_runs(left_prefix.as_str(), left_focus.as_str(), left_suffix.as_str()),
        build_segment_runs(right_prefix.as_str(), right_focus.as_str(), right_suffix.as_str()),
    )
}

/// The texts of segments, one after another.
pub open spec fn concat_texts(v: Seq<(Seq<char>, Seq<char>)>) -> Seq<char>
    decreases v.len(),
{
    if v.len() == 0 {
        Seq::empty()
    } else {
        concat_texts(v.drop_last()) + v.last().0
    }
}

proof fn lemma_runs_spell(p: Seq<char>, f: Seq<char>, s: Seq<char>)
    ensures
        concat_texts(runs_spec(p, f, s)) == p + f + s,
{
    let a0: Seq<(Seq<char>, Seq<char>)> = if p.len() > 0 {
        seq![(p, "plain"@)]
    } else {
        Seq::empty()
    };
    let a1 = a0 + (if f.len() > 0 {
        seq![(f, "emphasis"@)]
    } else {
        Seq::empty()
    });
    let a2 = a1 + (if s.len() > 0 {
        seq![(s, "plain"@)]
    } else {
        Seq::empty()
    });
    reveal_with_fuel(concat_texts, 2);
    assert(concat_texts(a0) =~= p) by {
        if p.len() > 0 {
            assert(a0.drop_last() =~= Seq::<(Seq<char>, Seq<char>)>::empty());
        }
    }
    assert(concat_texts(a1) =~= p + f) by {
        if f.len() > 0 {
            assert(a1.drop_last() =~= a0);
        } else {
            assert(a1 =~= a0);
        }
    }
    assert(concat_texts(a2) =~= p + f + s) by {
        if s.len() > 0 {
            assert(a2.drop_last() =~= a1);
        } else {
            assert(a2 =~= a1);
        }
    }
    if a2.len() == 0 {
        let e = seq![(Seq::<char>::empty(), "plain"@)];
        assert(e.drop_last() =~= Seq::<(Seq<char>, Seq<char>)>::empty());
        assert(concat_texts(e) =~= Seq::<char>::empty());
    }
}

proof fn lemma_cp_bound(a: Seq<char>, b: Seq<char>, i: int)
    requires
        0 <= i <= a.len(),
        i <= b.len(),
    ensures
        i <= cp_from(a, b, i) <= a.len(),
        cp_from(a, b, i) <= b.len(),
    decreases a.len() - i,
{
    if i < a.len() && i < b.len() && a[i] == b[i] {
        lemma_cp_bound(a, b, i + 1);
    }
}

proof fn lemma_cs_bound(a: Seq<char>, b: Seq<char>, p: int, j: int)
    requires
        0 <= p <= a.len(),
        p <= b.len(),
        0 <= j <= a.len() - p,
        j <= b.len() - p,
    ensures
        j <= cs_from(a, b, p, j) <= a.len() - p,
        cs_from(a, b, p, j) <= b.len() - p,
    decreases a.len() - p - j,
{
    if j < a.len() - p && j < b.len() - p && a[a.len() - 1 - j] == b[b.len() - 1 - j] {
        lemma_cs_bound(a, b, p, j + 1);
    }
}

/// The segments of each line of a changed pair spell that line.
pub proof fn lemma_emphasis_spells_lines(a: Seq<char>, b: Seq<char>)
    ensures
        concat_texts(emphasis_spec(a, b).0) == a,
        concat_texts(emphasis_spec(a, b).1) == b,
{
    reveal_with_fuel(concat_texts, 2);
    if a == b {
        assert(plain_spec(a).drop_last() =~= Seq::<(Seq<char>, Seq<char>)>::empty());
        assert(plain_spec(b).drop_last() =~= Seq::<(Seq<char>, Seq<char>)>::empty());
        assert(concat_texts(plain_spec(a)) =~= a);
        assert(concat_texts(plain_spec(b)) =~= b);
    } else {
        lemma_cp_bound(a, b, 0);
        let p = cp_from(a, b, 0);
        lemma_cs_bound(a, b, p, 0);
        let s = cs_from(a, b, p, 0);
        lemma_runs_spell(a.take(p), a.subrange(p, a.len() - s), a.skip(a.len() - s));
        lemma_runs_spell(b.take(p), b.subrange(p, b.len() - s), b.skip(b.len() - s));
        assert(a.take(p) + a.subrange(p, a.len() - s) + a.skip(a.len() - s) =~= a);
        assert(b.take(p) + b.subrange(p, b.len() - s) + b.skip(b.len() - s) =~= b);
    }
}

/// Both lines of a changed pair keep the same plain prefix and suffix.
pub proof fn lemma_emphasis_shares_context(a: Seq<char>, b: Seq<char>)
    requires
        a != b,
    ensures
        ({
            let p = cp_from(a, b, 0);
            let s = cs_from(a, b, p, 0);
            a.take(p) == b.take(p) && a.skip(a.len() - s) == b.skip(b.len() - s)
        }),
{
    assert(a.take(0) =~= b.take(0));
    lemma_cp_prefix(a, b, 0);
    lemma_cp_bound(a, b, 0);
    let p = cp_from(a, b, 0);
    assert(a.skip(a.len() - 0) =~= b.skip(b.len() - 0));
    lemma_cs_suffix(a, b, p, 0);
    lemma_cs_bound(a, b, p, 0);
}

/// The tone of character `k` of the text that segments spell.
pub open spec fn tone_at(v: Seq<(Seq<char>, Seq<char>)>, k: int) -> Seq<char>
    decreases v.len(),
{
    if v.len() == 0 {
        Seq::empty()
    } else if k < v[0].0.len() {
        v[0].1
    } else {
        tone_at(v.drop_first(), k - v[0].0.len())
    }
}

/// Segments spell `x`, at most one plain run, one emphasized run and one
/// plain run, each non-empty (a single empty plain segment for empty `x`),
/// and the characters at `p` up to `s` from the end are exactly the
/// emphasized ones. Two neighbouring segments share a tone only when nothing
/// is emphasized: then they are the part before `p` and the part after it.
pub open spec fn marks_span(v: Seq<(Seq<char>, Seq<char>)>, x: Seq<char>, p: int, s: int) -> bool {
    &&& concat_texts(v) == x
    &&& 1 <= v.len() <= 3
    &&& forall|i: int|
        0 <= i < v.len() - 1 && (#[trigger] v[i]).1 == v[i + 1].1 ==> x.len() - s <= p && v.len() == 2
            && v[0].0.len() == p
    &&& forall|i: int|
        0 <= i < v.len() ==> ((#[trigger] v[i]).1 == "plain"@ || v[i].1 == "emphasis"@) && (v.len()
            > 1 ==> v[i].0.len() > 0)
    &&& forall|k: int|
        0 <= k < x.len() ==> #[trigger] tone_at(v, k) == if p <= k < x.len() - s {
            "emphasis"@
        } else {
            "plain"@
        }
}

proof fn lemma_runs_mark(x: Seq<char>, y: Seq<char>, z: Seq<char>)
    ensures
        marks_span(runs_spec(x, y, z), x + y + z, x.len() as int, z.len() as int),
{
    reveal_with_fuel(tone_at, 4);
    reveal_with_fuel(concat_texts, 4);
    lemma_runs_spell(x, y, z);
    let v = runs_spec(x, y, z);
    let t = x + y + z;
    let px: Seq<(Seq<char>, Seq<char>)> = if x.len() > 0 { seq![(x, "plain"@)] } else { Seq::empty() };
    let py: Seq<(Seq<char>, Seq<char>)> = if y.len() > 0 { seq![(y, "emphasis"@)] } else { Seq::empty() };
    let pz: Seq<(Seq<char>, Seq<char>)> = if z.len() > 0 { seq![(z, "plain"@)] } else { Seq::empty() };
    let w = px + py + pz;
    if w.len() == 0 {
        assert(v == seq![(Seq::<char>::empty(), "plain"@)]);
        assert(t.len() == 0);
    } else {
        assert(v == w);
        reveal_strlit("plain");
        reveal_strlit("emphasis");
        assert("plain"@[0] != "emphasis"@[0]);
        assert forall|i: int|
            0 <= i < v.len() - 1 && (#[trigger] v[i]).1 == v[i + 1].1 implies t.len() - z.len()
            <= x.len() && v.len() == 2 && v[0].0.len() == x.len() by {
            if y.len() > 0 {
                if x.len() > 0 {
                    assert(v[0].1 == "plain"@ && v[1].1 == "emphasis"@);
                    if z.len() > 0 {
                        assert(v[2].1 == "plain"@);
                    }
                } else {
                    assert(v[0].1 == "emphasis"@);
                    if z.len() > 0 {
                        assert(v[1].1 == "plain"@);
                    }
                }
            } else {
                assert(x.len() > 0 && z.len() > 0);
                assert(v[0] == (x, "plain"@));
            }
        }
        assert forall|k: int| 0 <= k < t.len() implies #[trigger] tone_at(v, k) == if x.len() <= k
            < t.len() - z.len() {
            "emphasis"@
        } else {
            "plain"@
        } by {
            if x.len() > 0 {
                assert(v[0] == (x, "plain"@));
                if k >= x.len() {
                    assert(v.drop_first() == py + pz);
                    if y.len() > 0 {
                        assert(v.drop_first()[0] == (y, "emphasis"@));
                        if k >= x.len() + y.len() {
                            assert(v.drop_first().drop_first() == pz);
                        }
                    } else {
                        assert(v.drop_first() == pz);
                    }
                }
            } else if y.len() > 0 {
                assert(v[0] == (y, "emphasis"@));
                if k >= y.len() {
                    assert(v.drop_first() == pz);
                }
            } else {
                assert(v == pz);
            }
        }
    }
}

proof fn lemma_cp_stops(a: Seq<char>, b: Seq<char>, i: int)
    requires
        0 <= i,
    ensures
        ({
            let c = cp_from(a, b, i);
            c < a.len() && c < b.len() ==> a[c] != b[c]
        }),
    decreases a.len() - i,
{
    if i < a.len() && i < b.len() && a[i] == b[i] {
        lemma_cp_stops(a, b, i + 1);
    }
}

proof fn lemma_cs_stops(a: Seq<char>, b: Seq<char>, p: int, j: int)
    requires
        0 <= j,
    ensures
        ({
            let c = cs_from(a, b, p, j);
            c < a.len() - p && c < b.len() - p ==> a[a.len() - 1 - c] != b[b.len() - 1 - c]
        }),
    decreases a.len() - p - j,
{
    if j < a.len() - p && j < b.len() - p && a[a.len() - 1 - j] == b[b.len() - 1 - j] {
        lemma_cs_stops(a, b, p, j + 1);
    }
}

/// Of two different lines, exactly the changed span is emphasized on each
/// side: a common prefix that cannot be extended (it ends a line, or the next
/// characters differ) and, after it, a common suffix that cannot be extended
/// either stay plain, and everything between them is emphasized. Equal lines
/// are one plain segment each.
pub proof fn lemma_emphasis_marks_the_change(a: Seq<char>, b: Seq<char>)
    ensures
        a == b ==> emphasis_spec(a, b) == (seq![(a, "plain"@)], seq![(b, "plain"@)]),
        a != b ==> exists|p: int, s: int|
            {
                &&& 0 <= p && 0 <= s && p + s <= a.len() && p + s <= b.len()
                &&& a.take(p) == b.take(p)
                &&& a.skip(a.len() - s) == b.skip(b.len() - s)
                &&& (p == a.len() || p == b.len() || a[p] != b[p])
                &&& (p + s == a.len() || p + s == b.len() || a[a.len() - 1 - s] != b[b.len() - 1 - s])
                &&& marks_span(emphasis_spec(a, b).0, a, p, s)
                &&& #[trigger] marks_span(emphasis_spec(a, b).1, b, p, s)
            },
{
    if a != b {
        let p = cp_from(a, b, 0);
        lemma_cp_bound(a, b, 0);
        let s = cs_from(a, b, p, 0);
        lemma_cs_bound(a, b, p, 0);
        lemma_cp_stops(a, b, 0);
        lemma_cs_stops(a, b, p, 0);
        lemma_emphasis_shares_context(a, b);
        lemma_runs_mark(a.take(p), a.subrange(p, a.len() - s), a.skip(a.len() - s));
        lemma_runs_mark(b.take(p), b.subrange(p, b.len() - s), b.skip(b.len() - s));
        assert(a.take(p) + a.subrange(p, a.len() - s) + a.skip(a.len() - s) =~= a);
        assert(b.take(p) + b.subrange(p, b.len() - s) + b.skip(b.len() - s) =~= b);
        assert(marks_span(emphasis_spec(a, b).1, b, p, s));
    }
}

proof fn lemma_cp_prefix(a: Seq<char>, b: Seq<char>, i: int)
    requires
        0 <= i <= a.len(),
        i <= b.len(),
        a.take(i) == b.take(i),
    ensures
        a.take(cp_from(a, b, i)) == b.take(cp_from(a, b, i)),
    decreases a.len() - i,
{
    if i < a.len() && i < b.len() && a[i] == b[i] {
        assert(a.take(i + 1) =~= a.take(i).push(a[i]));
        assert(b.take(i + 1) =~= b.take(i).push(b[i]));
        lemma_cp_prefix(a, b, i + 1);
    }
}

proof fn lemma_cs_suffix(a: Seq<char>, b: Seq<char>, p: int, j: int)
    requires
        0 <= p <= a.len(),
        p <= b.len(),
        0 <= j <= a.len() - p,
        j <= b.len() - p,
        a.skip(a.len() - j) == b.skip(b.len() - j),
    ensures
        a.skip(a.len() - cs_from(a, b, p, j)) == b.skip(b.len() - cs_from(a, b, p, j)),
    decreases a.len() - p - j,
{
    if j < a.len() - p && j < b.len() - p && a[a.len() - 1 - j] == b[b.len() - 1 - j] {
        assert(a.skip(a.len() - (j + 1)) =~= seq![a[a.len() - 1 - j]] + a.skip(a.len() - j));
        assert(b.skip(b.len() - (j + 1)) =~= seq![b[b.len() - 1 - j]] + b.skip(b.len() - j));
        lemma_cs_suffix(a, b, p, j + 1);
    }
}

// ---------------------------------------------------------------------------
// Rows
// ---------------------------------------------------------------------------

pub open spec fn row_head(
    r: CompareFileRowViewModel,
    kind: Seq<char>,
    label: Seq<char>,
    tone: Seq<char>,
    left_no: Option<usize>,
    right_no: Option<usize>,
    left_text: Seq<char>,
    right_text: Seq<char>,
    left_padding: bool,
    right_padding: bool,
) -> bool {
    &&& r.row_kind@ == kind
    &&& r.relation_label@ == label
    &&& r.relation_tone@ == tone
    &&& r.left_line_no == left_no
    &&& r.right_line_no == right_no
    &&& r.left_text@ == left_text
    &&& r.right_text@ == right_text
    &&& r.left_padding == left_padding
    &&& r.right_padding == right_padding
    &&& r.focusable
}

/// The row of an unchanged line: the same text, plain, on both sides.
pub open spec fn context_row(r: CompareFileRowViewModel, line: DiffLine) -> bool {
    &&& row_head(r, "context"@, Seq::empty(), "context"@, line.old_line_no, line.new_line_no, line.content@, line.content@, false, false)
    &&& segs_view(r.left_segments@) == plain_spec(line.content@)
    &&& segs_view(r.right_segments@) == plain_spec(line.content@)
}

/// The row of a removed line paired with an added line, their difference emphasized.
pub open spec fn modified_row(r: CompareFileRowViewModel, left: DiffLine, right: DiffLine) -> bool {
    &&& row_head(r, "modified"@, "Diff"@, "modified"@, left.old_line_no, right.new_line_no, left.content@, right.content@, false, false)
    &&& (segs_view(r.left_segments@), segs_view(r.right_segments@)) == emphasis_spec(
        left.content@,
        right.content@,
    )
}

/// The row of a removed line without a partner.
pub open spec fn left_only_row(r: CompareFileRowViewModel, left: DiffLine) -> bool {
    &&& row_head(r, "left-only"@, "Left"@, "left"@, left.old_line_no, None, left.content@, Seq::empty(), false, true)
    &&& segs_view(r.left_segments@) == plain_spec(left.content@)
    &&& r.right_segments@.len() == 0
}

/// The row of an added line without a partner.
pub open spec fn right_only_row(r: CompareFileRowViewModel, right: DiffLine) -> bool {
    &&& row_head(r, "right-only"@, "Right"@, "right"@, None, right.new_line_no, Seq::empty(), right.content@, true, false)
    &&& r.left_segments@.len() == 0
    &&& segs_view(r.right_segments@) == plain_spec(right.content@)
}

fn build_context_row(line: &DiffLine) -> (r: CompareFileRowViewModel)
    ensures
        context_row(r, *line),
{
    CompareFileRowViewModel {
        row_kind: text::to_string("context"),
        relation_label: String::new(),
        relation_tone: text::to_string("context"),
        left_line_no: line.old_line_no,
        right_line_no: line.new_line_no,
        left_text: line.content.clone(),
        right_text: line.content.clone(),
        left_segments: plain_segments(line.content.as_str()),
        right_segments: plain_segments(line.content.as_str()),
        left_padding: false,
        right_padding: false,
        focusable: true,
    }
}

fn build_modified_row(left: &DiffLine, right: &DiffLine) -> (r: CompareFileRowViewModel)
    ensures
        modified_row(r, *left, *right),
{
    let (left_segments, right_segments) = emphasize_inline_difference(
        left.content.as_str(),
        right.content.as_str(),
    );
    CompareFileRowViewModel {
        row_kind: text::to_string("modified"),
        relation_label: text::to_string("Diff"),
        relation_tone: text::to_string("modified"),
        left_line_no: left.old_line_no,
        right_line_no: right.new_line_no,
        left_text: left.content.clone(),
        right_text: right.content.clone(),
        left_segments,
        right_segments,
        left_padding: false,
        right_padding: false,
        focusable: true,
    }
}

fn build_left_only_row(left: &DiffLine) -> (r: CompareFileRowViewModel)
    ensures
        left_only_row(r, *left),
{
    CompareFileRowViewModel {
        row_kind: text::to_string("left-only"),
        relation_label: text::to_string("Left"),
        relation_tone: text::to_string("left"),
        left_line_no: left.old_line_no,
        right_line_no: None,
        left_text: left.content.clone(),
        right_text: String::new(),
        left_segments: plain_segments(left.content.as_str()),
        right_segments: Vec::new(),
        left_padding: false,
        right_padding: true,
        focusable: true,
    }
}

fn build_right_only_row(right: &DiffLine) -> (r: CompareFileRowViewModel)
    ensures
        right_only_row(r, *right),
{
    CompareFileRowViewModel {
        row_kind: text::to_string("right-only"),
        relation_label: text::to_string("Right"),
        relation_tone: text::to_string("right"),
        left_line_no: None,
        right_line_no: right.new_line_no,
        left_text: String::new(),
        right_text: right.content.clone(),
        left_segments: Vec::new(),
        right_segments: plain_segments(right.content.as_str()),
        left_padding: true,
        right_padding: false,
        focusable: true,
    }
}

/// How a row of a hunk is made: from a context line, a pair, or a lone
/// removed or added line (indices into the hunk's lines).
pub enum RowPlan {
    Context(int),
    Modified(int, int),
    LeftOnly(int),
    RightOnly(int),
}

/// End of the run of changed lines that starts at `i`.
pub open spec fn block_end(lines: Seq<DiffLine>, i: int) -> int
    decreases lines.len() - i,
{
    if 0 <= i < lines.len() && lines[i].kind != DiffLineKind::Context {
        block_end(lines, i + 1)
    } else {
        i
    }
}

/// Indices of the lines of `kind` in `[i, j)`, in order.
pub open spec fn kind_indices(lines: Seq<DiffLine>, kind: DiffLineKind, i: int, j: int) -> Seq<int>
    decreases j - i,
{
    if j <= i {
        Seq::empty()
    } else {
        kind_indices(lines, kind, i, j - 1) + if lines[j - 1].kind == kind {
            seq![j - 1]
        } else {
            Seq::empty()
        }
    }
}

/// The k-th removed line paired with the k-th added line; the longer list's
/// surplus stands alone.
pub open spec fn pair_plans(removed: Seq<int>, added: Seq<int>) -> Seq<RowPlan> {
    let n = if removed.len() >= added.len() {
        removed.len()
    } else {
        added.len()
    };
    Seq::new(
        n,
        |k: int|
            if k < removed.len() && k < added.len() {
                RowPlan::Modified(removed[k], added[k])
            } else if k < removed.len() {
                RowPlan::LeftOnly(removed[k])
            } else {
                RowPlan::RightOnly(added[k])
            },
    )
}

/// The rows of a hunk from line `i` on: a context line makes its own row; a
/// run of changed lines makes the paired rows of its removed and added lines.
pub open spec fn plan_from(lines: Seq<DiffLine>, i: int) -> Seq<RowPlan>
    decreases lines.len() - i,
{
    if i < 0 || i >= lines.len() {
        Seq::empty()
    } else if lines[i].kind == DiffLineKind::Context {
        seq![RowPlan::Context(i)] + plan_from(lines, i + 1)
    } else {
        let j = block_end(lines, i);
        if j <= i || j > lines.len() {
            Seq::empty()
        } else {
            pair_plans(
                kind_indices(lines, DiffLineKind::Removed, i, j),
                kind_indices(lines, DiffLineKind::Added, i, j),
            ) + plan_from(lines, j)
        }
    }
}

/// Row `r` is made from `lines` as `plan` says.
pub open spec fn row_by_plan(r: CompareFileRowViewModel, lines: Seq<DiffLine>, plan: RowPlan) -> bool {
    match plan {
        RowPlan::Context(i) => context_row(r, lines[i]),
        RowPlan::Modified(i, j) => modified_row(r, lines[i], lines[j]),
        RowPlan::LeftOnly(i) => left_only_row(r, lines[i]),
        RowPlan::RightOnly(j) => right_only_row(r, lines[j]),
    }
}

/// Rows `rows` are made from `lines` by `plans`, one each.
pub open spec fn rows_by_plans(
    rows: Seq<CompareFileRowViewModel>,
    lines: Seq<DiffLine>,
    plans: Seq<RowPlan>,
) -> bool {
    &&& rows.len() == plans.len()
    &&& forall|k: int| 0 <= k < rows.len() ==> #[trigger] row_by_plan(rows[k], lines, plans[k])
}

proof fn lemma_block_end_bound(lines: Seq<DiffLine>, i: int)
    requires
        0 <= i <= lines.len(),
    ensures
        i <= block_end(lines, i) <= lines.len(),
        forall|k: int| i <= k < block_end(lines, i) ==> lines[k].kind != DiffLineKind::Context,
    decreases lines.len() - i,
{
    if i < lines.len() && lines[i].kind != DiffLineKind::Context {
        lemma_block_end_bound(lines, i + 1);
    }
}

proof fn lemma_kind_indices_bound(lines: Seq<DiffLine>, kind: DiffLineKind, i: int, j: int)
    requires
        0 <= i,
        j <= lines.len(),
    ensures
        forall|k: int|
            0 <= k < kind_indices(lines, kind, i, j).len() ==> i <= #[trigger] kind_indices(
                lines,
                kind,
                i,
                j,
            )[k] < j && lines[kind_indices(lines, kind, i, j)[k]].kind == kind,
    decreases j - i,
{
    if j > i {
        lemma_kind_indices_bound(lines, kind, i, j - 1);
    }
}

/// The rows of one hunk.
fn project_hunk_rows(hunk: &DiffHunk) -> (r: Vec<CompareFileRowViewModel>)
    ensures
        rows_by_plans(r@, hunk.lines@, plan_from(hunk.lines@, 0)),
{
    let ghost lines = hunk.lines@;
    let mut rows: Vec<CompareFileRowViewModel> = Vec::new();
    let mut cursor: usize = 0;
    while cursor < hunk.lines.len()
        invariant
            lines == hunk.lines@,
            cursor <= lines.len(),
            rows_by_plans(rows@, lines, plan_from(lines, 0).take(plan_from(lines, 0).len() - plan_from(lines, cursor as int).len())),
            plan_from(lines, 0) == plan_from(lines, 0).take(plan_from(lines, 0).len() - plan_from(lines, cursor as int).len()) + plan_from(lines, cursor as int),
        decreases lines.len() - cursor,
    {
        let ghost before = rows@;
        let ghost done = plan_from(lines, 0).take(plan_from(lines, 0).len() - plan_from(lines, cursor as int).len());
        let line = &hunk.lines[cursor];
        if line.kind == DiffLineKind::Context {
            rows.push(build_context_row(line));
            proof {
                let rest = plan_from(lines, cursor + 1);
                assert(plan_from(lines, cursor as int) == seq![RowPlan::Context(cursor as int)] + rest);
                let nd = done.push(RowPlan::Context(cursor as int));
                assert(plan_from(lines, 0) =~= nd + rest);
                assert(plan_from(lines, 0).take(plan_from(lines, 0).len() - rest.len()) =~= nd);
                assert forall|k: int| 0 <= k < rows@.len() implies #[trigger] row_by_plan(rows@[k], lines, nd[k]) by {
                    if k < before.len() {
                        assert(rows@[k] == before[k]);
                        assert(row_by_plan(before[k], lines, done[k]));
                    }
                }
            }
            cursor = cursor + 1;
        } else {
            let start = cursor;
            while cursor < hunk.lines.len() && hunk.lines[cursor].kind != DiffLineKind::Context
                invariant
                    lines == hunk.lines@,
                    start <= cursor <= lines.len(),
                    block_end(lines, start as int) == block_end(lines, cursor as int),
                decreases lines.len() - cursor,
            {
                cursor = cursor + 1;
            }
            let mut removed: Vec<usize> = Vec::new();
            let mut added: Vec<usize> = Vec::new();
            for k in start..cursor
                invariant
                    lines == hunk.lines@,
                    start <= cursor <= lines.len(),
                    removed@.map_values(|x: usize| x as int) == kind_indices(lines, DiffLineKind::Removed, start as int, k as int),
                    added@.map_values(|x: usize| x as int) == kind_indices(lines, DiffLineKind::Added, start as int, k as int),
            {
                if hunk.lines[k].kind == DiffLineKind::Removed {
                    removed.push(k);
                } else if hunk.lines[k].kind == DiffLineKind::Added {
                    added.push(k);
                }
                proof {
                    assert(removed@.map_values(|x: usize| x as int) =~= kind_indices(lines, DiffLineKind::Removed, start as int, k + 1));
                    assert(added@.map_values(|x: usize| x as int) =~= kind_indices(lines, DiffLineKind::Added, start as int, k + 1));
                }
            }
            let ghost rm = kind_indices(lines, DiffLineKind::Removed, start as int, cursor as int);
            let ghost ad = kind_indices(lines, DiffLineKind::Added, start as int, cursor as int);
            let ghost pp = pair_plans(rm, ad);
            proof {
                lemma_block_end_bound(lines, start as int);
                lemma_kind_indices_bound(lines, DiffLineKind::Removed, start as int, cursor as int);
                lemma_kind_indices_bound(lines, DiffLineKind::Added, start as int, cursor as int);
                assert(plan_from(lines, start as int) == pp + plan_from(lines, cursor as int));
            }
            let pair_count = if removed.len() >= added.len() {
                removed.len()
            } else {
                added.len()
            };
            let ghost base = rows@;
            for p in 0..pair_count
                invariant
                    lines == hunk.lines@,
                    removed@.map_values(|x: usize| x as int) == rm,
                    added@.map_values(|x: usize| x as int) == ad,
                    forall|q: int| 0 <= q < rm.len() ==> 0 <= #[trigger] rm[q] < lines.len(),
                    forall|q: int| 0 <= q < ad.len() ==> 0 <= #[trigger] ad[q] < lines.len(),
                    pp == pair_plans(rm, ad),
                    pair_count == pp.len(),
                    rows@.len() == base.len() + p,
                    forall|q: int| 0 <= q < base.len() ==> rows@[q] == base[q],
                    forall|q: int| 0 <= q < p ==> #[trigger] row_by_plan(rows@[base.len() + q], lines, pp[q]),
            {
                proof {
                    if p < removed@.len() {
                        assert(removed@[p as int] as int == rm[p as int]);
                    }
                    if p < added@.len() {
                        assert(added@[p as int] as int == ad[p as int]);
                    }
                }
                if p < removed.len() && p < added.len() {
                    rows.push(build_modified_row(&hunk.lines[removed[p]], &hunk.lines[added[p]]));
                } else if p < removed.len() {
                    rows.push(build_left_only_row(&hunk.lines[removed[p]]));
                } else {
                    rows.push(build_right_only_row(&hunk.lines[added[p]]));
                }
            }
            proof {
                let rest = plan_from(lines, cursor as int);
                let nd = done + pp;
                assert(plan_from(lines, 0) =~= nd + rest);
                assert(plan_from(lines, 0).take(plan_from(lines, 0).len() - rest.len()) =~= nd);
                assert forall|k: int| 0 <= k < rows@.len() implies #[trigger] row_by_plan(rows@[k], lines, nd[k]) by {
                    if k < base.len() {
                        assert(rows@[k] == before[k]);
                        assert(row_by_plan(before[k], lines, done[k]));
                    } else {
                        assert(row_by_plan(rows@[base.len() + (k - base.len())], lines, pp[k - base.len()]));
                    }
                }
            }
        }
    }
    proof {
        assert(plan_from(lines, cursor as int) =~= Seq::<RowPlan>::empty());
        assert(plan_from(lines, 0).take(plan_from(lines, 0).len() as int) =~= plan_from(lines, 0));
    }
    rows
}

/// Row plans of the first `n` hunks, each tagged with its hunk.
pub open spec fn hunks_plans(hunks: Seq<DiffHunk>, n: int) -> Seq<(int, RowPlan)>
    decreases n,
{
    if n <= 0 {
        Seq::empty()
    } else {
        hunks_plans(hunks, n - 1) + plan_from(hunks[n - 1].lines@, 0).map_values(
            |p: RowPlan| (n - 1, p),
        )
    }
}

/// Rows `rows` are made from `hunks` by `plans`, one each.
pub open spec fn rows_by_hunk_plans(
    rows: Seq<CompareFileRowViewModel>,
    hunks: Seq<DiffHunk>,
    plans: Seq<(int, RowPlan)>,
) -> bool {
    &&& rows.len() == plans.len()
    &&& forall|k: int|
        0 <= k < rows.len() ==> #[trigger] row_by_plan(rows[k], hunks[plans[k].0].lines@, plans[k].1)
}

/// The rows of all hunks, hunk after hunk.
fn project_diff_rows(result: &TextDiffResult) -> (r: Vec<CompareFileRowViewModel>)
    ensures
        rows_by_hunk_plans(r@, result.hunks@, hunks_plans(result.hunks@, result.hunks@.len() as int)),
{
    let ghost hunks = result.hunks@;
    let mut rows: Vec<CompareFileRowViewModel> = Vec::new();
    for h in 0..result.hunks.len()
        invariant
            hunks == result.hunks@,
            rows_by_hunk_plans(rows@, hunks, hunks_plans(hunks, h as int)),
    {
        let mut hunk_rows = project_hunk_rows(&result.hunks[h]);
        let ghost before = rows@;
        let ghost hr = hunk_rows@;
        let ghost hp = plan_from(hunks[h as int].lines@, 0).map_values(|p: RowPlan| (h as int, p));
        rows.append(&mut hunk_rows);
        proof {
            let plans = hunks_plans(hunks, h + 1);
            assert(plans =~= hunks_plans(hunks, h as int) + hp);
            assert forall|k: int| 0 <= k < rows@.len() implies #[trigger] row_by_plan(
                rows@[k],
                hunks[plans[k].0].lines@,
                plans[k].1,
            ) by {
                if k < before.len() {
                    assert(rows@[k] == before[k]);
                } else {
                    let q = k - before.len();
                    assert(rows@[k] == hr[q]);
                    assert(row_by_plan(hr[q], hunks[h as int].lines@, plan_from(hunks[h as int].lines@, 0)[q]));
                }
            }
        }
    }
    rows
}

/// `hunks=H +A -R ctx=C` of a diff summary.
pub open spec fn summary_text_of(h: usize, a: usize, r: usize, c: usize) -> Seq<char> {
    "hunks="@ + text::dec(h as nat) + " +"@ + text::dec(a as nat) + " -"@ + text::dec(r as nat)
        + " ctx="@ + text::dec(c as nat)
}

/// The compare-file panel of a text diff: its counts as the summary, one row
/// per context line and per paired, removed or added line of each hunk, and
/// the diff's warning and truncation.
pub fn map_text_diff_result_to_compare_file(relative_path: &str, result: TextDiffResult) -> (r:
    CompareFilePanelViewModel)
    ensures
        r.relative_path@ == relative_path@,
        r.summary_text@ == summary_text_of(
            result.summary.hunk_count,
            result.summary.added_lines,
            result.summary.removed_lines,
            result.summary.context_lines,
        ),
        rows_by_hunk_plans(r.rows@, result.hunks@, hunks_plans(result.hunks@, result.hunks@.len() as int)),
        opt_view(r.warning) == opt_view(result.warning),
        r.truncated == result.truncated,
{
    let summary = result.summary;
    let mut st: Vec<char> = Vec::new();
    push_str(&mut st, "hunks=");
    push_dec_usize(&mut st, summary.hunk_count);
    push_str(&mut st, " +");
    push_dec_usize(&mut st, summary.added_lines);
    push_str(&mut st, " -");
    push_dec_usize(&mut st, summary.removed_lines);
    push_str(&mut st, " ctx=");
    push_dec_usize(&mut st, summary.context_lines);
    proof {
        assert(st@ =~= summary_text_of(
            summary.hunk_count,
            summary.added_lines,
            summary.removed_lines,
            summary.context_lines,
        ));
    }
    let rows = project_diff_rows(&result);
    CompareFilePanelViewModel {
        relative_path: text::to_string(relative_path),
        summary_text: string_from_chars(&st),
        rows,
        warning: result.warning,
        truncated: result.truncated,
    }
}

// ---------------------------------------------------------------------------
// Previews
// ---------------------------------------------------------------------------

/// A text with `\r\n` and then every remaining `\r` turned into `\n`.
pub open spec fn unify_newlines(s: Seq<char>) -> Seq<char>
    decreases s.len(),
{
    if s.len() == 0 {
        Seq::empty()
    } else if s[0] == '\r' && s.len() > 1 && s[1] == '\n' {
        seq!['\n'] + unify_newlines(s.skip(2))
    } else if s[0] == '\r' {
        seq!['\n'] + unify_newlines(s.skip(1))
    } else {
        seq![s[0]] + unify_newlines(s.skip(1))
    }
}

/// The lines of a text: none for an empty text, else the pieces between
/// line breaks (`\r\n`, `\r` or `\n`).
pub open spec fn text_lines(s: Seq<char>) -> Seq<Seq<char>> {
    if s.len() == 0 {
        Seq::empty()
    } else {
        text::split_by(unify_newlines(s), '\n')
    }
}

/// The lines of a text.
pub fn split_text_lines(input: &str) -> (r: Vec<String>)
    ensures
        r@.map_values(|l: String| l@) == text_lines(input@),
{
    let v = chars_of(input);
    if v.len() == 0 {
        let r: Vec<String> = Vec::new();
        assert(r@.map_values(|l: String| l@) =~= text_lines(input@));
        return r;
    }
    let mut unified: Vec<char> = Vec::new();
    let mut i: usize = 0;
    proof {
        assert(v@.skip(0) =~= v@);
        assert(unified@ + unify_newlines(v@) =~= unify_newlines(v@));
    }
    while i < v.len()
        invariant
            i <= v@.len(),
            unified@ + unify_newlines(v@.skip(i as int)) == unify_newlines(v@),
        decreases v@.len() - i,
    {
        let ghost rest = v@.skip(i as int);
        if v[i] == '\r' && i + 1 < v.len() && v[i + 1] == '\n' {
            unified.push('\n');
            proof {
                assert(rest.skip(2) =~= v@.skip(i + 2));
            }
            i = i + 2;
        } else {
            if v[i] == '\r' {
                unified.push('\n');
            } else {
                unified.push(v[i]);
            }
            proof {
                assert(rest.skip(1) =~= v@.skip(i + 1));
            }
            i = i + 1;
        }
        proof {
            assert(unified@ + unify_newlines(v@.skip(i as int)) =~= unify_newlines(v@));
        }
    }
    proof {
        assert(v@.skip(i as int) =~= Seq::<char>::empty());
        assert(unified@ =~= unify_newlines(v@));
    }
    let pieces = text::split_chars(&unified, '\n');
    let mut r: Vec<String> = Vec::new();
    for k in 0..pieces.len()
        invariant
            r@.len() == k,
            forall|q: int| 0 <= q < k ==> (#[trigger] r@[q])@ == pieces@[q]@,
    {
        r.push(string_from_chars(&pieces[k]));
    }
    proof {
        assert(r@.map_values(|l: String| l@) =~= pieces@.map_values(|p: Vec<char>| p@));
    }
    r
}

/// Row `i` of a one-sided preview of `line`.
pub open spec fn single_side_row(r: CompareFileRowViewModel, left: bool, i: int, line: Seq<char>) -> bool {
    if left {
        &&& row_head(r, "left-only"@, "Left"@, "left"@, Some((i + 1) as usize), None, line, Seq::empty(), false, true)
        &&& segs_view(r.left_segments@) == plain_spec(line)
        &&& r.right_segments@.len() == 0
    } else {
        &&& row_head(r, "right-only"@, "Right"@, "right"@, None, Some((i + 1) as usize), Seq::empty(), line, true, false)
        &&& r.left_segments@.len() == 0
        &&& segs_view(r.right_segments@) == plain_spec(line)
    }
}

/// Row `i` of the preview of an unchanged file.
pub open spec fn equal_row(r: CompareFileRowViewModel, i: int, line: Seq<char>) -> bool {
    &&& row_head(r, "context"@, Seq::empty(), "context"@, Some((i + 1) as usize), Some((i + 1) as usize), line, line, false, false)
    &&& segs_view(r.left_segments@) == plain_spec(line)
    &&& segs_view(r.right_segments@) == plain_spec(line)
}

/// The preview of a file present on one side: one row per line, numbered from 1.
pub fn build_single_side_panel(relative_path: &str, left: bool, lines: &[String]) -> (r:
    CompareFilePanelViewModel)
    ensures
        r.relative_path@ == relative_path@,
        r.summary_text@ == (if left {
            "left-only"@
        } else {
            "right-only"@
        }) + " lines="@ + text::dec(lines@.len()),
        r.rows@.len() == lines@.len(),
        forall|i: int| 0 <= i < lines@.len() ==> single_side_row(#[trigger] r.rows@[i], left, i, lines@[i]@),
        r.warning is None,
        !r.truncated,
{
    let mut rows: Vec<CompareFileRowViewModel> = Vec::new();
    for index in 0..lines.len()
        invariant
            rows@.len() == index,
            forall|i: int| 0 <= i < index ==> single_side_row(#[trigger] rows@[i], left, i, lines@[i]@),
    {
        let line = &lines[index];
        let row = if left {
            CompareFileRowViewModel {
                row_kind: text::to_string("left-only"),
                relation_label: text::to_string("Left"),
                relation_tone: text::to_string("left"),
                left_line_no: Some(index + 1),
                right_line_no: None,
                left_text: line.clone(),
                right_text: String::new(),
                left_segments: plain_segments(line.as_str()),
                right_segments: Vec::new(),
                left_padding: false,
                right_padding: true,
                focusable: true,
            }
        } else {
            CompareFileRowViewModel {
                row_kind: text::to_string("right-only"),
                relation_label: text::to_string("Right"),
                relation_tone: text::to_string("right"),
                left_line_no: None,
                right_line_no: Some(index + 1),
                left_text: String::new(),
                right_text: line.clone(),
                left_segments: Vec::new(),
                right_segments: plain_segments(line.as_str()),
                left_padding: true,
                right_padding: false,
                focusable: true,
            }
        };
        rows.push(row);
    }
    let mut st: Vec<char> = Vec::new();
    if left {
        push_str(&mut st, "left-only");
    } else {
        push_str(&mut st, "right-only");
    }
    push_str(&mut st, " lines=");
    push_dec_usize(&mut st, lines.len());
    CompareFilePanelViewModel {
        relative_path: text::to_string(relative_path),
        summary_text: string_from_chars(&st),
        rows,
        warning: None,
        truncated: false,
    }
}

/// The preview of a file equal on both sides: every line as context, numbered from 1.
pub fn build_equal_panel(relative_path: &str, lines: &[String]) -> (r: CompareFilePanelViewModel)
    ensures
        r.relative_path@ == relative_path@,
        r.summary_text@ == "identical lines="@ + text::dec(lines@.len()),
        r.rows@.len() == lines@.len(),
        forall|i: int| 0 <= i < lines@.len() ==> equal_row(#[trigger] r.rows@[i], i, lines@[i]@),
        r.warning is None,
        !r.truncated,
{
    let mut rows: Vec<CompareFileRowViewModel> = Vec::new();
    for index in 0..lines.len()
        invariant
            rows@.len() == index,
            forall|i: int| 0 <= i < index ==> equal_row(#[trigger] rows@[i], i, lines@[i]@),
    {
        let line = &lines[index];
        rows.push(
            CompareFileRowViewModel {
                row_kind: text::to_string("context"),
                relation_label: String::new(),
                relation_tone: text::to_string("context"),
                left_line_no: Some(index + 1),
                right_line_no: Some(index + 1),
                left_text: line.clone(),
                right_text: line.clone(),
                left_segments: plain_segments(line.as_str()),
                right_segments: plain_segments(line.as_str()),
                left_padding: false,
                right_padding: false,
                focusable: true,
            },
        );
    }
    let mut st: Vec<char> = Vec::new();
    push_str(&mut st, "identical lines=");
    push_dec_usize(&mut st, lines.len());
    CompareFilePanelViewModel {
        relative_path: text::to_string(relative_path),
        summary_text: string_from_chars(&st),
        rows,
        warning: None,
        truncated: false,
    }
}

/// Which preview a compare row gets.
#[derive(Debug, Clone, Copy, PartialEq, Eq, Structural)]
pub enum PreviewKind {
    LeftOnly,
    RightOnly,
    Equal,
}

/// What `preview_plan` gives for a row.
pub open spec fn preview_plan_spec(path: Seq<char>, status: Seq<char>) -> Result<(Seq<char>, PreviewKind), Seq<char>> {
    let p = text::trim(path);
    if p.len() == 0 {
        Err("relative path is required for compare preview"@)
    } else if status == "left-only"@ {
        Ok((p, PreviewKind::LeftOnly))
    } else if status == "right-only"@ {
        Ok((p, PreviewKind::RightOnly))
    } else if status == "equal"@ {
        Ok((p, PreviewKind::Equal))
    } else {
        Err("compare preview is only available for left-only/right-only/equal rows, got "@ + status)
    }
}

/// A row previews the side that its status names: a left-only row the left
/// side, a right-only row the right side, an equal row as equal; the preview
/// path is the row's trimmed path. Every row with a path and one of these
/// statuses gets a preview, and no other row does.
pub proof fn lemma_preview_follows_status(path: Seq<char>, status: Seq<char>)
    ensures
        preview_plan_spec(path, status) matches Ok((p, k)) ==> p == text::trim(path) && p.len() > 0
            && (k == PreviewKind::LeftOnly <==> status == "left-only"@) && (k == PreviewKind::RightOnly
            <==> status == "right-only"@) && (k == PreviewKind::Equal <==> status == "equal"@),
        (preview_plan_spec(path, status) is Ok) <==> (text::trim(path).len() > 0 && (status
            == "left-only"@ || status == "right-only"@ || status == "equal"@)),
        text::trim(path).len() == 0 ==> preview_plan_spec(path, status) == Err::<
            (Seq<char>, PreviewKind),
            Seq<char>,
        >("relative path is required for compare preview"@),
{
    reveal_strlit("left-only");
    reveal_strlit("right-only");
    reveal_strlit("equal");
    assert("left-only"@ != "right-only"@) by {
        assert("left-only"@[0] != "right-only"@[0]);
    }
    assert("left-only"@ != "equal"@) by {
        assert("left-only"@[0] != "equal"@[0]);
    }
    assert("right-only"@ != "equal"@) by {
        assert("right-only"@[0] != "equal"@[0]);
    }
}

/// The trimmed path and the preview kind of a compare row: left-only and
/// right-only rows preview one side, equal rows either; other rows, and rows
/// without a path, have no preview.
pub fn preview_plan(row: &CompareEntryRowViewModel) -> (r: Result<(String, PreviewKind), String>)
    ensures
        match r {
            Ok((p, k)) => preview_plan_spec(row.relative_path@, row.status@) == Ok::<(Seq<char>, PreviewKind), Seq<char>>((p@, k)),
            Err(m) => preview_plan_spec(row.relative_path@, row.status@) == Err::<(Seq<char>, PreviewKind), Seq<char>>(m@),
        },
{
    let relative_path = text::trim_str(row.relative_path.as_str());
    if relative_path.as_str().unicode_len() == 0 {
        return Err(text::to_string("relative path is required for compare preview"));
    }
    let status = row.status.as_str();
    if text::str_eq(status, "left-only") {
        Ok((relative_path, PreviewKind::LeftOnly))
    } else if text::str_eq(status, "right-only") {
        Ok((relative_path, PreviewKind::RightOnly))
    } else if text::str_eq(status, "equal") {
        Ok((relative_path, PreviewKind::Equal))
    } else {
        let mut m = chars_of("compare preview is only available for left-only/right-only/equal rows, got ");
        push_str(&mut m, status);
        Err(string_from_chars(&m))
    }
}

/// The text of the `Utf8Error` that `std::str::from_utf8` reports for bytes
/// that are not valid UTF-8.
pub uninterp spec fn utf8_error_text(bytes: Seq<u8>) -> Seq<char>;

/// `std::str::from_utf8`: the decoded text of bytes that are valid UTF-8, or
/// the displayed text of the decoding error, named `utf8_error_text`. What
/// that text says (std's wording with the error's position) is left unsaid.
#[verifier::external_body]
pub(crate) fn utf8_text(bytes: &[u8]) -> (r: Result<String, String>)
    ensures
        r is Ok <==> vstd::utf8::valid_utf8(bytes@),
        r matches Ok(t) ==> t@ == vstd::utf8::decode_utf8(bytes@),
        r matches Err(m) ==> m@ == utf8_error_text(bytes@),
{
    match std::str::from_utf8(bytes) {
        Ok(t) => Ok(t.to_string()),
        Err(e) => Err(e.to_string()),
    }
}

/// `"{side} file preview is unavailable in Compare File View for binary content"`.
pub open spec fn binary_message(side: Seq<char>) -> Seq<char> {
    side + " file preview is unavailable in Compare File View for binary content"@
}

/// The start of the message for bytes that are not UTF-8.
pub open spec fn non_utf8_prefix(side: Seq<char>) -> Seq<char> {
    side + " file preview is unavailable in Compare File View for non-UTF-8 text: "@
}

/// The lines of a previewed file's bytes; binary content (a zero byte) and
/// bytes that are not UTF-8 have no preview.
pub fn load_text_lines(bytes: &[u8], side_label: &str) -> (r: Result<Vec<String>, String>)
    ensures
        bytes@.contains(0u8) ==> (r matches Err(m) && m@ == binary_message(side_label@)),
        !bytes@.contains(0u8) && !vstd::utf8::valid_utf8(bytes@) ==> (r matches Err(m) && m@
            == non_utf8_prefix(side_label@) + utf8_error_text(bytes@)),
        !bytes@.contains(0u8) && vstd::utf8::valid_utf8(bytes@) ==> (r matches Ok(lines)
            && lines@.map_values(|l: String| l@) == text_lines(vstd::utf8::decode_utf8(bytes@))),
{
    let mut k: usize = 0;
    while k < bytes.len()
        invariant
            k <= bytes@.len(),
            forall|q: int| 0 <= q < k ==> bytes@[q] != 0u8,
        decreases bytes@.len() - k,
    {
        if bytes[k] == 0u8 {
            let mut m = chars_of(side_label);
            push_str(&mut m, " file preview is unavailable in Compare File View for binary content");
            return Err(string_from_chars(&m));
        }
        k = k + 1;
    }
    match utf8_text(bytes) {
        Ok(t) => Ok(split_text_lines(t.as_str())),
        Err(e) => {
            let mut m = chars_of(side_label);
            push_str(&mut m, " file preview is unavailable in Compare File View for non-UTF-8 text: ");
            push_str(&mut m, e.as_str());
            Err(string_from_chars(&m))
        },
    }
}

/// The message when a previewed file cannot be read.
pub fn read_error_message(side_label: &str, error_text: &str) -> (r: String)
    ensures
        r@ == "cannot read "@ + side_label@ + " file content for Compare File View: "@ + error_text@,
{
    let mut m = chars_of("cannot read ");
    push_str(&mut m, side_label);
    push_str(&mut m, " file content for Compare File View: ");
    push_str(&mut m, error_text);
    string_from_chars(&m)
}

/// The preview panel of a row of a kind, from the lines of its file.
pub fn build_preview_panel(relative_path: &str, kind: PreviewKind, lines: &[String]) -> (r:
    CompareFilePanelViewModel)
    ensures
        r.relative_path@ == relative_path@,
        r.rows@.len() == lines@.len(),
        kind == PreviewKind::Equal ==> r.summary_text@ == "identical lines="@ + text::dec(lines@.len())
            && forall|i: int| 0 <= i < lines@.len() ==> equal_row(#[trigger] r.rows@[i], i, lines@[i]@),
        kind != PreviewKind::Equal ==> ({
            let left = kind == PreviewKind::LeftOnly;
            &&& r.summary_text@ == (if left {
                "left-only"@
            } else {
                "right-only"@
            }) + " lines="@ + text::dec(lines@.len())
            &&& forall|i: int| 0 <= i < lines@.len() ==> single_side_row(#[trigger] r.rows@[i], left, i, lines@[i]@)
        }),
        r.warning is None,
        !r.truncated,
{
    match kind {
        PreviewKind::LeftOnly => build_single_side_panel(relative_path, true, lines),
        PreviewKind::RightOnly => build_single_side_panel(relative_path, false, lines),
        PreviewKind::Equal => build_equal_panel(relative_path, lines),
    }
}

} // verus!
