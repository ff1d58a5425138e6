//! Reading flat result rows back into structured compare data.
//!
//! A flat row carries its kind, status and detail as words and one-line texts
//! (`file compare: left=10B right=12B content_checked=true`); these functions
//! recover the structured values from them.

use vstd::prelude::*;
use crate::compare_foundation::{
    CompareFoundation, covered, fields_from_entries, CompareAnalysisAvailability, CompareAnalysisUnavailableReason, CompareBaseStatus,
    CompareDiffAvailability, CompareDiffUnavailableReason, CompareEntryCapabilities,
    CompareFoundationDetail, CompareNodeKind, CompareTextDeferredReason, SourceRecord, opt_view,
    presence_of,
};
use crate::paths;
use crate::text::{
    self, TrimClass, contains_seq, eq_ignore_case, lower_seq, parse_unsigned, trim, trim_by,
    trim_end_by, ws_words,
};
use crate::view_models::CompareEntryRowViewModel;

verus! {

// ---------------------------------------------------------------------------
// Kind and status words
// ---------------------------------------------------------------------------

/// The node kind a kind word names, case and surrounding space ignored; a
/// file for any other word.
pub open spec fn legacy_kind(word: Seq<char>) -> CompareNodeKind {
    let t = lower_seq(trim(word));
    if t == "directory"@ {
        CompareNodeKind::Directory
    } else if t == "symlink"@ {
        CompareNodeKind::Symlink
    } else if t == "other"@ {
        CompareNodeKind::Other
    } else {
        CompareNodeKind::File
    }
}

/// The status a status word names, case and surrounding space ignored;
/// `Different` for any other word.
pub open spec fn legacy_status(word: Seq<char>) -> CompareBaseStatus {
    let t = lower_seq(trim(word));
    if t == "left-only"@ {
        CompareBaseStatus::LeftOnly
    } else if t == "right-only"@ {
        CompareBaseStatus::RightOnly
    } else if t == "equal"@ {
        CompareBaseStatus::Equal
    } else if t == "pending"@ {
        CompareBaseStatus::Pending
    } else if t == "skipped"@ {
        CompareBaseStatus::Skipped
    } else {
        CompareBaseStatus::Different
    }
}

fn normalized_word(word: &str) -> (r: Vec<char>)
    ensures
        r@ == lower_seq(trim(word@)),
{
    let c = text::chars_of(word);
    let t = text::trim_chars(&c, TrimClass::Whitespace);
    text::lower_chars(&t)
}

pub fn compare_kind_from_legacy(kind: &str) -> (r: CompareNodeKind)
    ensures
        r == legacy_kind(kind@),
{
    let t = normalized_word(kind);
    if text::chars_eq_str(&t, "directory") {
        CompareNodeKind::Directory
    } else if text::chars_eq_str(&t, "symlink") {
        CompareNodeKind::Symlink
    } else if text::chars_eq_str(&t, "other") {
        CompareNodeKind::Other
    } else {
        CompareNodeKind::File
    }
}

pub fn compare_status_from_legacy(status: &str) -> (r: CompareBaseStatus)
    ensures
        r == legacy_status(status@),
{
    let t = normalized_word(status);
    if text::chars_eq_str(&t, "left-only") {
        CompareBaseStatus::LeftOnly
    } else if text::chars_eq_str(&t, "right-only") {
        CompareBaseStatus::RightOnly
    } else if text::chars_eq_str(&t, "equal") {
        CompareBaseStatus::Equal
    } else if text::chars_eq_str(&t, "pending") {
        CompareBaseStatus::Pending
    } else if text::chars_eq_str(&t, "skipped") {
        CompareBaseStatus::Skipped
    } else {
        CompareBaseStatus::Different
    }
}

/// The custom text of an analysis reason: the trimmed reason, unless it is
/// blank or the standard changed-file reason.
pub open spec fn legacy_custom_reason(reason: Option<Seq<char>>) -> Option<Seq<char>> {
    match reason {
        Some(v) => if trim(v).len() > 0 && trim(v)
            != "AI analysis is only available for changed file entries"@ {
            Some(trim(v))
        } else {
            None
        },
        None => None,
    }
}

pub fn parse_legacy_analysis_reason(reason: Option<String>) -> (r: CompareAnalysisUnavailableReason)
    ensures
        match legacy_custom_reason(opt_view(reason)) {
            Some(m) => r matches CompareAnalysisUnavailableReason::Custom(t) && t@ == m,
            None => r == CompareAnalysisUnavailableReason::RequiresChangedFile,
        },
{
    match reason {
        Some(value) => {
            let c = text::chars_of(value.as_str());
            let t = text::trim_chars(&c, TrimClass::Whitespace);
            if t.len() == 0 {
                return CompareAnalysisUnavailableReason::RequiresChangedFile;
            }
            if text::chars_eq_str(&t, "AI analysis is only available for changed file entries") {
                return CompareAnalysisUnavailableReason::RequiresChangedFile;
            }
            CompareAnalysisUnavailableReason::Custom(text::string_from_chars(&t))
        },
        None => CompareAnalysisUnavailableReason::RequiresChangedFile,
    }
}

// ---------------------------------------------------------------------------
// Prefixed tokens
// ---------------------------------------------------------------------------

pub open spec fn starts_with(t: Seq<char>, prefix: Seq<char>) -> bool {
    prefix.len() <= t.len() && t.take(prefix.len() as int) == prefix
}

/// What follows `prefix` in the first word that, stripped of `|`, starts with it.
pub open spec fn first_with_prefix(words: Seq<Seq<char>>, prefix: Seq<char>) -> Option<Seq<char>>
    decreases words.len(),
{
    if words.len() == 0 {
        None
    } else {
        let t = trim_by(words[0], TrimClass::Pipe);
        if starts_with(t, prefix) {
            Some(t.skip(prefix.len() as int))
        } else {
            first_with_prefix(words.drop_first(), prefix)
        }
    }
}

/// The value of the first `prefix...` word of a text, stripped of `,` and `;`.
pub open spec fn prefixed_token(text: Seq<char>, prefix: Seq<char>) -> Option<Seq<char>> {
    match first_with_prefix(ws_words(text), prefix) {
        Some(v) => Some(trim_by(v, TrimClass::Punctuation)),
        None => None,
    }
}

pub fn extract_prefixed_token(text: &str, prefix: &str) -> (r: Option<String>)
    ensures
        opt_view(r) == prefixed_token(text@, prefix@),
{
    let words = text::split_whitespace_chars(&text::chars_of(text));
    let p = text::chars_of(prefix);
    let ghost ws = words@.map_values(|w: Vec<char>| w@);
    proof {
        assert(ws.skip(0) =~= ws);
    }
    for i in 0..words.len()
        invariant
            ws == words@.map_values(|w: Vec<char>| w@),
            ws == ws_words(text@),
            p@ == prefix@,
            first_with_prefix(ws, prefix@) == first_with_prefix(ws.skip(i as int), prefix@),
    {
        proof {
            assert(ws.skip(i as int).drop_first() =~= ws.skip(i + 1));
            assert(ws.skip(i as int)[0] == words@[i as int]@);
        }
        let t = text::trim_chars(&words[i], TrimClass::Pipe);
        if text::occurs_at_exec(&t, &p, 0) {
            proof {
                assert(t@.subrange(0, p@.len() as int) =~= t@.take(p@.len() as int));
            }

            let rest = text::slice_chars(&t, p.len(), t.len());
            let v = text::trim_chars(&rest, TrimClass::Punctuation);
            proof {
                assert(rest@ =~= t@.skip(p@.len() as int));
            }
            return Some(text::string_from_chars(&v));
        }
        proof {
            if p@.len() <= t@.len() {
                assert(t@.subrange(0, p@.len() as int) =~= t@.take(p@.len() as int));
            }
        }
    }
    proof {
        assert(ws.skip(ws.len() as int).len() == 0);
    }
    None
}

/// The number of bytes in the first `prefix...` word, its unit `B` dropped.
pub open spec fn bytes_token(text: Seq<char>, prefix: Seq<char>) -> Option<nat> {
    match prefixed_token(text, prefix) {
        Some(v) => parse_unsigned(trim_end_by(v, TrimClass::ByteUnit), u64::MAX as nat),
        None => None,
    }
}

/// The count in the first `prefix...` word.
pub open spec fn count_token(text: Seq<char>, prefix: Seq<char>) -> Option<nat> {
    match prefixed_token(text, prefix) {
        Some(v) => parse_unsigned(v, usize::MAX as nat),
        None => None,
    }
}

pub open spec fn or_zero(o: Option<nat>) -> nat {
    match o {
        Some(n) => n,
        None => 0,
    }
}

pub fn parse_bytes_token(text: &str, prefix: &str) -> (r: Option<u64>)
    ensures
        match bytes_token(text@, prefix@) {
            Some(n) => r == Some(n as u64),
            None => r is None,
        },
{
    match extract_prefixed_token(text, prefix) {
        Some(value) => {
            let c = text::chars_of(value.as_str());
            let t = text::trim_end_chars(&c, TrimClass::ByteUnit);
            text::parse_unsigned_chars(&t, u64::MAX)
        },
        None => None,
    }
}

fn parse_count_token(text: &str, prefix: &str) -> (r: usize)
    ensures
        r as nat == or_zero(count_token(text@, prefix@)),
{
    match extract_prefixed_token(text, prefix) {
        Some(value) => {
            let c = text::chars_of(value.as_str());
            match text::parse_unsigned_chars(&c, usize::MAX as u64) {
                Some(n) => n as usize,
                None => 0,
            }
        },
        None => 0,
    }
}

fn bytes_or_zero(text: &str, prefix: &str) -> (r: u64)
    ensures
        r as nat == or_zero(bytes_token(text@, prefix@)),
{
    match parse_bytes_token(text, prefix) {
        Some(n) => n,
        None => 0,
    }
}

/// The kind in the first `prefix...` word, `Other` when there is none.
pub open spec fn token_kind(text: Seq<char>, prefix: Seq<char>) -> CompareNodeKind {
    match prefixed_token(text, prefix) {
        Some(v) => legacy_kind(v),
        None => CompareNodeKind::Other,
    }
}

fn kind_token_or_other(text: &str, prefix: &str) -> (r: CompareNodeKind)
    ensures
        r == token_kind(text@, prefix@),
{
    match extract_prefixed_token(text, prefix) {
        Some(v) => compare_kind_from_legacy(v.as_str()),
        None => CompareNodeKind::Other,
    }
}

/// Whether the `content_checked=` word says `true`, in any case.
pub open spec fn checked_flag(text: Seq<char>) -> bool {
    match prefixed_token(text, "content_checked="@) {
        Some(v) => eq_ignore_case(v, "true"@),
        None => false,
    }
}

fn content_checked_flag(text: &str) -> (r: bool)
    ensures
        r == checked_flag(text@),
{
    match extract_prefixed_token(text, "content_checked=") {
        Some(v) => {
            let c = text::chars_of(v.as_str());
            let t = text::chars_of("true");
            text::chars_eq_ignore_case(&c, &t)
        },
        None => false,
    }
}

// ---------------------------------------------------------------------------
// Details
// ---------------------------------------------------------------------------

/// The structured detail of a row, read from its detail-kind word and its
/// detail text; a missing or unreadable number counts as zero.
pub open spec fn legacy_detail_ok(d: CompareFoundationDetail, kind_word: Seq<char>, detail: Seq<
    char,
>) -> bool {
    if kind_word == "type-mismatch"@ {
        d == CompareFoundationDetail::TypeMismatch {
            left: token_kind(detail, "left="@),
            right: token_kind(detail, "right="@),
        }
    } else if kind_word == "file-comparison"@ {
        d == CompareFoundationDetail::FileComparison {
            left_size: or_zero(bytes_token(detail, "left="@)) as u64,
            right_size: or_zero(bytes_token(detail, "right="@)) as u64,
            content_checked: checked_flag(detail),
        }
    } else if kind_word == "content-comparison-deferred"@ {
        d == CompareFoundationDetail::ContentComparisonDeferred
    } else if kind_word == "text-detail-deferred"@ {
        d == CompareFoundationDetail::TextDetailDeferred {
            reason: if contains_seq(detail, "large-directory mode"@) {
                CompareTextDeferredReason::LargeDirectoryMode
            } else {
                CompareTextDeferredReason::FileTooLarge
            },
            left_size: or_zero(bytes_token(detail, "left="@)) as u64,
            right_size: or_zero(bytes_token(detail, "right="@)) as u64,
            max_text_file_size_bytes: or_zero(bytes_token(detail, "limit="@)) as u64,
            content_checked: checked_flag(detail),
        }
    } else if kind_word == "text-diff"@ {
        d == CompareFoundationDetail::TextDiffSummary {
            hunk_count: or_zero(count_token(detail, "hunks="@)) as usize,
            added_lines: or_zero(count_token(detail, "+"@)) as usize,
            removed_lines: or_zero(count_token(detail, "-"@)) as usize,
            context_lines: or_zero(count_token(detail, "ctx="@)) as usize,
        }
    } else if kind_word == "none"@ || (kind_word != "message"@ && trim(detail).len() == 0) {
        d == CompareFoundationDetail::NoDetail
    } else {
        d matches CompareFoundationDetail::Message { message } && message@ == detail
    }
}

pub fn parse_legacy_detail(row: &CompareEntryRowViewModel) -> (r: CompareFoundationDetail)
    ensures
        legacy_detail_ok(r, row.detail_kind@, row.detail@),
{
    let kw = text::chars_of(row.detail_kind.as_str());
    let detail = row.detail.as_str();
    if text::chars_eq_str(&kw, "type-mismatch") {
        CompareFoundationDetail::TypeMismatch {
            left: kind_token_or_other(detail, "left="),
            right: kind_token_or_other(detail, "right="),
        }
    } else if text::chars_eq_str(&kw, "file-comparison") {
        CompareFoundationDetail::FileComparison {
            left_size: bytes_or_zero(detail, "left="),
            right_size: bytes_or_zero(detail, "right="),
            content_checked: content_checked_flag(detail),
        }
    } else if text::chars_eq_str(&kw, "content-comparison-deferred") {
        CompareFoundationDetail::ContentComparisonDeferred
    } else if text::chars_eq_str(&kw, "text-detail-deferred") {
        let dc = text::chars_of(detail);
        let reason = if text::contains_str(&dc, "large-directory mode") {
            CompareTextDeferredReason::LargeDirectoryMode
        } else {
            CompareTextDeferredReason::FileTooLarge
        };
        CompareFoundationDetail::TextDetailDeferred {
            reason,
            left_size: bytes_or_zero(detail, "left="),
            right_size: bytes_or_zero(detail, "right="),
            max_text_file_size_bytes: bytes_or_zero(detail, "limit="),
            content_checked: content_checked_flag(detail),
        }
    } else if text::chars_eq_str(&kw, "text-diff") {
        CompareFoundationDetail::TextDiffSummary {
            hunk_count: parse_count_token(detail, "hunks="),
            added_lines: parse_count_token(detail, "+"),
            removed_lines: parse_count_token(detail, "-"),
            context_lines: parse_count_token(detail, "ctx="),
        }
    } else if text::chars_eq_str(&kw, "message") {
        proof {
            reveal_strlit("none");
            reveal_strlit("message");
            assert("none"@.len() != "message"@.len());
        }
        CompareFoundationDetail::Message { message: row.detail.clone() }
    } else if text::chars_eq_str(&kw, "none") || text::is_blank(detail) {
        CompareFoundationDetail::NoDetail
    } else {
        CompareFoundationDetail::Message { message: row.detail.clone() }
    }
}

// ---------------------------------------------------------------------------
// Records
// ---------------------------------------------------------------------------

/// The capabilities a row states: a blocked diff keeps its reason (or a stock
/// one); a blocked analysis reads its reason, or the diff's, back.
pub open spec fn legacy_caps_ok(c: CompareEntryCapabilities, row: CompareEntryRowViewModel) -> bool {
    &&& if row.can_load_diff {
        c.diff == CompareDiffAvailability::Available
    } else {
        c.diff matches CompareDiffAvailability::Unavailable(
            CompareDiffUnavailableReason::DetailMessage(m),
        ) && m@ == match row.diff_blocked_reason {
            Some(t) => t@,
            None => "selected row does not support detailed text diff"@,
        }
    }
    &&& if row.can_load_analysis {
        c.analysis == CompareAnalysisAvailability::Available
    } else {
        c.analysis matches CompareAnalysisAvailability::Unavailable(reason) && match legacy_custom_reason(
            match row.analysis_blocked_reason {
                Some(t) => Some(t@),
                None => opt_view(row.diff_blocked_reason),
            },
        ) {
            Some(m) => reason matches CompareAnalysisUnavailableReason::Custom(t) && t@ == m,
            None => reason == CompareAnalysisUnavailableReason::RequiresChangedFile,
        }
    }
}

/// The source record a flat row describes.
pub open spec fn legacy_record_ok(rec: SourceRecord, row: CompareEntryRowViewModel) -> bool {
    &&& rec.relative_path@ == row.relative_path@
    &&& rec.kind == legacy_kind(row.entry_kind@)
    &&& rec.status == legacy_status(row.status@)
    &&& legacy_detail_ok(rec.detail, row.detail_kind@, row.detail@)
    &&& legacy_caps_ok(rec.capabilities, row)
}

pub fn record_from_legacy_row(row: &CompareEntryRowViewModel) -> (r: SourceRecord)
    ensures
        legacy_record_ok(r, *row),
        r.kind != CompareNodeKind::Root,
{
    let diff = if row.can_load_diff {
        CompareDiffAvailability::Available
    } else {
        let m = match &row.diff_blocked_reason {
            Some(t) => t.clone(),
            None => text::to_string("selected row does not support detailed text diff"),
        };
        CompareDiffAvailability::Unavailable(CompareDiffUnavailableReason::DetailMessage(m))
    };
    let analysis = if row.can_load_analysis {
        CompareAnalysisAvailability::Available
    } else {
        let reason = match &row.analysis_blocked_reason {
            Some(t) => Some(t.clone()),
            None => match &row.diff_blocked_reason {
                Some(t) => Some(t.clone()),
                None => None,
            },
        };
        CompareAnalysisAvailability::Unavailable(parse_legacy_analysis_reason(reason))
    };
    SourceRecord {
        relative_path: row.relative_path.clone(),
        kind: compare_kind_from_legacy(row.entry_kind.as_str()),
        status: compare_status_from_legacy(row.status.as_str()),
        detail: parse_legacy_detail(row),
        capabilities: CompareEntryCapabilities { diff, analysis },
    }
}

// ---------------------------------------------------------------------------
// The foundation of flat rows
// ---------------------------------------------------------------------------

/// Each record is what the row at its index describes.
pub open spec fn records_describe_rows(
    recs: Seq<SourceRecord>,
    rows: Seq<CompareEntryRowViewModel>,
) -> bool {
    &&& recs.len() == rows.len()
    &&& forall|i: int| 0 <= i < rows.len() ==> legacy_record_ok(#[trigger] recs[i], rows[i])
}

/// The foundation that a list of flat result rows describes: each row read
/// back into the record it was made from, then assembled as entries are.
pub fn foundation_from_legacy_rows(rows: &[CompareEntryRowViewModel]) -> (r: CompareFoundation)
    ensures
        r.wf(),
        r.source_paths() == rows@.map_values(
            |row: CompareEntryRowViewModel| paths::normalize_path(row.relative_path@),
        ),
        exists|recs: Seq<SourceRecord>|
            {
                &&& #[trigger] records_describe_rows(recs, rows@)
                &&& forall|key: Seq<char>|
                    #[trigger] r.has_key(key) <==> (key.len() == 0 || covered(
                        recs,
                        recs.len() as int,
                        key,
                    ))
                &&& forall|key: Seq<char>|
                    key.len() > 0 && #[trigger] r.has_key(key) ==> fields_from_entries(
                        r.node_of(key),
                        recs,
                        key,
                    )
            },
{
    let mut records: Vec<SourceRecord> = Vec::new();
    for i in 0..rows.len()
        invariant
            records@.len() == i,
            forall|q: int|
                0 <= q < i ==> legacy_record_ok(#[trigger] records@[q], rows@[q])
                    && records@[q].kind != CompareNodeKind::Root,
    {
        records.push(record_from_legacy_row(&rows[i]));
    }
    let r = CompareFoundation::from_records(records.as_slice());
    proof {
        let recs = records@;
        assert(r.source_paths() =~= rows@.map_values(
            |row: CompareEntryRowViewModel| paths::normalize_path(row.relative_path@),
        )) by {
            assert forall|q: int| 0 <= q < recs.len() implies recs[q].relative_path@
                == rows@[q].relative_path@ by {
                assert(legacy_record_ok(recs[q], rows@[q]));
            }
        }
        assert(records_describe_rows(recs, rows@));
    }
    r
}

} // verus!
