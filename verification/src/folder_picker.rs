//! Interpreting what a native folder-picker process reported.
//!
//! Running the picker is I/O and stays with the caller; this module decides,
//! from the exit status and the two output streams, whether a folder was
//! chosen, the user cancelled, or the picker failed.

use vstd::prelude::*;
use crate::text::{self, contains_seq, lower_seq, trim, TrimClass};

verus! {

/// The text that `String::from_utf8_lossy` makes of a byte sequence.
pub uninterp spec fn lossy_text(bytes: Seq<u8>) -> Seq<char>;

/// `String::from_utf8_lossy`, copied into an owned `String`.
///
/// Its result is named `lossy_text`; as std documents, bytes that are valid
/// UTF-8 come back as the text they encode. What stands in for an invalid
/// sequence (U+FFFD) is left unsaid.
#[verifier::external_body]
fn lossy_string(bytes: &[u8]) -> (r: String)
    ensures
        r@ == lossy_text(bytes@),
        vstd::utf8::valid_utf8(bytes@) ==> r@ == vstd::utf8::decode_utf8(bytes@),
{
    String::from_utf8_lossy(bytes).into_owned()
}

/// The words in a lowered error text by which a picker reports a cancel.
pub open spec fn reports_cancel(lowered: Seq<char>) -> bool {
    ||| contains_seq(lowered, "canceled"@)
    ||| contains_seq(lowered, "cancelled"@)
    ||| contains_seq(lowered, "(-128)"@)
}

/// What a picker run means, from its exit status and its two output texts:
/// on success the trimmed output is the chosen folder (none when blank); on
/// failure a blank error text or a cancel is no folder, anything else an error
/// message that quotes the trimmed error text.
pub open spec fn picker_outcome(success: bool, out: Seq<char>, err: Seq<char>) -> Result<
    Option<Seq<char>>,
    Seq<char>,
> {
    if success {
        if trim(out).len() == 0 {
            Ok(None)
        } else {
            Ok(Some(trim(out)))
        }
    } else {
        let lowered = lower_seq(err);
        if trim(lowered).len() == 0 || reports_cancel(lowered) {
            Ok(None)
        } else {
            Err("native folder picker returned error: "@ + trim(err))
        }
    }
}

/// A picker result, by the views of its texts.
pub open spec fn outcome_view(r: Result<Option<String>, String>) -> Result<
    Option<Seq<char>>,
    Seq<char>,
> {
    match r {
        Ok(Some(s)) => Ok(Some(s@)),
        Ok(None) => Ok(None),
        Err(e) => Err(e@),
    }
}

/// Decides a picker run from its exit status and its decoded output texts.
pub fn interpret_picker_output(success: bool, out: &str, err: &str) -> (r: Result<
    Option<String>,
    String,
>)
    ensures
        outcome_view(r) == picker_outcome(success, out@, err@),
{
    if success {
        let oc = text::chars_of(out);
        let t = text::trim_chars(&oc, TrimClass::Whitespace);
        if t.len() == 0 {
            return Ok(None);
        }
        return Ok(Some(text::string_from_chars(&t)));
    }
    let ec = text::chars_of(err);
    let lowered = text::lower_chars(&ec);
    let lt = text::trim_chars(&lowered, TrimClass::Whitespace);
    if lt.len() == 0 {
        return Ok(None);
    }
    if text::contains_str(&lowered, "canceled") || text::contains_str(&lowered, "cancelled")
        || text::contains_str(&lowered, "(-128)") {
        return Ok(None);
    }
    let mut msg = text::chars_of("native folder picker returned error: ");
    let et = text::trim_chars(&ec, TrimClass::Whitespace);
    text::push_all(&mut msg, &et);
    Err(text::string_from_chars(&msg))
}

/// Decides a picker run from its exit status and the raw bytes of its standard
/// output and standard error, each decoded as `String::from_utf8_lossy` does.
pub fn parse_command_output(success: bool, stdout: &[u8], stderr: &[u8]) -> (r: Result<
    Option<String>,
    String,
>)
    ensures
        outcome_view(r) == picker_outcome(success, lossy_text(stdout@), lossy_text(stderr@)),
        vstd::utf8::valid_utf8(stdout@) && vstd::utf8::valid_utf8(stderr@) ==> outcome_view(r)
            == picker_outcome(
            success,
            vstd::utf8::decode_utf8(stdout@),
            vstd::utf8::decode_utf8(stderr@),
        ),
{
    let out = lossy_string(stdout);
    let err = lossy_string(stderr);
    interpret_picker_output(success, out.as_str(), err.as_str())
}

} // verus!
