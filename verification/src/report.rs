use vstd::prelude::*;

use crate::output::OutputPlan;
use crate::text::{decimal, decimal_string};

verus! {

/// A file that could not be decoded, and why.
#[derive(Debug)]
pub struct ParseFailure {
    pub input_path: String,
    pub error: String,
}

/// Why a file could not be decoded.
#[derive(Debug)]
pub enum DecodeFailure {
    /// The file could not be read; the text is the reason.
    Unreadable(String),
    /// The file is not a DJI log.
    NotADjiLog,
    /// The log is encrypted and no API key was found.
    MissingApiKey,
    /// The keychains could not be fetched; the text is the reason.
    KeychainFetch(String),
    /// The records could not be decoded.
    Records,
    /// The frames could not be decoded.
    Frames,
}

/// Logs from this version on are encrypted and need keychains.
pub const FIRST_ENCRYPTED_VERSION: u8 = 13;

/// Whether a log of `version` needs keychains to be decoded.
pub fn keychains_required(version: u8) -> (r: bool)
    ensures
        r == (version >= FIRST_ENCRYPTED_VERSION),
{
    version >= FIRST_ENCRYPTED_VERSION
}

/// The message for a decoding failure.
pub open spec fn spec_failure_message(failure: DecodeFailure) -> Seq<char> {
    match failure {
        DecodeFailure::Unreadable(reason) => "unable to read file: "@ + reason@,
        DecodeFailure::NotADjiLog => "file is not a parsable DJI log"@,
        DecodeFailure::MissingApiKey => "API key is required for version 13 and above"@,
        DecodeFailure::KeychainFetch(reason) => "unable to fetch keychain: "@ + reason@,
        DecodeFailure::Records => "unable to parse records"@,
        DecodeFailure::Frames => "unable to parse frames"@,
    }
}

/// The message for a decoding failure.
pub fn failure_message(failure: &DecodeFailure) -> (r: String)
    ensures
        r@ == spec_failure_message(*failure),
{
    match failure {
        DecodeFailure::Unreadable(reason) => {
            let mut message = String::from_str("unable to read file: ");
            message.append(reason.as_str());
            message
        },
        DecodeFailure::NotADjiLog => String::from_str("file is not a parsable DJI log"),
        DecodeFailure::MissingApiKey => String::from_str(
            "API key is required for version 13 and above",
        ),
        DecodeFailure::KeychainFetch(reason) => {
            let mut message = String::from_str("unable to fetch keychain: ");
            message.append(reason.as_str());
            message
        },
        DecodeFailure::Records => String::from_str("unable to parse records"),
        DecodeFailure::Frames => String::from_str("unable to parse frames"),
    }
}

/// Each path indented by two spaces, after `header`; nothing when there are no paths.
pub open spec fn path_list_report(header: Seq<char>, paths: Seq<Seq<char>>) -> Seq<Seq<char>> {
    if paths.len() == 0 {
        Seq::empty()
    } else {
        seq![header] + paths.map_values(|p: Seq<char>| "  "@ + p)
    }
}

/// The lines that report the outputs that exist and are skipped.
pub open spec fn spec_existing_outputs_report(existing: Seq<Seq<char>>, overwrite: bool) -> Seq<
    Seq<char>,
> {
    if overwrite {
        Seq::empty()
    } else {
        path_list_report(
            "Output file(s) already exist; skipping them. Use --overwrite to replace:"@,
            existing,
        )
    }
}

/// The lines that report the outputs that were overwritten.
pub open spec fn spec_overwritten_outputs_report(existing: Seq<Seq<char>>) -> Seq<Seq<char>> {
    path_list_report("Overwrote existing output file(s):"@, existing)
}

/// A failure as text: the input path and the reason.
pub open spec fn failure_view(failure: ParseFailure) -> (Seq<char>, Seq<char>) {
    (failure.input_path@, failure.error@)
}

/// The line of the closing report for one failure.
pub open spec fn failure_line(failure: (Seq<char>, Seq<char>)) -> Seq<char> {
    "  "@ + failure.0 + ": "@ + failure.1
}

/// The lines that report the files that could not be decoded.
pub open spec fn spec_parse_failures_report(failures: Seq<(Seq<char>, Seq<char>)>) -> Seq<
    Seq<char>,
> {
    if failures.len() == 0 {
        Seq::empty()
    } else {
        seq!["File(s) skipped because they could not be decoded:"@] + failures.map_values(
            |f: (Seq<char>, Seq<char>)| failure_line(f),
        )
    }
}

/// The line that announces the decoding of `input_path` into `output_path`.
pub open spec fn decoding_text(input_path: Seq<char>, output_path: Seq<char>) -> Seq<char> {
    "Decoding file "@ + input_path + " as "@ + output_path
}

/// The line that reports, at once, that `input_path` is skipped because of `error`.
pub open spec fn skipping_text(input_path: Seq<char>, error: Seq<char>) -> Seq<char> {
    "Skipping file "@ + input_path + ": "@ + error
}

/// The closing line, with the number of files decoded.
pub open spec fn summary_text(decoded: nat) -> Seq<char> {
    "Decoded "@ + decimal(decoded) + " file(s)"@
}

/// `header`, then each of `paths` indented by two spaces.
fn path_list_lines(header: &str, paths: &Vec<String>) -> (r: Vec<String>)
    ensures
        r.deep_view() == path_list_report(header@, paths.deep_view()),
{
    let mut lines: Vec<String> = Vec::new();
    if paths.len() == 0 {
        proof {
            assert(lines.deep_view() =~= Seq::<Seq<char>>::empty());
        }
        return lines;
    }
    lines.push(String::from_str(header));
    let mut i: usize = 0;
    while i < paths.len()
        invariant
            0 <= i <= paths@.len(),
            paths@.len() > 0,
            lines.deep_view() == seq![header@] + paths.deep_view().take(i as int).map_values(
                |p: Seq<char>| "  "@ + p,
            ),
        decreases paths@.len() - i,
    {
        let mut line = String::from_str("  ");
        line.append(paths[i].as_str());
        let ghost before = lines.deep_view();
        lines.push(line);
        proof {
            assert(paths.deep_view().take(i + 1) =~= paths.deep_view().take(i as int).push(
                paths[i as int]@,
            ));
            assert(lines.deep_view() =~= before.push("  "@ + paths[i as int]@));
            assert(lines.deep_view() =~= seq![header@] + paths.deep_view().take(
                i + 1,
            ).map_values(|p: Seq<char>| "  "@ + p));
        }
        i = i + 1;
    }
    proof {
        assert(paths.deep_view().take(paths@.len() as int) =~= paths.deep_view());
    }
    lines
}

/// The lines that report the outputs that exist and are skipped: none when there are none or
/// when `overwrite` is on.
pub fn existing_outputs_report(plan: &OutputPlan, overwrite: bool) -> (r: Vec<String>)
    ensures
        r.deep_view() == spec_existing_outputs_report(plan@.existing_outputs, overwrite),
{
    if overwrite {
        let lines: Vec<String> = Vec::new();
        proof {
            assert(lines.deep_view() =~= Seq::<Seq<char>>::empty());
        }
        return lines;
    }
    path_list_lines(
        "Output file(s) already exist; skipping them. Use --overwrite to replace:",
        &plan.existing_outputs,
    )
}

/// The lines that report the outputs that were overwritten: none when there are none.
pub fn overwritten_outputs_report(plan: &OutputPlan) -> (r: Vec<String>)
    ensures
        r.deep_view() == spec_overwritten_outputs_report(plan@.existing_outputs),
{
    overwritten_lines(&plan.existing_outputs)
}

/// The lines that report `existing` as overwritten: none when there are none.
pub(crate) fn overwritten_lines(existing: &Vec<String>) -> (r: Vec<String>)
    ensures
        r.deep_view() == spec_overwritten_outputs_report(existing.deep_view()),
{
    path_list_lines("Overwrote existing output file(s):", existing)
}

/// The lines that report the files that could not be decoded, with the reasons: none when
/// there are none.
pub fn parse_failures_report(failures: &[ParseFailure]) -> (r: Vec<String>)
    ensures
        r.deep_view() == spec_parse_failures_report(failures@.map_values(|f: ParseFailure| failure_view(f))),
{
    let ghost views = failures@.map_values(|f: ParseFailure| failure_view(f));
    let mut lines: Vec<String> = Vec::new();
    if failures.len() == 0 {
        proof {
            assert(lines.deep_view() =~= Seq::<Seq<char>>::empty());
        }
        return lines;
    }
    lines.push(String::from_str("File(s) skipped because they could not be decoded:"));
    let mut i: usize = 0;
    while i < failures.len()
        invariant
            0 <= i <= failures@.len(),
            failures@.len() > 0,
            views == failures@.map_values(|f: ParseFailure| failure_view(f)),
            lines.deep_view() == seq!["File(s) skipped because they could not be decoded:"@]
                + views.take(i as int).map_values(|f: (Seq<char>, Seq<char>)| failure_line(f)),
        decreases failures@.len() - i,
    {
        let mut line = String::from_str("  ");
        line.append(failures[i].input_path.as_str());
        line.append(": ");
        line.append(failures[i].error.as_str());
        let ghost before = lines.deep_view();
        lines.push(line);
        proof {
            assert(views.take(i + 1) =~= views.take(i as int).push(views[i as int]));
            assert(views[i as int] == failure_view(failures@[i as int]));
            assert(lines.deep_view() =~= before.push(failure_line(views[i as int])));
            assert(lines.deep_view() =~= seq![
                "File(s) skipped because they could not be decoded:"@,
            ] + views.take(i + 1).map_values(|f: (Seq<char>, Seq<char>)| failure_line(f)));
        }
        i = i + 1;
    }
    proof {
        assert(views.take(failures@.len() as int) =~= views);
    }
    lines
}

/// The line that announces the decoding of `input_path` into `output_path`.
pub fn decoding_message(input_path: &str, output_path: &str) -> (r: String)
    ensures
        r@ == decoding_text(input_path@, output_path@),
{
    let mut message = String::from_str("Decoding file ");
    message.append(input_path);
    message.append(" as ");
    message.append(output_path);
    message
}

/// The line that reports that `input_path` is skipped because of `error`.
pub fn skipping_message(input_path: &str, error: &str) -> (r: String)
    ensures
        r@ == skipping_text(input_path@, error@),
{
    let mut message = String::from_str("Skipping file ");
    message.append(input_path);
    message.append(": ");
    message.append(error);
    message
}

/// The closing line, with the number of files decoded.
pub fn decoded_summary(decoded: usize) -> (r: String)
    ensures
        r@ == summary_text(decoded as nat),
{
    let mut message = String::from_str("Decoded ");
    message.append(decimal_string(decoded).as_str());
    message.append(" file(s)");
    message
}

/// The line that reports a retry that fetched the keychains.
pub fn retry_success_message(department: u8) -> (r: String)
    ensures
        r@ == "Fetched keychains after retrying with department "@ + decimal(department as nat),
{
    let mut message = String::from_str("Fetched keychains after retrying with department ");
    message.append(decimal_string(department as usize).as_str());
    message
}

} // verus!
