use dji_log_cli::output::build_output_plan;
use dji_log_cli::report::{
    decoded_summary, decoding_message, existing_outputs_report, failure_message,
    keychains_required, overwritten_outputs_report, parse_failures_report,
    retry_success_message, skipping_message, DecodeFailure, ParseFailure,
};

#[test]
fn existing_outputs_reported_unless_overwrite() {
    let inputs = vec!["a.txt".to_owned(), "b.txt".to_owned()];
    let existing = vec!["b.json".to_owned()];
    let plan = build_output_plan(&inputs, &[], false, &existing).unwrap();
    assert_eq!(
        existing_outputs_report(&plan, false),
        vec![
            "Output file(s) already exist; skipping them. Use --overwrite to replace:".to_owned(),
            "  b.json".to_owned(),
        ]
    );
    assert!(existing_outputs_report(&plan, true).is_empty());
    assert_eq!(
        overwritten_outputs_report(&plan),
        vec!["Overwrote existing output file(s):".to_owned(), "  b.json".to_owned()]
    );
    let plan = build_output_plan(&inputs, &[], false, &[]).unwrap();
    assert!(existing_outputs_report(&plan, false).is_empty());
    assert!(overwritten_outputs_report(&plan).is_empty());
}

#[test]
fn parse_failures_reported() {
    assert!(parse_failures_report(&[]).is_empty());
    let failures = vec![
        ParseFailure {
            input_path: "a.txt".to_owned(),
            error: "file is not a parsable DJI log".to_owned(),
        },
        ParseFailure { input_path: "b.txt".to_owned(), error: "unable to parse frames".to_owned() },
    ];
    assert_eq!(
        parse_failures_report(&failures),
        vec![
            "File(s) skipped because they could not be decoded:".to_owned(),
            "  a.txt: file is not a parsable DJI log".to_owned(),
            "  b.txt: unable to parse frames".to_owned(),
        ]
    );
}

#[test]
fn progress_messages() {
    assert_eq!(decoding_message("a.txt", "a.json"), "Decoding file a.txt as a.json");
    assert_eq!(skipping_message("a.txt", "oops"), "Skipping file a.txt: oops");
    assert_eq!(decoded_summary(0), "Decoded 0 file(s)");
    assert_eq!(decoded_summary(1234567), "Decoded 1234567 file(s)");
    assert_eq!(
        retry_success_message(7),
        "Fetched keychains after retrying with department 7"
    );
    assert_eq!(
        retry_success_message(255),
        "Fetched keychains after retrying with department 255"
    );
}

#[test]
fn keychains_needed_from_version_13() {
    assert!(!keychains_required(12));
    assert!(keychains_required(13));
    assert!(keychains_required(14));
    assert!(!keychains_required(0));
}

#[test]
fn failure_messages() {
    assert_eq!(
        failure_message(&DecodeFailure::Unreadable("No such file".to_owned())),
        "unable to read file: No such file"
    );
    assert_eq!(failure_message(&DecodeFailure::NotADjiLog), "file is not a parsable DJI log");
    assert_eq!(
        failure_message(&DecodeFailure::MissingApiKey),
        "API key is required for version 13 and above"
    );
    assert_eq!(
        failure_message(&DecodeFailure::KeychainFetch("Invalid Api Key".to_owned())),
        "unable to fetch keychain: Invalid Api Key"
    );
    assert_eq!(failure_message(&DecodeFailure::Records), "unable to parse records");
    assert_eq!(failure_message(&DecodeFailure::Frames), "unable to parse frames");
}
