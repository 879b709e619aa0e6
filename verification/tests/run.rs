use dji_log_cli::output::build_output_plan;
use dji_log_cli::run::{DecodeRun, RunAction};

fn decode_target(action: RunAction) -> (String, String, String) {
    match action {
        RunAction::Decode {
            input_path,
            output_path,
            message,
        } => (input_path, output_path, message),
        RunAction::Finish { .. } => panic!("the run ended early"),
    }
}

fn finish_lines(action: RunAction) -> Vec<String> {
    match action {
        RunAction::Finish { lines } => lines,
        RunAction::Decode { .. } => panic!("the run did not end"),
    }
}

#[test]
fn run_goes_on_past_failures_and_reports_them_twice() {
    let inputs = vec!["a.txt".to_owned(), "b.txt".to_owned(), "c.txt".to_owned()];
    let existing = vec!["b.json".to_owned()];
    let plan = build_output_plan(&inputs, &[], false, &existing).unwrap();
    let (mut run, lines) = DecodeRun::start(&plan, false);
    assert_eq!(
        lines,
        vec![
            "Output file(s) already exist; skipping them. Use --overwrite to replace:".to_owned(),
            "  b.json".to_owned(),
        ]
    );

    let (input, output, message) = decode_target(run.next_action());
    assert_eq!((input.as_str(), output.as_str()), ("a.txt", "a.json"));
    assert_eq!(message, "Decoding file a.txt as a.json");
    assert_eq!(
        run.finish_file(Some("file is not a parsable DJI log".to_owned())),
        vec!["Skipping file a.txt: file is not a parsable DJI log".to_owned()]
    );

    let (input, output, _) = decode_target(run.next_action());
    assert_eq!((input.as_str(), output.as_str()), ("c.txt", "c.json"));
    assert!(run.finish_file(None).is_empty());

    assert_eq!(
        finish_lines(run.next_action()),
        vec![
            "File(s) skipped because they could not be decoded:".to_owned(),
            "  a.txt: file is not a parsable DJI log".to_owned(),
            "Decoded 1 file(s)".to_owned(),
        ]
    );
}

#[test]
fn run_with_overwrite_reports_overwritten_outputs() {
    let inputs = vec!["a.txt".to_owned(), "b.txt".to_owned()];
    let existing = vec!["b.json".to_owned()];
    let plan = build_output_plan(&inputs, &[], true, &existing).unwrap();
    let (mut run, lines) = DecodeRun::start(&plan, true);
    assert!(lines.is_empty());
    decode_target(run.next_action());
    run.finish_file(None);
    let (input, _, _) = decode_target(run.next_action());
    assert_eq!(input, "b.txt");
    run.finish_file(None);
    assert_eq!(
        finish_lines(run.next_action()),
        vec![
            "Overwrote existing output file(s):".to_owned(),
            "  b.json".to_owned(),
            "Decoded 2 file(s)".to_owned(),
        ]
    );
}

#[test]
fn empty_run_only_summarises() {
    let plan = build_output_plan(&["x.json".to_owned()], &[], false, &[]).unwrap();
    let (run, lines) = DecodeRun::start(&plan, false);
    assert!(lines.is_empty());
    assert_eq!(finish_lines(run.next_action()), vec!["Decoded 0 file(s)".to_owned()]);
}
