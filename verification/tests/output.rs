use dji_log_cli::output::{build_output_plan, plan_output_targets};
use dji_log_cli::paths::default_json_path;

#[test]
fn replaces_input_extension_with_json() {
    assert_eq!(
        default_json_path("examples/file1.txt"),
        "examples/file1.json".to_owned()
    );
}

#[test]
fn rejects_mismatched_manual_outputs() {
    let error = build_output_plan(
        &["file1.txt".to_owned(), "file2.txt".to_owned()],
        &["file1.json".to_owned()],
        false,
        &[],
    )
    .unwrap_err();

    assert_eq!(error, "--output expects 2 file(s), but 1 were provided");
}

#[test]
fn accepts_matching_manual_outputs() {
    let plan = build_output_plan(
        &["file1.txt".to_owned(), "file2.txt".to_owned()],
        &["out1.json".to_owned(), "out2.json".to_owned()],
        false,
        &[],
    )
    .unwrap();

    assert_eq!(plan.entries.len(), 2);
    assert_eq!(plan.entries[0].output_path, "out1.json".to_owned());
    assert_eq!(plan.entries[1].output_path, "out2.json".to_owned());
}

#[test]
fn ignores_json_inputs_in_automatic_output_mode() {
    let plan = build_output_plan(
        &[
            "examples/file1.json".to_owned(),
            "examples/file1.txt".to_owned(),
        ],
        &[],
        false,
        &[],
    )
    .unwrap();

    assert_eq!(plan.entries.len(), 1);
    assert_eq!(plan.entries[0].input_path, "examples/file1.txt".to_owned());
    assert_eq!(plan.entries[0].output_path, "examples/file1.json".to_owned());
}

#[test]
fn keeps_json_inputs_when_outputs_are_explicit() {
    let plan = build_output_plan(
        &["examples/file1.json".to_owned()],
        &["examples/file1.out.json".to_owned()],
        false,
        &[],
    )
    .unwrap();

    assert_eq!(plan.entries.len(), 1);
    assert_eq!(plan.entries[0].input_path, "examples/file1.json".to_owned());
}

#[test]
fn mismatch_message_writes_larger_counts() {
    let inputs: Vec<String> = (0..12).map(|i| format!("f{}.txt", i)).collect();
    let outputs: Vec<String> = (0..10).map(|i| format!("o{}.json", i)).collect();
    let error = build_output_plan(&inputs, &outputs, true, &[]).unwrap_err();
    assert_eq!(error, "--output expects 12 file(s), but 10 were provided");
    let error = plan_output_targets(&inputs, &outputs).unwrap_err();
    assert_eq!(error, "--output expects 12 file(s), but 10 were provided");
}

#[test]
fn existing_outputs_are_skipped_without_overwrite() {
    let inputs = vec!["a.txt".to_owned(), "b.txt".to_owned(), "c.txt".to_owned()];
    let existing = vec!["a.json".to_owned(), "c.json".to_owned()];
    let plan = build_output_plan(&inputs, &[], false, &existing).unwrap();
    let skips: Vec<bool> = plan.entries.iter().map(|e| e.skip).collect();
    assert_eq!(skips, vec![true, false, true]);
    assert_eq!(plan.existing_outputs, vec!["a.json".to_owned(), "c.json".to_owned()]);

    let plan = build_output_plan(&inputs, &[], true, &existing).unwrap();
    let skips: Vec<bool> = plan.entries.iter().map(|e| e.skip).collect();
    assert_eq!(skips, vec![false, false, false]);
    assert_eq!(plan.existing_outputs, vec!["a.json".to_owned(), "c.json".to_owned()]);
}

#[test]
fn existing_outputs_are_listed_once_per_path() {
    let inputs = vec!["a.txt".to_owned(), "b.txt".to_owned(), "c.txt".to_owned()];
    let outputs = vec![
        "dir/o.json".to_owned(),
        "dir//o.json".to_owned(),
        "dir/o.json".to_owned(),
    ];
    let existing = outputs.clone();
    let plan = build_output_plan(&inputs, &outputs, false, &existing).unwrap();
    assert_eq!(plan.existing_outputs, vec!["dir/o.json".to_owned()]);
    assert!(plan.entries.iter().all(|e| e.skip));
    assert_eq!(plan.entries[1].output_path, "dir//o.json".to_owned());
}

#[test]
fn automatic_mode_with_no_inputs_left() {
    let plan = build_output_plan(&["x.JSON".to_owned(), "y.Json".to_owned()], &[], false, &[])
        .unwrap();
    assert!(plan.entries.is_empty());
    assert!(plan.existing_outputs.is_empty());
}

#[test]
fn planned_targets_match_plan() {
    let inputs = vec!["logs/flight.txt".to_owned(), "logs/notes.json".to_owned(), "raw".to_owned()];
    let targets = plan_output_targets(&inputs, &[]).unwrap();
    let pairs: Vec<(String, String)> = targets
        .into_iter()
        .map(|t| (t.input_path, t.output_path))
        .collect();
    assert_eq!(
        pairs,
        vec![
            ("logs/flight.txt".to_owned(), "logs/flight.json".to_owned()),
            ("raw".to_owned(), "raw.json".to_owned()),
        ]
    );
}
