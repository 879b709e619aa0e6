use dji_log_cli::api_key::{dotenv_candidates, find_dotenv};
use dji_log_cli::paths::{default_json_path, find_file_upwards, is_json_path, upward_candidates};

#[test]
fn json_paths_in_any_case() {
    assert!(is_json_path("a.json"));
    assert!(is_json_path("dir/a.JSON"));
    assert!(is_json_path("a.Json"));
    assert!(!is_json_path("a.json.txt"));
    assert!(!is_json_path(".json"));
    assert!(!is_json_path("json"));
    assert!(!is_json_path("a.jsonl"));
    assert!(!is_json_path(""));
}

#[test]
fn default_json_path_cases() {
    assert_eq!(default_json_path("file"), "file.json".to_owned());
    assert_eq!(default_json_path("a/.env"), "a/.env.json".to_owned());
    assert_eq!(default_json_path("a/b.tar.gz"), "a/b.tar.json".to_owned());
    assert_eq!(default_json_path("a/b.JSON"), "a/b.json".to_owned());
}

#[test]
fn candidates_go_up_to_the_root() {
    assert_eq!(
        upward_candidates("/a/b", ".env"),
        vec!["/a/b/.env".to_owned(), "/a/.env".to_owned(), "/.env".to_owned()]
    );
    assert_eq!(
        upward_candidates("x/y", ".env"),
        vec!["x/y/.env".to_owned(), "x/.env".to_owned(), ".env".to_owned()]
    );
}

#[test]
fn find_file_upwards_takes_the_nearest() {
    let existing = vec!["/.env".to_owned(), "/a/.env".to_owned()];
    assert_eq!(
        find_file_upwards("/a/b", ".env", &existing),
        Some("/a/.env".to_owned())
    );
    assert_eq!(find_file_upwards("/a/b", ".env", &[].to_vec()), None);
    assert_eq!(
        find_file_upwards("/a/b", ".env", &vec!["/a/b/.env".to_owned()]),
        Some("/a/b/.env".to_owned())
    );
}

#[test]
fn dotenv_search_prefers_current_directory() {
    assert_eq!(
        dotenv_candidates(Some("/w/p"), Some("/opt/bin/dji-log")),
        vec![
            "/w/p/.env".to_owned(),
            "/w/.env".to_owned(),
            "/.env".to_owned(),
            "/opt/bin/.env".to_owned(),
            "/opt/.env".to_owned(),
            "/.env".to_owned(),
        ]
    );
    let existing = vec!["/opt/.env".to_owned(), "/w/.env".to_owned()];
    assert_eq!(
        find_dotenv(Some("/w/p"), Some("/opt/bin/dji-log"), &existing),
        Some("/w/.env".to_owned())
    );
    let existing = vec!["/opt/.env".to_owned()];
    assert_eq!(
        find_dotenv(Some("/w/p"), Some("/opt/bin/dji-log"), &existing),
        Some("/opt/.env".to_owned())
    );
    assert_eq!(find_dotenv(None, None, &existing), None);
    assert_eq!(dotenv_candidates(None, None), Vec::<String>::new());
}
