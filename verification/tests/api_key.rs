use dji_log_cli::api_key::{
    non_empty_string, parse_dotenv_api_key, resolve_api_key, strip_dotenv_quotes,
};

#[test]
fn parses_plain_dotenv_api_key() {
    assert_eq!(
        parse_dotenv_api_key("DJI_API_KEY=test-key\n"),
        Some("test-key".to_owned())
    );
}

#[test]
fn parses_exported_and_quoted_dotenv_api_key() {
    assert_eq!(
        parse_dotenv_api_key("export DJI_API_KEY=\"test-key\"\n"),
        Some("test-key".to_owned())
    );
}

#[test]
fn ignores_blank_dotenv_api_key() {
    assert_eq!(parse_dotenv_api_key("DJI_API_KEY=\n"), None);
}

#[test]
fn dotenv_skips_comments_and_other_variables() {
    let contents = "# DJI_API_KEY=commented\nOTHER=1\n\n  DJI_API_KEY = 'single' \n";
    assert_eq!(parse_dotenv_api_key(contents), Some("single".to_owned()));
}

#[test]
fn dotenv_takes_first_non_blank_assignment() {
    let contents = "DJI_API_KEY=\"  \"\nDJI_API_KEY=second\nDJI_API_KEY=third\n";
    assert_eq!(parse_dotenv_api_key(contents), Some("second".to_owned()));
}

#[test]
fn dotenv_handles_crlf_and_missing_final_newline() {
    assert_eq!(
        parse_dotenv_api_key("A=b\r\nDJI_API_KEY=crlf-key\r\n"),
        Some("crlf-key".to_owned())
    );
    assert_eq!(
        parse_dotenv_api_key("DJI_API_KEY=last"),
        Some("last".to_owned())
    );
}

#[test]
fn dotenv_keeps_equal_signs_in_value() {
    assert_eq!(
        parse_dotenv_api_key("export   DJI_API_KEY=a=b=c"),
        Some("a=b=c".to_owned())
    );
}

#[test]
fn dotenv_rejects_near_miss_names() {
    assert_eq!(parse_dotenv_api_key("DJI_API_KEYS=x\nexportDJI_API_KEY=y\n"), None);
    assert_eq!(parse_dotenv_api_key("DJI_API_KEY x\n"), None);
    assert_eq!(parse_dotenv_api_key(""), None);
}

#[test]
fn non_empty_string_trims() {
    assert_eq!(non_empty_string("  abc \t"), Some("abc".to_owned()));
    assert_eq!(non_empty_string("\u{3000}x y\u{a0}\n"), Some("x y".to_owned()));
    assert_eq!(non_empty_string(" \t\r\n"), None);
    assert_eq!(non_empty_string(""), None);
}

#[test]
fn strip_quotes_removes_one_matching_pair() {
    assert_eq!(strip_dotenv_quotes("\"a\""), "a");
    assert_eq!(strip_dotenv_quotes("'a'"), "a");
    assert_eq!(strip_dotenv_quotes("\"\""), "");
    assert_eq!(strip_dotenv_quotes("\"'a'\""), "'a'");
    assert_eq!(strip_dotenv_quotes("\"a'"), "\"a'");
    assert_eq!(strip_dotenv_quotes("\""), "\"");
    assert_eq!(strip_dotenv_quotes("é\"é"), "é\"é");
}

#[test]
fn api_key_resolution_order() {
    assert_eq!(
        resolve_api_key(Some(" cli "), Some("env"), Some("DJI_API_KEY=file")),
        Some("cli".to_owned())
    );
    assert_eq!(
        resolve_api_key(Some("  "), Some("env"), Some("DJI_API_KEY=file")),
        Some("env".to_owned())
    );
    assert_eq!(
        resolve_api_key(None, Some(""), Some("DJI_API_KEY=file")),
        Some("file".to_owned())
    );
    assert_eq!(resolve_api_key(None, None, None), None);
    assert_eq!(resolve_api_key(None, None, Some("OTHER=1")), None);
}
