use dji_log_cli::keychains::{
    fallback_departments, is_invalid_ciphertext_error, FetchOutcome, KeychainFetch, KeychainStep,
};

#[test]
fn fallback_departments_are_fly_go_pilot() {
    assert_eq!(fallback_departments(), vec![3, 2, 7]);
}

#[test]
fn invalid_ciphertext_is_recognised() {
    assert!(is_invalid_ciphertext_error(Some("invalid ciphertext")));
    assert!(!is_invalid_ciphertext_error(Some("Invalid ciphertext")));
    assert!(!is_invalid_ciphertext_error(Some("invalid ciphertext ")));
    assert!(!is_invalid_ciphertext_error(None));
}

#[test]
fn first_fetch_uses_requested_department() {
    let (_, step) = KeychainFetch::start(Some(5));
    assert_eq!(step, KeychainStep::Fetch { department: Some(5) });
    let (_, step) = KeychainFetch::start(None);
    assert_eq!(step, KeychainStep::Fetch { department: None });
}

#[test]
fn refused_inferred_department_is_retried_with_others() {
    let (mut fetch, _) = KeychainFetch::start(None);
    let step = fetch.next(FetchOutcome::InvalidCiphertext { department: 3 });
    assert_eq!(step, KeychainStep::Fetch { department: Some(2) });
    let step = fetch.next(FetchOutcome::InvalidCiphertext { department: 2 });
    assert_eq!(step, KeychainStep::Fetch { department: Some(7) });
    let step = fetch.next(FetchOutcome::InvalidCiphertext { department: 7 });
    assert_eq!(step, KeychainStep::FailWithFirst);
}

#[test]
fn retry_success_names_department() {
    let (mut fetch, _) = KeychainFetch::start(None);
    let step = fetch.next(FetchOutcome::InvalidCiphertext { department: 1 });
    assert_eq!(step, KeychainStep::Fetch { department: Some(3) });
    let step = fetch.next(FetchOutcome::Fetched);
    assert_eq!(step, KeychainStep::Succeed { retried_department: Some(3) });
}

#[test]
fn retry_stops_at_other_errors() {
    let (mut fetch, _) = KeychainFetch::start(None);
    let step = fetch.next(FetchOutcome::InvalidCiphertext { department: 7 });
    assert_eq!(step, KeychainStep::Fetch { department: Some(3) });
    let step = fetch.next(FetchOutcome::OtherError);
    assert_eq!(step, KeychainStep::FailWithLast);

    let (mut fetch, _) = KeychainFetch::start(None);
    fetch.next(FetchOutcome::InvalidCiphertext { department: 2 });
    let step = fetch.next(FetchOutcome::RequestFailed);
    assert_eq!(step, KeychainStep::FailWithLast);
}

#[test]
fn custom_department_is_not_retried() {
    let (mut fetch, _) = KeychainFetch::start(Some(3));
    let step = fetch.next(FetchOutcome::InvalidCiphertext { department: 3 });
    assert_eq!(step, KeychainStep::FailWithLast);
}

#[test]
fn first_fetch_outcomes_pass_through() {
    let (mut fetch, _) = KeychainFetch::start(None);
    assert_eq!(
        fetch.next(FetchOutcome::Fetched),
        KeychainStep::Succeed { retried_department: None }
    );
    let (mut fetch, _) = KeychainFetch::start(None);
    assert_eq!(fetch.next(FetchOutcome::OtherError), KeychainStep::FailWithLast);
    let (mut fetch, _) = KeychainFetch::start(None);
    assert_eq!(fetch.next(FetchOutcome::RequestFailed), KeychainStep::FailWithLast);
}
