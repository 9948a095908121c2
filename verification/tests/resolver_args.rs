use grrs::errors::SearchError;
use grrs::resolver::parse_args;

#[test]
fn test_arg_parsing_few_args() {
    let just_2_params = vec![String::from("/home/someuser/test"), String::from("match")];

    let result_code = parse_args(&just_2_params).unwrap_err().exit_code();
    assert_eq!(1, result_code)
}

#[test]
fn test_arg_parsing_no_path() {
    let just_2_params = vec![String::from("--"), String::from(""), String::from("match")];

    let result_code = parse_args(&just_2_params).unwrap_err().exit_code();
    assert_eq!(1, result_code)
}

#[test]
fn test_arg_parsing_no_match() {
    let just_2_params = vec![String::from("--"), String::from("/home/someuser/test"), String::from("")];

    let result_code = parse_args(&just_2_params).unwrap_err().exit_code();
    assert_eq!(1, result_code)
}

#[test]
fn empty_argument_vector_is_invalid() {
    let args: Vec<String> = Vec::new();
    let err = parse_args(&args).unwrap_err();
    assert_eq!(err, SearchError::InvalidArguments);
}

#[test]
fn missing_arguments_fail_with_invalid_arguments() {
    let args = vec![String::from("grrs")];
    let err = parse_args(&args).unwrap_err();
    assert_eq!(err, SearchError::InvalidArguments);
}

#[test]
fn empty_path_fails_with_invalid_arguments() {
    let args = vec![String::from("grrs"), String::from(""), String::from("needle")];
    let err = parse_args(&args).unwrap_err();
    assert_eq!(err, SearchError::InvalidArguments);
}

#[test]
fn empty_term_fails_with_invalid_arguments() {
    let args = vec![String::from("grrs"), String::from("/tmp/root"), String::from("")];
    let err = parse_args(&args).unwrap_err();
    assert_eq!(err, SearchError::InvalidArguments);
}

#[test]
fn valid_arguments_build_the_request_verbatim() {
    let args = vec![
        String::from("grrs"),
        String::from("  /spaced/path "),
        String::from(" needle "),
    ];
    let req = parse_args(&args).unwrap();
    assert_eq!(req.root_path, "  /spaced/path ");
    assert_eq!(req.term, " needle ");
}

#[test]
fn extra_arguments_are_ignored() {
    let args = vec![
        String::from("grrs"),
        String::from("/root"),
        String::from("needle"),
        String::from("extra"),
    ];
    let req = parse_args(&args).unwrap();
    assert_eq!(req.root_path, "/root");
    assert_eq!(req.term, "needle");
}

#[test]
fn error_exit_codes_follow_the_taxonomy() {
    assert_eq!(SearchError::InvalidArguments.exit_code(), 1);
    assert_eq!(SearchError::DirectoryUnreadable.exit_code(), 1);
    assert_eq!(SearchError::FileUnreadable.exit_code(), 0);
    assert!(SearchError::InvalidArguments.is_fatal());
    assert!(SearchError::DirectoryUnreadable.is_fatal());
    assert!(!SearchError::FileUnreadable.is_fatal());
}
