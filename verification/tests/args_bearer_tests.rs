use kwatcher::args::{parse, ArgsError};
use kwatcher::bearer::{token_header, Bearer, BearerResponseError};

fn argv(args: &[&str]) -> Vec<String> {
    args.iter().map(|a| a.to_string()).collect()
}

#[test]
fn parses_token_path() {
    let a = parse(argv(&["--token-path", "/etc/token"])).expect("should parse");
    assert_eq!(a.token.path, Some("/etc/token".to_string()));
    assert!(!a.token.none);
}

#[test]
fn parses_opt_out() {
    let a = parse(argv(&["--insecure-no-token"])).expect("should parse");
    assert_eq!(a.token.path, None);
    assert!(a.token.none);
}

#[test]
fn requires_one_token_choice() {
    assert_eq!(parse(argv(&[])), Err(ArgsError::MissingTokenChoice));
    assert_eq!(
        parse(argv(&["--token-path", "/t", "--insecure-no-token"])),
        Err(ArgsError::ConflictingTokenChoice)
    );
}

#[test]
fn rejects_unknown_and_incomplete_arguments() {
    assert_eq!(
        parse(argv(&["--verbose"])),
        Err(ArgsError::UnknownArgument("--verbose".to_string()))
    );
    assert_eq!(parse(argv(&["--token-path"])), Err(ArgsError::MissingValue));
    assert_eq!(
        parse(argv(&["--insecure-no-token", "--insecure-no-token"])),
        Err(ArgsError::DuplicateOption)
    );
}

#[test]
fn token_header_prefixes_and_trims() {
    assert_eq!(token_header("abc\n"), "Bearer abc");
    assert_eq!(token_header("abc"), "Bearer abc");
    assert_eq!(token_header("abc  \t\n"), "Bearer abc");
    assert_eq!(token_header(""), "Bearer");
}

#[test]
fn bearer_check_accepts_exact_match() {
    let expected = "Bearer abc".to_string();
    let header = b"Bearer abc".to_vec();
    assert_eq!(Bearer::check(&expected, Some(&header)), Ok(Bearer));
}

#[test]
fn bearer_check_rejects_missing_header() {
    let expected = "Bearer abc".to_string();
    assert_eq!(
        Bearer::check(&expected, None),
        Err(BearerResponseError::MissingAuthHeader)
    );
}

#[test]
fn bearer_check_rejects_mismatch() {
    let expected = "Bearer abc".to_string();
    let header = b"Bearer abd".to_vec();
    assert_eq!(
        Bearer::check(&expected, Some(&header)),
        Err(BearerResponseError::BearerMissmatch)
    );
    let short = b"Bearer ab".to_vec();
    assert_eq!(
        Bearer::check(&expected, Some(&short)),
        Err(BearerResponseError::BearerMissmatch)
    );
}

#[test]
fn status_codes() {
    assert_eq!(BearerResponseError::ConfigMissing.status_code(), 500);
    assert_eq!(BearerResponseError::ConfigRead.status_code(), 500);
    assert_eq!(BearerResponseError::MissingAuthHeader.status_code(), 401);
    assert_eq!(BearerResponseError::BearerMissmatch.status_code(), 401);
}
