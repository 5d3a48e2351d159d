use kwatcher::frame::frame_split;
use kwatcher::serve::{filter_from_query, kind_allowed, Filter};

#[test]
fn splits_complete_object() {
    let buf = b"{\"a\":1}{\"b\":2}".to_vec();
    assert_eq!(frame_split(&buf), Some(7));
}

#[test]
fn waits_for_partial_frame() {
    let buf = b"{\"a\":{\"b\":1}".to_vec();
    assert_eq!(frame_split(&buf), None);
    let buf = b"".to_vec();
    assert_eq!(frame_split(&buf), None);
}

#[test]
fn skips_leading_whitespace() {
    let buf = b"  \n{\"a\":1}".to_vec();
    assert_eq!(frame_split(&buf), Some(10));
}

#[test]
fn braces_inside_strings_do_not_count() {
    let buf = b"{\"a\":\"}{\"}".to_vec();
    assert_eq!(frame_split(&buf), Some(10));
}

#[test]
fn escaped_quotes_stay_inside_strings() {
    let buf = b"{\"a\":\"x\\\"}\"}".to_vec();
    assert_eq!(frame_split(&buf), Some(12));
}

#[test]
fn arrays_split_too() {
    let buf = b"[1,2,[3]] tail".to_vec();
    assert_eq!(frame_split(&buf), Some(9));
}

#[test]
fn garbage_start_gives_up() {
    let buf = b"hello".to_vec();
    assert_eq!(frame_split(&buf), None);
}

#[test]
fn no_filter_passes_everything() {
    assert!(kind_allowed(&None, &"Pod".to_string()));
}

#[test]
fn include_filter_selects_named_kinds() {
    let f = Some(Filter::Include(vec!["Pod".to_string(), "Node".to_string()]));
    assert!(kind_allowed(&f, &"Pod".to_string()));
    assert!(!kind_allowed(&f, &"Secret".to_string()));
}

#[test]
fn exclude_filter_drops_named_kinds() {
    let f = Some(Filter::Exclude(vec!["Secret".to_string()]));
    assert!(kind_allowed(&f, &"Pod".to_string()));
    assert!(!kind_allowed(&f, &"Secret".to_string()));
}

#[test]
fn query_filters_are_mutually_exclusive() {
    let csv = "Pod,Node".to_string();
    assert_eq!(
        filter_from_query(Some(&csv), None),
        Ok(Some(Filter::Include(vec!["Pod".to_string(), "Node".to_string()])))
    );
    assert_eq!(
        filter_from_query(None, Some(&csv)),
        Ok(Some(Filter::Exclude(vec!["Pod".to_string(), "Node".to_string()])))
    );
    assert_eq!(filter_from_query(None, None), Ok(None));
    assert_eq!(filter_from_query(Some(&csv), Some(&csv)), Err(()));
}
