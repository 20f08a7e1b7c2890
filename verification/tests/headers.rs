use qaid::domain::error::{APIError, BadHeaderInfo};
use qaid::domain::headers::Headers;

#[test]
fn good_header_should_return_ok() {
    let headers_vec = vec!["one".to_owned(), "two".to_owned(), "three".to_owned(), "four".to_owned()];
    let headers = Headers::parse(headers_vec);
    assert!(headers.is_ok());
}

#[test]
fn headers_with_empty_or_duplicate_headers_should_return_an_err() {
    let headers_vec = vec!["one".to_owned(), "one".to_owned(), "three".to_owned(), "four".to_owned()];
    let headers = Headers::parse(headers_vec);
    let expected_err = BadHeaderInfo {
        empty: vec![],
        duplicate: vec!["one".to_owned()],
    };
    assert_eq!(headers, Err(APIError::BadHeaders(expected_err)));

    let headers_vec = vec!["one".to_owned(), "".to_owned(), "three".to_owned(), "four".to_owned()];
    let headers = Headers::parse(headers_vec);
    let expected_err = BadHeaderInfo {
        empty: vec![1],
        duplicate: vec![],
    };
    assert_eq!(headers, Err(APIError::BadHeaders(expected_err)));

    let headers_vec = vec![
        "one".to_owned(),
        "".to_owned(),
        "   ".to_owned(),
        "four".to_owned(),
        "four".to_owned(),
    ];
    let headers = Headers::parse(headers_vec);
    let expected_err = BadHeaderInfo {
        empty: vec![1, 2],
        duplicate: vec!["four".to_owned()],
    };
    assert_eq!(headers, Err(APIError::BadHeaders(expected_err)));
}

#[test]
fn headers_duplicates_ignore_case() {
    let headers = Headers::parse(vec!["City".to_owned(), "city".to_owned(), "State".to_owned()]);
    let expected_err = BadHeaderInfo {
        empty: vec![],
        duplicate: vec!["city".to_owned()],
    };
    assert_eq!(headers, Err(APIError::BadHeaders(expected_err)));
}

#[test]
fn accepted_headers_are_kept_as_given() {
    let headers = Headers::parse(vec![" PID ".to_owned(), "Name".to_owned()]).unwrap();
    assert_eq!(headers.as_ref(), &vec![" PID ".to_owned(), "Name".to_owned()]);
}

#[test]
fn tab_and_unicode_space_headers_are_blank() {
    let headers = Headers::parse(vec!["\t\n".to_owned(), "a".to_owned(), "\u{3000}".to_owned()]);
    let expected_err = BadHeaderInfo {
        empty: vec![0, 2],
        duplicate: vec![],
    };
    assert_eq!(headers, Err(APIError::BadHeaders(expected_err)));
}
