use hyperdrive::error::{Error, ErrorKind};
use hyperdrive::method::HttpMethod;
use hyperdrive::text::{join_path, parse_u64, split_path, str_eq};

#[test]
fn split_on_slashes() {
    let parts = split_path("/a/b");
    assert_eq!(parts, vec!["", "a", "b"]);
    assert_eq!(split_path(""), vec![""]);
    assert_eq!(split_path("/"), vec!["", ""]);
    assert_eq!(split_path("a//b/"), vec!["a", "", "b", ""]);
}

#[test]
fn join_undoes_split() {
    for s in ["/a/b", "", "/", "a//b/", "x"] {
        let parts = split_path(s);
        assert_eq!(join_path(&parts, 0), s);
    }
    let parts = split_path("/static/css/site.css");
    assert_eq!(join_path(&parts, 2), "css/site.css");
}

#[test]
fn str_eq_compares_contents() {
    assert!(str_eq("abc", "abc"));
    assert!(!str_eq("abc", "abd"));
    assert!(!str_eq("abc", "ab"));
    assert!(str_eq("", ""));
}

#[test]
fn parse_u64_accepts_numerals() {
    assert_eq!(parse_u64("0"), Some(0));
    assert_eq!(parse_u64("42"), Some(42));
    assert_eq!(parse_u64("0042"), Some(42));
    assert_eq!(parse_u64("18446744073709551615"), Some(u64::MAX));
}

#[test]
fn parse_u64_rejects_junk_and_overflow() {
    assert_eq!(parse_u64(""), None);
    assert_eq!(parse_u64("abc"), None);
    assert_eq!(parse_u64("4a"), None);
    assert_eq!(parse_u64("-1"), None);
    assert_eq!(parse_u64("+1"), None);
    assert_eq!(parse_u64("18446744073709551616"), None);
    assert_eq!(parse_u64("99999999999999999999999"), None);
}

#[test]
fn method_names() {
    assert_eq!(HttpMethod::Get.as_str(), "GET");
    assert_eq!(HttpMethod::Options.as_str(), "OPTIONS");
    assert_eq!(HttpMethod::from_name("GET"), Some(HttpMethod::Get));
    assert_eq!(HttpMethod::from_name("PATCH"), Some(HttpMethod::Patch));
    assert_eq!(HttpMethod::from_name("get"), None);
    assert_eq!(HttpMethod::from_name("TRACE"), None);
}

#[test]
fn error_kind_statuses() {
    assert_eq!(Error::from_kind(ErrorKind::PathSegment).http_status(), 404);
    assert_eq!(Error::from_kind(ErrorKind::QueryParam).http_status(), 400);
    assert_eq!(Error::from_kind(ErrorKind::BadBody).http_status(), 400);
    assert_eq!(Error::from_kind(ErrorKind::GuardFailed).http_status(), 400);
    assert_eq!(Error::from_kind(ErrorKind::WrongMethod).http_status(), 405);
    assert_eq!(
        Error::from_kind(ErrorKind::NoMatchingRoute).http_status(),
        404
    );
}

#[test]
fn from_status_keeps_the_code() {
    let e = Error::from_status(418);
    assert_eq!(e.http_status(), 418);
    assert_eq!(e.kind(), ErrorKind::Other);
    assert!(e.allowed_methods().is_none());
    // 405 alone already means wrong-method, with an empty allowed list
    let e = Error::from_status(405);
    assert_eq!(e.kind(), ErrorKind::WrongMethod);
    assert_eq!(e.allowed_methods(), Some(&vec![]));
}

#[test]
fn with_source_records_the_failure() {
    let e = Error::with_source(400, String::from("bad digit"));
    assert_eq!(e.http_status(), 400);
    assert_eq!(e.source(), Some(&String::from("bad digit")));
}

#[test]
fn response_carries_allow_header() {
    let e = Error::wrong_method(vec![HttpMethod::Get, HttpMethod::Head, HttpMethod::Put]);
    let parts = e.response();
    assert_eq!(parts.status, 405);
    assert_eq!(parts.allow, Some(String::from("GET, HEAD, PUT")));

    let parts = Error::wrong_method(vec![]).response();
    assert_eq!(parts.status, 405);
    assert_eq!(parts.allow, Some(String::from("")));

    let parts = Error::from_status(404).response();
    assert_eq!(parts.status, 404);
    assert!(parts.allow.is_none());
}
