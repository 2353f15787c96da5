use dispatch::api::{classify_status, format_body, format_elapsed, format_size, format_status,
    build_header_text, filter_valid_headers, normalize_response};
use dispatch::config::get_badge_class;
use dispatch::models::Method;
use dispatch::strings::{str_eq, str_lt, u64_to_string};

#[test]
fn method_names_are_canonical() {
    assert_eq!(Method::GET.as_str(), "GET");
    assert_eq!(Method::POST.as_str(), "POST");
    assert_eq!(Method::PUT.as_str(), "PUT");
    assert_eq!(Method::PATCH.as_str(), "PATCH");
    assert_eq!(Method::DELETE.as_str(), "DELETE");
}

#[test]
fn method_index_round_trip() {
    for i in 0u32..5 {
        let m = Method::from_index(i);
        assert_eq!(m.to_index(), i);
    }
    assert_eq!(Method::from_index(99).to_index(), 0);
}

#[test]
fn method_parse_accepts_canonical_names_only() {
    assert_eq!(Method::from_str("GET"), Ok(Method::GET));
    assert_eq!(Method::from_str("DELETE"), Ok(Method::DELETE));
    assert_eq!(Method::from_str("get"), Err(()));
    assert_eq!(Method::from_str(""), Err(()));
    assert_eq!(Method::from_str("HEAD"), Err(()));
}

#[test]
fn badge_class_per_method() {
    assert_eq!(get_badge_class("GET"), "badge-get");
    assert_eq!(get_badge_class("POST"), "badge-post");
    assert_eq!(get_badge_class("PUT"), "badge-put");
    assert_eq!(get_badge_class("PATCH"), "badge-patch");
    assert_eq!(get_badge_class("DELETE"), "badge-delete");
    assert_eq!(get_badge_class("HEAD"), "badge-default");
    assert_eq!(get_badge_class(""), "badge-default");
}

#[test]
fn decimal_rendering() {
    assert_eq!(u64_to_string(0), "0");
    assert_eq!(u64_to_string(7), "7");
    assert_eq!(u64_to_string(12345), "12345");
    assert_eq!(u64_to_string(u64::MAX), "18446744073709551615");
}

#[test]
fn string_comparisons() {
    assert!(str_eq("abc", "abc"));
    assert!(!str_eq("abc", "abd"));
    assert!(!str_eq("abc", "ab"));
    assert!(str_lt("abc", "abd"));
    assert!(str_lt("ab", "abc"));
    assert!(!str_lt("abc", "abc"));
    assert!(!str_lt("b", "abc"));
}

#[test]
fn status_line_formatting() {
    assert_eq!(format_status(200, "OK"), "200 OK");
    assert_eq!(format_status(404, "Not Found"), "404 Not Found");
    assert_eq!(format_status(599, ""), "599 ");
}

#[test]
fn elapsed_formatting() {
    assert_eq!(format_elapsed(999), "999us");
    assert_eq!(format_elapsed(10_000), "10.00ms");
    assert_eq!(format_elapsed(12_345), "12.34ms");
    assert_eq!(format_elapsed(1_500_000), "1.50s");
    assert_eq!(format_elapsed(0), "0us");
}

#[test]
fn size_formatting() {
    assert_eq!(format_size(0), "0 bytes");
    assert_eq!(format_size(2), "2 bytes");
    assert_eq!(format_size(1048576), "1048576 bytes");
}

#[test]
fn status_classification_boundaries() {
    assert!(!classify_status(199));
    assert!(classify_status(200));
    assert!(classify_status(299));
    assert!(!classify_status(300));
    assert!(!classify_status(404));
    assert!(!classify_status(500));
}

#[test]
fn body_formatting_pretty_prints_json() {
    assert_eq!(format_body("{\"a\":1}"), "{\n  \"a\": 1\n}");
    assert_eq!(format_body("{}"), "{}");
    assert_eq!(format_body("not json"), "Error: Could not parse JSON");
    assert_eq!(format_body(""), "Error: Could not parse JSON");
}

#[test]
fn header_text_lines() {
    let headers = vec![
        ("content-type".to_string(), "application/json".to_string()),
        ("x-empty".to_string(), "".to_string()),
    ];
    assert_eq!(build_header_text(&headers), "content-type: application/json\nx-empty: \n");
    assert_eq!(build_header_text(&Vec::new()), "");
}

#[test]
fn invalid_headers_are_dropped_individually() {
    let headers = vec![
        ("Accept".to_string(), "text/html".to_string()),
        ("".to_string(), "empty name".to_string()),
        ("bad name".to_string(), "space in name".to_string()),
        ("X-Note".to_string(), "line\nbreak".to_string()),
        ("X-Fine".to_string(), "caf\u{e9} ok".to_string()),
    ];
    let kept = filter_valid_headers(&headers);
    assert_eq!(kept.len(), 2);
    assert_eq!(kept[0].0, "Accept");
    assert_eq!(kept[1].0, "X-Fine");
}

#[test]
fn normalization_assembles_every_field() {
    let headers = vec![("content-type".to_string(), "application/json".to_string())];
    let r = normalize_response(200, "OK", &headers, "{\"a\":1}", 10_000, Some(2));
    assert_eq!(r.status_code, 200);
    assert_eq!(r.status, "200 OK");
    assert_eq!(r.body, "{\n  \"a\": 1\n}");
    assert_eq!(r.headers, "content-type: application/json\n");
    assert_eq!(r.time, "10.00ms");
    assert_eq!(r.size, "2 bytes");
}

#[test]
fn normalization_degrades_non_json_and_missing_length() {
    let r = normalize_response(502, "Bad Gateway", &Vec::new(), "<html>", 2_000_000, None);
    assert_eq!(r.status, "502 Bad Gateway");
    assert_eq!(r.body, "Error: Could not parse JSON");
    assert_eq!(r.size, "0 bytes");
    assert_eq!(r.time, "2.00s");
}
