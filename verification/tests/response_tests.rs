use cart_core::response::{map_pg_error_code, page_offset, FieldError, FilterOptions, MyBaseResponse};
use cart_core::strutil::{parse_u32, search_pattern, str_eq};

#[test]
fn ok_uses_default_message() {
    let r: MyBaseResponse<u32> = MyBaseResponse::ok(Some(5), None);
    assert_eq!(r.code, 200);
    assert_eq!(r.message, "OK");
    assert_eq!(r.data, Some(5));

    let r: MyBaseResponse<u32> = MyBaseResponse::ok(None, Some("Cart created".to_string()));
    assert_eq!(r.code, 200);
    assert_eq!(r.message, "Cart created");
    assert_eq!(r.data, None);
}

#[test]
fn error_carries_code_and_message() {
    let r: MyBaseResponse<u32> = MyBaseResponse::error(404, "Item not found");
    assert_eq!(r.code, 404);
    assert_eq!(r.message, "Item not found");
    assert_eq!(r.data, None);
}

#[test]
fn from_field_error_parses_the_code() {
    let e = FieldError::new("id".to_string(), "Already exists".to_string(), "409".to_string());
    let r: MyBaseResponse<u32> = MyBaseResponse::from_field_error(&e);
    assert_eq!(r.code, 409);
    assert_eq!(r.message, "Already exists");

    let e = FieldError::new("x".to_string(), "boom".to_string(), "not-a-code".to_string());
    let r: MyBaseResponse<u32> = MyBaseResponse::from_field_error(&e);
    assert_eq!(r.code, 500);

    let e = FieldError::new("x".to_string(), "boom".to_string(), "".to_string());
    let r: MyBaseResponse<u32> = MyBaseResponse::from_field_error(&e);
    assert_eq!(r.code, 500);
}

#[test]
fn pg_codes_map_to_stable_diagnostics() {
    let cases = [
        ("23505", "Already exists", "409"),
        ("23502", "Required field missing", "400"),
        ("23503", "Foreign key violation", "400"),
        ("23514", "Check constraint failed", "400"),
    ];
    for (code, message, client_code) in cases {
        let e = map_pg_error_code(code, "email".to_string(), "raw");
        assert_eq!(e.field, "email");
        assert_eq!(e.message, message);
        assert_eq!(e.code, client_code);
    }
    let e = map_pg_error_code("57014", "".to_string(), "query cancelled");
    assert_eq!(e.message, "query cancelled");
    assert_eq!(e.code, "500");
}

#[test]
fn parse_u32_accepts_exact_digit_strings() {
    assert_eq!(parse_u32("0"), Some(0));
    assert_eq!(parse_u32("42"), Some(42));
    assert_eq!(parse_u32("4294967295"), Some(u32::MAX));
    assert_eq!(parse_u32("4294967296"), None);
    assert_eq!(parse_u32(""), None);
    assert_eq!(parse_u32("12a"), None);
    assert_eq!(parse_u32("-1"), None);
}

#[test]
fn page_offset_defaults_and_overflow() {
    assert_eq!(page_offset(None, None), Some((10, 0)));
    assert_eq!(page_offset(Some(1), Some(25)), Some((25, 0)));
    assert_eq!(page_offset(Some(3), Some(20)), Some((20, 40)));
    assert_eq!(page_offset(Some(i64::MAX), Some(i64::MAX)), None);
    assert_eq!(page_offset(Some(i64::MIN), Some(2)), None);
    assert_eq!(page_offset(Some(i64::MIN), Some(0)), Some((0, 0)));
}

#[test]
fn search_pattern_wraps_the_term() {
    assert_eq!(search_pattern("widget"), "%widget%");
    assert_eq!(search_pattern(""), "%%");
}

#[test]
fn str_eq_compares_by_characters() {
    assert!(str_eq("abc", "abc"));
    assert!(!str_eq("abc", "abd"));
    assert!(!str_eq("abc", "ab"));
    assert!(str_eq("", ""));
}

#[test]
fn filter_options_default_is_empty() {
    let f = FilterOptions::default();
    assert_eq!(f.page, None);
    assert_eq!(f.limit, None);
    assert_eq!(f.search, None);
}
