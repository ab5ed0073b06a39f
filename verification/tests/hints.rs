use qust::hints::{
    build_filter_js, build_inject_hints_js, hint_filter_finished, opacity_alpha,
    parse_native_click, REMOVE_HINTS_JS,
};

#[test]
fn native_click_result_requires_two_integer_coordinates() {
    assert_eq!(parse_native_click("native:12:34"), Some((12, 34)));
    assert_eq!(parse_native_click("native:12"), None);
    assert_eq!(parse_native_click("native:x:34"), None);
    assert_eq!(parse_native_click("clicked"), None);
}

#[test]
fn hint_size_is_injected_into_styles() {
    let script = build_inject_hints_js(18, 75);
    assert!(script.contains("font-size: 18px"));
    assert!(script.contains("rgba(241, 196, 15, 0.75)"));
}

#[test]
fn native_click_takes_signed_coordinates_only() {
    assert_eq!(parse_native_click("native:-5:+7"), Some((-5, 7)));
    assert_eq!(parse_native_click("native:1:2:3"), None);
    assert_eq!(parse_native_click("native:99999999999:1"), None);
    assert_eq!(parse_native_click("Native:1:2"), None);
}

#[test]
fn opacity_is_written_with_two_decimals() {
    assert_eq!(opacity_alpha(75), "0.75");
    assert_eq!(opacity_alpha(5), "0.05");
    assert_eq!(opacity_alpha(100), "1.00");
    assert_eq!(opacity_alpha(255), "2.55");
}

#[test]
fn filter_script_holds_the_typed_keys_and_alpha() {
    let script = build_filter_js("as", 40);
    assert!(script.contains("const typed = 'as';"));
    assert!(script.contains("rgba(46, 204, 113, 0.40)"));
    assert!(script.contains("rgba(241, 196, 15, 0.40)"));
    assert!(!script.contains("{alpha}"));
    assert!(REMOVE_HINTS_JS.contains("__qust_hints"));
}

#[test]
fn hint_mode_ends_on_click_or_no_match() {
    assert!(hint_filter_finished("native:1:2"));
    assert!(hint_filter_finished("clicked"));
    assert!(hint_filter_finished("none"));
    assert!(!hint_filter_finished("filtering"));
}
