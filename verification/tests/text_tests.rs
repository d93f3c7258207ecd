use erudaite_core::payload::PayloadFields;
use erudaite_core::relay::{event_for_payload, frame_event_of, StreamEvent};
use erudaite_core::screen::{
    bgra_to_rgba, installer_launch_succeeded, ocr_capture_file_name, validate_rect, CaptureRect,
    CursorPosition,
};
use erudaite_core::sentinel::decimal_string;
use erudaite_core::text::{
    find_char_in, find_sub_in, str_contains, str_ends_with, str_eq, str_lt, str_starts_with,
    trim_of,
};
use erudaite_core::tools::{
    extract_setup_links, first_nonempty_trimmed_line, latest_setup_link, pick_tool_path,
};
use erudaite_core::url::{api_endpoint, normalize_base_url};

#[test]
fn trimming_strips_blank_edges_only() {
    assert_eq!(trim_of("  hello world \t\r\n"), "hello world");
    assert_eq!(trim_of("inner  space"), "inner  space");
    assert_eq!(trim_of("   "), "");
    assert_eq!(trim_of(""), "");
    assert_eq!(trim_of("x"), "x");
}

#[test]
fn string_comparisons() {
    assert!(str_eq("abc", "abc"));
    assert!(!str_eq("abc", "abd"));
    assert!(!str_eq("abc", "ab"));
    assert!(str_starts_with("data: x", "data: "));
    assert!(!str_starts_with("dat", "data: "));
    assert!(str_ends_with("setup.exe", ".exe"));
    assert!(!str_ends_with("setup.exe.bak", ".exe"));
    assert!(str_contains("a __MARK__ b", "__MARK__"));
    assert!(!str_contains("a _MARK_ b", "__MARK__"));
    assert!(str_contains("anything", ""));
}

#[test]
fn searching_finds_first_positions() {
    assert_eq!(find_char_in("ab\ncd\n", '\n'), Some(2));
    assert_eq!(find_char_in("abcd", '\n'), None);
    assert_eq!(find_sub_in("xxhref=\"a\"", "href=\""), Some(2));
    assert_eq!(find_sub_in("xx", "href=\""), None);
}

#[test]
fn lexicographic_order_matches_rust() {
    let pairs = [
        ("a", "b"),
        ("", "a"),
        ("abc", "abd"),
        ("ab", "abc"),
        ("setup-5.4.0", "setup-5.5.0"),
    ];
    for (a, b) in pairs {
        assert!(str_lt(a, b));
        assert!(!str_lt(b, a));
        assert_eq!(str_lt(a, b), a < b);
    }
    assert!(!str_lt("same", "same"));
}

#[test]
fn base_urls_are_normalized() {
    assert_eq!(normalize_base_url(" https://api.example.com/ "), "https://api.example.com");
    assert_eq!(normalize_base_url("https://api.example.com///"), "https://api.example.com");
    assert_eq!(normalize_base_url("https://api.example.com"), "https://api.example.com");
    assert_eq!(normalize_base_url("  "), "");
    assert_eq!(
        api_endpoint("https://api.example.com/ ", "/api/translate"),
        "https://api.example.com/api/translate"
    );
    assert_eq!(
        api_endpoint("https://api.example.com", "/api/detect-language"),
        "https://api.example.com/api/detect-language"
    );
}

#[test]
fn first_nonblank_line_is_found_trimmed() {
    let out = "\n   \n  C:\\Tools\\tesseract.exe  \r\nmore\n";
    assert_eq!(
        first_nonempty_trimmed_line(out),
        Some("C:\\Tools\\tesseract.exe".to_string())
    );
    assert_eq!(first_nonempty_trimmed_line("\n \n\t\n"), None);
    assert_eq!(first_nonempty_trimmed_line(""), None);
    assert_eq!(first_nonempty_trimmed_line("only"), Some("only".to_string()));
}

#[test]
fn tool_path_prefers_a_real_explicit_path() {
    let detected = Some("C:\\found.exe".to_string());
    assert_eq!(
        pick_tool_path(Some("C:\\mine.exe".to_string()), detected.clone()),
        Some("C:\\mine.exe".to_string())
    );
    assert_eq!(pick_tool_path(Some("   ".to_string()), detected.clone()), detected);
    assert_eq!(pick_tool_path(None, detected.clone()), detected);
    assert_eq!(pick_tool_path(Some("  ".to_string()), None), None);
}

#[test]
fn setup_links_are_extracted_in_order() {
    let html = "<a href=\"tesseract-ocr-w64-setup-5.4.0.exe\">old</a>\
        <a href=\"readme.html\">doc</a>\
        <a href=\"tesseract-ocr-w64-setup-5.5.0.20241111.exe\">new</a>\
        <a href=\"tesseract-ocr-w32-setup-5.5.0.exe\">wrong arch</a>\
        <a href=\"tesseract-ocr-w64-setup-5.3.1.exe.sig\">signature</a>";
    let links = extract_setup_links(html);
    assert_eq!(
        links,
        vec![
            "tesseract-ocr-w64-setup-5.4.0.exe".to_string(),
            "tesseract-ocr-w64-setup-5.5.0.20241111.exe".to_string(),
        ]
    );
    assert_eq!(
        latest_setup_link(html),
        Some("tesseract-ocr-w64-setup-5.5.0.20241111.exe".to_string())
    );
    assert_eq!(latest_setup_link("<p>no links</p>"), None);
    assert_eq!(extract_setup_links(""), Vec::<String>::new());
}

#[test]
fn rects_and_cursor_positions() {
    assert!(validate_rect(&CaptureRect { x: -5, y: 10, width: 800, height: 600 }));
    assert!(!validate_rect(&CaptureRect { x: 0, y: 0, width: 0, height: 600 }));
    assert!(!validate_rect(&CaptureRect { x: 0, y: 0, width: 800, height: 0 }));
    let p = CursorPosition { x: 3, y: -4 };
    assert_eq!(p, CursorPosition { x: 3, y: -4 });
}

#[test]
fn pixel_channels_are_swapped_in_whole_pixels() {
    let mut px: Vec<u8> = vec![1, 2, 3, 4, 5, 6, 7, 8, 9, 10];
    bgra_to_rgba(&mut px);
    // Two whole pixels swapped; the trailing partial pixel untouched.
    assert_eq!(px, vec![3, 2, 1, 4, 7, 6, 5, 8, 9, 10]);
    let mut empty: Vec<u8> = Vec::new();
    bgra_to_rgba(&mut empty);
    assert!(empty.is_empty());
}

#[test]
fn capture_file_names_carry_the_instant() {
    assert_eq!(ocr_capture_file_name(123), "erudaite-ocr-123.png");
    assert_eq!(ocr_capture_file_name(0), "erudaite-ocr-0.png");
}

#[test]
fn decimal_strings() {
    assert_eq!(decimal_string(0), "0");
    assert_eq!(decimal_string(10), "10");
    assert_eq!(decimal_string(907), "907");
    assert_eq!(decimal_string(1_234_567_890_123), "1234567890123");
    assert_eq!(decimal_string(u64::MAX), "18446744073709551615");
}

#[test]
fn launcher_result_codes() {
    assert!(installer_launch_succeeded(33));
    assert!(installer_launch_succeeded(42));
    assert!(!installer_launch_succeeded(32));
    assert!(!installer_launch_succeeded(0));
    assert!(!installer_launch_succeeded(-1));
}

#[test]
fn payload_decoding_reaches_the_json_fields() {
    // Through the public frame decoder: the payload's JSON really is parsed.
    match frame_event_of("data: {\"content\":\"He said \\\"hi\\\"\"}") {
        Some(StreamEvent::Delta { content }) => assert_eq!(content, "He said \"hi\""),
        other => panic!("expected a delta, got {other:?}"),
    }
    match frame_event_of("data: {\"error\":\"quota\"}") {
        Some(StreamEvent::Error { message }) => assert_eq!(message, "quota"),
        other => panic!("expected an error, got {other:?}"),
    }
    assert!(frame_event_of("data: {\"content\":\"\"}").is_none());
    assert!(frame_event_of("not a frame").is_none());
    assert!(frame_event_of("data: 17").is_none());
    assert!(matches!(frame_event_of("data: [DONE]"), Some(StreamEvent::Done)));
    assert!(matches!(frame_event_of("data:  [DONE] \r"), Some(StreamEvent::Done)));
}

#[test]
fn payload_fields_decide_the_event() {
    let fields = PayloadFields {
        content: Some("".to_string()),
        error: Some("e".to_string()),
    };
    match event_for_payload(fields) {
        Some(StreamEvent::Error { message }) => assert_eq!(message, "e"),
        other => panic!("expected an error, got {other:?}"),
    }
    let fields = PayloadFields { content: Some("text".to_string()), error: Some("e".to_string()) };
    match event_for_payload(fields) {
        Some(StreamEvent::Delta { content }) => assert_eq!(content, "text"),
        other => panic!("expected a delta, got {other:?}"),
    }
    let fields = PayloadFields { content: None, error: None };
    assert!(event_for_payload(fields).is_none());
}
