use kquickview::uri::{
    after_clipboard_read, is_file_manager_window, path_from_file_uri, percent_decode_bytes, poll_again, url_decode, PollStep,
    POLL_DEADLINE_MS, POLL_INTERVAL_MS,
};

#[test]
fn decodes_escapes() {
    assert_eq!(url_decode("a%20b"), "a b");
    assert_eq!(url_decode("a%2Fb%2fc"), "a/b/c");
    assert_eq!(url_decode("%C3%A9t%C3%A9"), "été");
}

#[test]
fn plain_text_is_unchanged() {
    assert_eq!(url_decode("/home/juan/héllo.txt"), "/home/juan/héllo.txt");
    assert_eq!(url_decode(""), "");
}

#[test]
fn bad_escapes_keep_percent_and_drop_two_bytes() {
    assert_eq!(url_decode("x%zzy"), "x%y");
    assert_eq!(url_decode("x%4"), "x%");
    assert_eq!(url_decode("x%"), "x%");
    assert_eq!(url_decode("%%41"), "%1");
}

#[test]
fn plus_sign_escape_is_read_as_radix_number() {
    assert_eq!(url_decode("%+f"), "\u{f}");
    assert_eq!(url_decode("%-f!"), "%!");
}

#[test]
fn invalid_utf8_is_replaced() {
    assert_eq!(url_decode("%FF"), "\u{fffd}");
}

#[test]
fn percent_decoding_bytes() {
    assert_eq!(percent_decode_bytes(b"%41%4a%4A"), b"AJJ".to_vec());
    assert_eq!(percent_decode_bytes(&[0x25, 0xc3, 0xa9, 0x21]), vec![0x25, 0x21]);
}

#[test]
fn file_uri_gives_path() {
    assert_eq!(path_from_file_uri("file:///home/u/a%20b.txt"), Some("/home/u/a b.txt".to_string()));
    assert_eq!(path_from_file_uri("file://file:///x"), Some("/x".to_string()));
    assert_eq!(path_from_file_uri("file://"), Some(String::new()));
}

#[test]
fn other_text_gives_no_path() {
    assert_eq!(path_from_file_uri("http://x"), None);
    assert_eq!(path_from_file_uri("/home/u/a"), None);
    assert_eq!(path_from_file_uri("file:/x"), None);
    assert_eq!(path_from_file_uri(""), None);
}

#[test]
fn file_manager_window_titles() {
    assert!(is_file_manager_window("Descargas — Dolphin"));
    assert!(is_file_manager_window("Dolphin"));
    assert!(!is_file_manager_window("Konsole"));
    assert!(!is_file_manager_window("dolphin"));
    assert!(!is_file_manager_window(""));
}

#[test]
fn decoding_undoes_percent_encoding() {
    for text in ["/home/ana/Música/canción ñ.txt", "a b%c", "\u{1f600} ok", ""] {
        let upper: String = text.bytes().map(|b| format!("%{:02X}", b)).collect();
        let lower: String = text.bytes().map(|b| format!("%{:02x}", b)).collect();
        assert_eq!(url_decode(&upper), text);
        assert_eq!(url_decode(&lower), text);
    }
}

#[test]
fn clipboard_polling_steps() {
    assert_eq!(POLL_DEADLINE_MS, 150);
    assert_eq!(POLL_INTERVAL_MS, 10);
    assert!(poll_again(0));
    assert!(poll_again(149));
    assert!(!poll_again(150));
    assert!(!poll_again(u64::MAX));
    assert!(matches!(after_clipboard_read(Some("file:///tmp/a%20b")), PollStep::Found(p) if p == "/tmp/a b"));
    assert!(matches!(after_clipboard_read(Some("hello")), PollStep::Wait(10)));
    assert!(matches!(after_clipboard_read(None), PollStep::Wait(10)));
}
