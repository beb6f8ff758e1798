use kquickview::bridge::{index_of_path, KQuickViewBridge, KQuickViewBridgeRust, NO_FILE_MESSAGE};
use kquickview::listing::{sort_listing, ListedFile};
use kquickview::preview::{
    classify, file_category, finish_preview, load_request, probe_is_text, render_markdown, FileCategory, FileKind, FilePreview, LoadOutcome, LoadRequest,
    MARKDOWN_CSS, PROBE_LIMIT, TEXT_LIMIT,
};
use std::path::Path;

fn s(x: &str) -> String {
    x.to_string()
}

fn by(x: &str) -> Vec<u8> {
    x.as_bytes().to_vec()
}

/// A listed file named as `Path::file_name` names it.
fn lf(path: &str) -> ListedFile {
    ListedFile {
        name: Path::new(path).file_name().map(|n| n.to_str().unwrap().as_bytes().to_vec()),
        path: by(path),
    }
}

fn listing(paths: &[&str]) -> Vec<ListedFile> {
    paths.iter().map(|p| lf(p)).collect()
}

fn text_preview(t: &str) -> FilePreview {
    FilePreview { kind: FileKind::Text, text_content: s(t) }
}

#[test]
fn listing_is_sorted_by_file_name() {
    let sorted = sort_listing(listing(&["/d/b.txt", "/d/a.txt", "/d/C.txt", "/d/ab"]));
    assert_eq!(sorted, vec![by("/d/C.txt"), by("/d/a.txt"), by("/d/ab"), by("/d/b.txt")]);
}

#[test]
fn listing_sort_is_stable() {
    let sorted = sort_listing(listing(&["/y/b", "/x/a", "/z/a", "/w/a"]));
    assert_eq!(sorted, vec![by("/x/a"), by("/z/a"), by("/w/a"), by("/y/b")]);
}

#[test]
fn listing_without_file_name_comes_first() {
    let sorted = sort_listing(listing(&["/d/a", "/"]));
    assert_eq!(sorted, vec![by("/"), by("/d/a")]);
}

#[test]
fn listing_orders_by_bytes() {
    let sorted = sort_listing(listing(&["/d/é", "/d/z", "/d/Z"]));
    assert_eq!(sorted, vec![by("/d/Z"), by("/d/z"), by("/d/é")]);
}

#[test]
fn listing_keeps_names_that_are_not_utf8_apart() {
    // Both names read as U+FFFD, yet they are different files, ordered by
    // their bytes.
    let ff = ListedFile { name: Some(vec![0xff]), path: vec![b'/', b'd', b'/', 0xff] };
    let fe = ListedFile { name: Some(vec![0xfe]), path: vec![b'/', b'd', b'/', 0xfe] };
    let sorted = sort_listing(vec![ff, fe]);
    assert_eq!(sorted, vec![vec![b'/', b'd', b'/', 0xfe], vec![b'/', b'd', b'/', 0xff]]);
    assert_eq!(index_of_path(&sorted, &vec![b'/', b'd', b'/', 0xff]), 1);
    let w = KQuickViewBridgeRust::opened(
        vec![b'/', b'd', b'/', 0xff],
        vec![
            ListedFile { name: Some(vec![0xff]), path: vec![b'/', b'd', b'/', 0xff] },
            ListedFile { name: Some(vec![0xfe]), path: vec![b'/', b'd', b'/', 0xfe] },
        ],
        text_preview(""),
    );
    assert_eq!(w.current_idx(), 1);
    assert_eq!(w.file_path(), "/d/\u{fffd}");
    assert_eq!(w.file_url(), "file:///d/\u{fffd}");
}

#[test]
fn index_finds_first_or_zero() {
    let files = vec![by("/a"), by("/b"), by("/b")];
    assert_eq!(index_of_path(&files, &by("/b")), 1);
    assert_eq!(index_of_path(&files, &by("/c")), 0);
    assert_eq!(index_of_path(&Vec::new(), &by("/c")), 0);
}

#[test]
fn window_without_file() {
    let b = KQuickViewBridgeRust::without_file();
    assert_eq!(b.file_path(), "");
    assert_eq!(b.file_url(), "");
    assert_eq!(b.file_type(), "unknown");
    assert_eq!(b.text_content(), NO_FILE_MESSAGE);
    assert_eq!(b.text_content(), "Error: No se especificó ningún archivo.\nUso: kquickview <ruta_al_archivo>");
    assert!(!b.is_valid());
    assert!(b.files().is_empty());
    assert_eq!(b.current_idx(), 0);
}

#[test]
fn window_for_missing_file() {
    let b = KQuickViewBridgeRust::missing_file("/no/such");
    assert_eq!(b.file_path(), "/no/such");
    assert_eq!(b.file_url(), "");
    assert_eq!(b.file_type(), "unknown");
    assert_eq!(b.text_content(), "Error: El archivo '/no/such' no existe.");
    assert!(!b.is_valid());
}

#[test]
fn window_for_opened_file() {
    let b = KQuickViewBridgeRust::opened(
        by("/d/b.txt"),
        listing(&["/d/c.txt", "/d/b.txt", "/d/a.txt"]),
        text_preview("hello"),
    );
    assert_eq!(b.file_path(), "/d/b.txt");
    assert_eq!(b.file_url(), "file:///d/b.txt");
    assert_eq!(b.file_type(), "text");
    assert_eq!(b.text_content(), "hello");
    assert!(b.is_valid());
    assert_eq!(b.files(), &vec![by("/d/a.txt"), by("/d/b.txt"), by("/d/c.txt")]);
    assert_eq!(b.current_idx(), 1);
}

#[test]
fn opened_file_missing_from_listing_starts_at_zero() {
    let b = KQuickViewBridgeRust::opened(by("/d/x"), listing(&["/d/b", "/d/a"]), text_preview(""));
    assert_eq!(b.current_idx(), 0);
}

fn three_files() -> KQuickViewBridge {
    KQuickViewBridge::new(KQuickViewBridgeRust::opened(by("/d/a"), listing(&["/d/a", "/d/b", "/d/c"]), text_preview("a")))
}

#[test]
fn next_moves_until_last() {
    let mut b = three_files();
    assert!(b.next_file());
    assert_eq!(b.rust().current_idx(), 1);
    assert!(b.next_file());
    assert_eq!(b.rust().current_idx(), 2);
    assert!(!b.next_file());
    assert_eq!(b.rust().current_idx(), 2);
}

#[test]
fn previous_moves_until_first() {
    let mut b = three_files();
    assert!(!b.previous_file());
    assert_eq!(b.rust().current_idx(), 0);
    b.next_file();
    b.next_file();
    assert!(b.previous_file());
    assert_eq!(b.rust().current_idx(), 1);
}

#[test]
fn previous_undoes_next() {
    let mut b = three_files();
    b.next_file();
    let before = b.rust().current_idx();
    assert!(b.next_file());
    assert!(b.previous_file());
    assert_eq!(b.rust().current_idx(), before);
}

#[test]
fn navigation_without_files_does_nothing() {
    let mut b = KQuickViewBridge::new(KQuickViewBridgeRust::without_file());
    assert!(!b.next_file());
    assert!(!b.previous_file());
    assert_eq!(b.rust().current_idx(), 0);
    assert_eq!(b.current_file(), None);
    assert!(!b.show_current_file(text_preview("x")));
    assert_eq!(b.rust().text_content(), NO_FILE_MESSAGE);
}

#[test]
fn navigation_keeps_properties_until_shown() {
    let mut b = three_files();
    b.next_file();
    assert_eq!(b.rust().file_path(), "/d/a");
    assert_eq!(b.current_file(), Some(&by("/d/b")));
    assert!(b.show_current_file(FilePreview { kind: FileKind::Image, text_content: String::new() }));
    assert_eq!(b.rust().file_path(), "/d/b");
    assert_eq!(b.rust().file_url(), "file:///d/b");
    assert_eq!(b.rust().file_type(), "image");
    assert_eq!(b.rust().text_content(), "");
    assert!(b.rust().is_valid());
}

#[test]
fn category_from_extension_and_mime() {
    assert_eq!(file_category("/x/readme.md"), FileCategory::Markdown);
    assert_eq!(file_category("/x/README.MD"), FileCategory::Markdown);
    assert_eq!(file_category("/x/notes.markdown"), FileCategory::Markdown);
    assert_eq!(file_category("/x/photo.png"), FileCategory::Image);
    assert_eq!(file_category("/x/photo.JPG"), FileCategory::Image);
    assert_eq!(file_category("/x/a.txt"), FileCategory::Text);
    assert_eq!(file_category("/x/a.json"), FileCategory::Text);
    assert_eq!(file_category("/x/doc.pdf"), FileCategory::Pdf);
    assert_eq!(file_category("/x/Makefile"), FileCategory::Other);
    assert_eq!(file_category("/x/data.qqqzzz"), FileCategory::Other);
}

#[test]
fn classify_decides_in_order() {
    assert_eq!(classify(&Some(s("md")), "image/png"), FileCategory::Markdown);
    assert_eq!(classify(&None, "text/markdown"), FileCategory::Markdown);
    assert_eq!(classify(&None, "text/x-markdown"), FileCategory::Markdown);
    assert_eq!(classify(&Some(s("MD")), "application/octet-stream"), FileCategory::Other);
    assert_eq!(classify(&None, "image/svg+xml"), FileCategory::Image);
    assert_eq!(classify(&None, "text/csv"), FileCategory::Text);
    assert_eq!(classify(&None, "application/xml"), FileCategory::Text);
    assert_eq!(classify(&None, "application/javascript"), FileCategory::Text);
    assert_eq!(classify(&None, "application/pdf"), FileCategory::Pdf);
    assert_eq!(classify(&None, "application/zip"), FileCategory::Other);
}

#[test]
fn category_uses_lowercased_extension_and_guessed_mime() {
    assert_eq!(file_category("/a/b.MARKDOWN"), FileCategory::Markdown);
    assert_eq!(file_category("/a/.md"), FileCategory::Other);
    assert_eq!(file_category("/a/b.Pdf"), FileCategory::Pdf);
    assert_eq!(file_category("/a/b.GIF"), FileCategory::Image);
    assert_eq!(file_category("/a.md/b"), FileCategory::Other);
}

#[test]
fn requests_per_category() {
    assert_eq!(load_request(FileCategory::Markdown), LoadRequest::WholeText);
    assert_eq!(load_request(FileCategory::Image), LoadRequest::Nothing);
    assert_eq!(load_request(FileCategory::Pdf), LoadRequest::Nothing);
    assert_eq!(load_request(FileCategory::Text), LoadRequest::UpTo(102400));
    assert_eq!(load_request(FileCategory::Other), LoadRequest::Probe(10240));
    assert_eq!(TEXT_LIMIT, 100 * 1024);
    assert_eq!(PROBE_LIMIT, 10 * 1024);
}

#[test]
fn markdown_is_rendered_in_a_page() {
    let page = render_markdown("# Hi\n\n~~x~~ | a |\n");
    assert!(page.starts_with("<html><head><style>"));
    assert!(page.ends_with("</body></html>"));
    let expected = format!("<html><head>{}</head><body><h1>Hi</h1>\n", MARKDOWN_CSS);
    assert!(page.starts_with(&expected));
    assert!(page.contains("<del>x</del>"));
}

#[test]
fn markdown_tables_and_tasks_are_enabled() {
    let page = render_markdown("| a | b |\n|---|---|\n| 1 | 2 |\n\n- [x] done\n");
    assert!(page.contains("<table>"));
    assert!(page.contains("checkbox"));
}

#[test]
fn finish_markdown() {
    let p = finish_preview(FileCategory::Markdown, LoadOutcome::Text(s("*a*")));
    assert_eq!(p.kind, FileKind::Markdown);
    assert_eq!(p.text_content, render_markdown("*a*"));
    let p = finish_preview(FileCategory::Markdown, LoadOutcome::NotRead);
    assert_eq!(p.kind, FileKind::Markdown);
    assert_eq!(p.text_content, "");
}

#[test]
fn finish_text_replaces_invalid_bytes() {
    let p = finish_preview(FileCategory::Text, LoadOutcome::Bytes(vec![b'h', 0xff, b'i']));
    assert_eq!(p.kind, FileKind::Text);
    assert_eq!(p.text_content, "h\u{fffd}i");
    let p = finish_preview(FileCategory::Text, LoadOutcome::NotRead);
    assert_eq!(p.text_content, "");
}

#[test]
fn finish_image_and_pdf_show_nothing() {
    let p = finish_preview(FileCategory::Image, LoadOutcome::NotRead);
    assert_eq!((p.kind, p.text_content.as_str()), (FileKind::Image, ""));
    let p = finish_preview(FileCategory::Pdf, LoadOutcome::NotRead);
    assert_eq!((p.kind, p.text_content.as_str()), (FileKind::Pdf, ""));
}

#[test]
fn probe_decides_text() {
    assert!(probe_is_text(b"plain"));
    assert!(!probe_is_text(&[0xc3]));
    let p = finish_preview(FileCategory::Other, LoadOutcome::Probed(b"abc".to_vec(), Some(b"def".to_vec())));
    assert_eq!((p.kind, p.text_content.as_str()), (FileKind::Text, "abcdef"));
    let p = finish_preview(FileCategory::Other, LoadOutcome::Probed(b"abc".to_vec(), None));
    assert_eq!((p.kind, p.text_content.as_str()), (FileKind::Text, "abc"));
    let p = finish_preview(FileCategory::Other, LoadOutcome::Probed(vec![0xff, 0xfe], Some(b"x".to_vec())));
    assert_eq!((p.kind, p.text_content.as_str()), (FileKind::Unknown, ""));
    let p = finish_preview(FileCategory::Other, LoadOutcome::NotRead);
    assert_eq!((p.kind, p.text_content.as_str()), (FileKind::Unknown, ""));
}

#[test]
fn probe_shows_at_most_100_kib() {
    let head = vec![b'a'; 10240];
    let rest = vec![b'b'; 200000];
    let p = finish_preview(FileCategory::Other, LoadOutcome::Probed(head, Some(rest)));
    assert_eq!(p.text_content.len(), 102400);
    assert!(p.text_content.ends_with('b'));
}

#[test]
fn probe_cut_inside_a_character_is_text() {
    // A UTF-8 shell script whose probe ends inside a two-byte character.
    let mut head = vec![b'a'; PROBE_LIMIT - 1];
    head.push(0xc3);
    assert!(probe_is_text(&head));
    let p = finish_preview(FileCategory::Other, LoadOutcome::Probed(head, Some(vec![0xa9, b'\n'])));
    assert_eq!(p.kind, FileKind::Text);
    assert!(p.text_content.ends_with("a\u{e9}\n"));
    assert_eq!(p.text_content.chars().count(), PROBE_LIMIT + 1);

    // Two bytes of a three-byte character, and three of a four-byte one.
    let mut head = vec![b'x'; PROBE_LIMIT - 2];
    head.extend([0xe2, 0x82]);
    assert!(probe_is_text(&head));
    let mut head = vec![b'x'; PROBE_LIMIT - 3];
    head.extend([0xf0, 0x9f, 0x98]);
    assert!(probe_is_text(&head));
}

#[test]
fn probe_refuses_what_no_cut_explains() {
    // A lone continuation byte at the end.
    let mut head = vec![b'a'; PROBE_LIMIT - 1];
    head.push(0xa9);
    assert!(!probe_is_text(&head));
    // A two-byte character that is complete but for a wrong second byte.
    let mut head = vec![b'a'; PROBE_LIMIT - 2];
    head.extend([0xc3, b'a']);
    assert!(!probe_is_text(&head));
    // A short probe is the whole file: a cut character there is not text.
    assert!(!probe_is_text(&[b'a', 0xc3]));
    // Invalid bytes before the cut.
    let mut head = vec![b'a'; PROBE_LIMIT - 1];
    head[0] = 0xff;
    head.push(0xc3);
    assert!(!probe_is_text(&head));
}

#[test]
fn shell_scripts_are_probed() {
    assert_eq!(file_category("/tmp/run.sh"), FileCategory::Other);
    assert_eq!(load_request(FileCategory::Other), LoadRequest::Probe(PROBE_LIMIT));
}

#[test]
fn kind_names() {
    assert_eq!(FileKind::Unknown.name(), "unknown");
    assert_eq!(FileKind::Markdown.name(), "markdown");
    assert_eq!(FileKind::Image.name(), "image");
    assert_eq!(FileKind::Text.name(), "text");
    assert_eq!(FileKind::Pdf.name(), "pdf");
}
