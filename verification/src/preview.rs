//! What a preview shows for a file: its category (from the extension and
//! the guessed MIME type), what has to be read of it, and the text shown.

use crate::text::{has_prefix, is_valid_utf8, lossy_string, opt_chars, push_str, starts_with, str_eq, utf8_lossy};
use pulldown_cmark::{html, Options, Parser};
use std::path::Path;
use vstd::prelude::*;
use vstd::utf8::{
    is_continuation_byte, is_leading_byte_width_2, is_leading_byte_width_3, is_leading_byte_width_4,
    length_of_first_scalar, pop_first_scalar, valid_first_scalar, valid_utf8, valid_utf8_concat,
};

verus! {

/// Most bytes of a text file that a preview shows (100 KiB).
pub const TEXT_LIMIT: usize = 102400;

/// Bytes read from a file of unknown type to decide whether it is text
/// (10 KiB).
pub const PROBE_LIMIT: usize = 10240;

/// `pulldown_cmark` options the preview enables: tables, footnotes,
/// strikethrough and task lists (bits 1 to 4 of `pulldown_cmark::Options`).
pub const MARKDOWN_OPTIONS: u32 = 30;

/// Style sheet of rendered Markdown.
pub const MARKDOWN_CSS: &'static str = "<style>
        body { color: #eff0f1; font-family: sans-serif; font-size: 13px; line-height: 1.5; background-color: #121212; }
        h1, h2, h3, h4 { color: #ffffff; margin-top: 15px; margin-bottom: 8px; font-weight: bold; }
        h1 { font-size: 20px; border-bottom: 1px solid #2a2a2a; padding-bottom: 4px; }
        h2 { font-size: 16px; border-bottom: 1px solid #2a2a2a; padding-bottom: 2px; }
        h3 { font-size: 14px; }
        code { font-family: monospace; background-color: #2a2a2a; padding: 2px 4px; color: #eff0f1; }
        pre { background-color: #1a1a1a; padding: 8px; border: 1px solid #2a2a2a; }
        pre code { background-color: transparent; padding: 0; color: #eff0f1; }
        a { color: #ffffff; text-decoration: underline; }
        ul, ol { margin-top: 5px; margin-bottom: 5px; padding-left: 20px; }
        li { margin-bottom: 2px; }
        table { border-collapse: collapse; width: 100%; margin-top: 10px; margin-bottom: 10px; }
        th, td { border: 1px solid #2a2a2a; padding: 6px; text-align: left; }
        th { background-color: #1a1a1a; color: #ffffff; }
    </style>";

/// The HTML that `pulldown_cmark` renders for Markdown text with the given
/// option bits.
pub uninterp spec fn markdown_html(content: Seq<char>, options: u32) -> Seq<char>;

/// Renders Markdown to HTML with `pulldown_cmark` (`Parser::new_ext`, then
/// `html::push_html` into an empty string). Trusted: the result is the HTML
/// that the crate renders for `content` under the option bits `options`.
#[verifier::external_body]
fn markdown_to_html(content: &str, options: u32) -> (out: String)
    ensures
        out@ == markdown_html(content@, options),
{
    let parser = Parser::new_ext(content, Options::from_bits_truncate(options));
    let mut out = String::new();
    html::push_html(&mut out, parser);
    out
}

/// The page shown for Markdown text: its HTML inside a document whose head
/// holds the preview's style sheet.
pub open spec fn markdown_page(content: Seq<char>) -> Seq<char> {
    "<html><head>"@ + MARKDOWN_CSS@ + "</head><body>"@ + markdown_html(content, MARKDOWN_OPTIONS)
        + "</body></html>"@
}

/// Renders Markdown text to the page the preview shows.
pub fn render_markdown(content: &str) -> (page: String)
    ensures
        page@ == markdown_page(content@),
{
    let body = markdown_to_html(content, MARKDOWN_OPTIONS);
    let mut page = String::new();
    push_str(&mut page, "<html><head>");
    push_str(&mut page, MARKDOWN_CSS);
    push_str(&mut page, "</head><body>");
    push_str(&mut page, body.as_str());
    push_str(&mut page, "</body></html>");
    page
}


/// The extension of a path as std's `Path::extension` finds it.
pub uninterp spec fn path_extension(path: Seq<char>) -> Option<Seq<char>>;

/// The lowercase form of a string as std's `str::to_lowercase` makes it.
pub uninterp spec fn lowercase(s: Seq<char>) -> Seq<char>;

/// The MIME type that `mime_guess` guesses for a path, written out
/// (`application/octet-stream` where it has no guess).
pub uninterp spec fn guessed_mime(path: Seq<char>) -> Seq<char>;

/// The extension of `path` (std `Path::extension`, read as text). Trusted:
/// the result is std's extension of the path; nothing more is stated.
#[verifier::external_body]
pub(crate) fn extension_of(path: &str) -> (ext: Option<String>)
    ensures
        opt_chars(ext) == path_extension(path@),
{
    match Path::new(path).extension() {
        Some(e) => Some(e.to_string_lossy().into_owned()),
        None => None,
    }
}

/// Lowercases a string (std `str::to_lowercase`). Trusted: the result is
/// std's lowercase form of `s`; nothing more is stated.
#[verifier::external_body]
pub(crate) fn to_lowercase(s: &str) -> (out: String)
    ensures
        out@ == lowercase(s@),
{
    s.to_lowercase()
}

/// Guesses the MIME type of a path from its extension
/// (`mime_guess::from_path`, `MimeGuess::first_or_octet_stream`, written out
/// with `to_string`). Trusted: the result is the crate's guess for `path`;
/// the guess depends on the path alone (no disk access).
#[verifier::external_body]
pub(crate) fn guess_mime(path: &str) -> (mime: String)
    ensures
        mime@ == guessed_mime(path@),
{
    mime_guess::from_path(path).first_or_octet_stream().to_string()
}

/// The kinds of file a preview tells apart, before anything is read.
#[derive(Clone, Copy, Debug, PartialEq, Eq, Structural)]
pub enum FileCategory {
    Markdown,
    Image,
    Text,
    Pdf,
    Other,
}

/// Markdown by its (lowercased) extension or by its MIME type.
pub open spec fn is_markdown(ext_lower: Option<Seq<char>>, mime: Seq<char>) -> bool {
    ext_lower == Some("md"@) || ext_lower == Some("markdown"@) || mime == "text/markdown"@ || mime
        == "text/x-markdown"@
}

/// MIME types shown as text.
pub open spec fn is_text_mime(mime: Seq<char>) -> bool {
    has_prefix(mime, "text/"@) || mime == "application/json"@ || mime == "application/xml"@ || mime
        == "application/javascript"@
}

/// The category of a file with the given lowercased extension and MIME
/// type: Markdown first, then images, text types, PDF, and the rest.
pub open spec fn category_of(ext_lower: Option<Seq<char>>, mime: Seq<char>) -> FileCategory {
    if is_markdown(ext_lower, mime) {
        FileCategory::Markdown
    } else if has_prefix(mime, "image/"@) {
        FileCategory::Image
    } else if is_text_mime(mime) {
        FileCategory::Text
    } else if mime == "application/pdf"@ {
        FileCategory::Pdf
    } else {
        FileCategory::Other
    }
}

fn opt_is(o: &Option<String>, lit: &str) -> (res: bool)
    ensures
        res == (opt_chars(*o) == Some(lit@)),
{
    match o {
        Some(s) => str_eq(s.as_str(), lit),
        None => false,
    }
}

/// Decides the category of a file from its lowercased extension and its
/// MIME type (see `category_of`).
pub fn classify(ext_lower: &Option<String>, mime: &str) -> (c: FileCategory)
    ensures
        c == category_of(opt_chars(*ext_lower), mime@),
{
    if opt_is(ext_lower, "md") || opt_is(ext_lower, "markdown") || str_eq(mime, "text/markdown")
        || str_eq(mime, "text/x-markdown") {
        FileCategory::Markdown
    } else if starts_with(mime, "image/") {
        FileCategory::Image
    } else if starts_with(mime, "text/") || str_eq(mime, "application/json") || str_eq(
        mime,
        "application/xml",
    ) || str_eq(mime, "application/javascript") {
        FileCategory::Text
    } else if str_eq(mime, "application/pdf") {
        FileCategory::Pdf
    } else {
        FileCategory::Other
    }
}

/// The lowercased extension of a path, as the preview compares it.
pub open spec fn lowered_extension(path: Seq<char>) -> Option<Seq<char>> {
    match path_extension(path) {
        Some(e) => Some(lowercase(e)),
        None => None,
    }
}

/// The category of the file at `path`, from its extension (lowercased) and
/// the MIME type guessed from the path.
pub fn file_category(path: &str) -> (c: FileCategory)
    ensures
        c == category_of(lowered_extension(path@), guessed_mime(path@)),
{
    let ext = match extension_of(path) {
        Some(e) => Some(to_lowercase(e.as_str())),
        None => None,
    };
    let mime = guess_mime(path);
    classify(&ext, mime.as_str())
}

/// What has to be read of a file to preview it.
#[derive(Clone, Copy, Debug, PartialEq, Eq, Structural)]
pub enum LoadRequest {
    /// Nothing: the viewer opens the file itself.
    Nothing,
    /// The whole file, as text.
    WholeText,
    /// One read of at most this many bytes.
    UpTo(usize),
    /// At most this many bytes (fewer only where the file ends); when they
    /// show the file to be text (`probe_is_text`), the rest of the file too.
    Probe(usize),
}

/// What is read for each category.
pub open spec fn request_for(c: FileCategory) -> LoadRequest {
    match c {
        FileCategory::Markdown => LoadRequest::WholeText,
        FileCategory::Image => LoadRequest::Nothing,
        FileCategory::Text => LoadRequest::UpTo(TEXT_LIMIT),
        FileCategory::Pdf => LoadRequest::Nothing,
        FileCategory::Other => LoadRequest::Probe(PROBE_LIMIT),
    }
}

/// What has to be read to preview a file of category `c`.
pub fn load_request(c: FileCategory) -> (r: LoadRequest)
    ensures
        r == request_for(c),
{
    match c {
        FileCategory::Markdown => LoadRequest::WholeText,
        FileCategory::Image => LoadRequest::Nothing,
        FileCategory::Text => LoadRequest::UpTo(TEXT_LIMIT),
        FileCategory::Pdf => LoadRequest::Nothing,
        FileCategory::Other => LoadRequest::Probe(PROBE_LIMIT),
    }
}

/// The start of a UTF-8 character that was cut off: a leading byte of a
/// character longer than `t`, followed only by continuation bytes.
pub open spec fn incomplete_char(t: Seq<u8>) -> bool {
    &&& 1 <= t.len() <= 3
    &&& (is_leading_byte_width_2(t[0]) || is_leading_byte_width_3(t[0]) || is_leading_byte_width_4(t[0]))
    &&& (is_leading_byte_width_2(t[0]) ==> t.len() < 2)
    &&& (is_leading_byte_width_3(t[0]) ==> t.len() < 3)
    &&& forall|i: int| 1 <= i < t.len() ==> is_continuation_byte(#[trigger] t[i])
}

/// `head` is valid UTF-8 up to its last `k` bytes, and those bytes are a
/// character cut off.
pub open spec fn cut_at(head: Seq<u8>, k: int) -> bool {
    &&& k <= head.len()
    &&& valid_utf8(head.take(head.len() - k))
    &&& incomplete_char(head.skip(head.len() - k))
}

/// Whether the probing read of a file of unknown type shows it to be text:
/// the bytes are valid UTF-8, or, where the read filled the whole probe (so
/// that the file may go on), they are valid UTF-8 but for a character that
/// the end of the probe cut off (at most three bytes).
pub open spec fn probe_text(head: Seq<u8>) -> bool {
    ||| valid_utf8(head)
    ||| head.len() == PROBE_LIMIT && (cut_at(head, 1) || cut_at(head, 2) || cut_at(head, 3))
}

fn is_incomplete_char(t: &[u8]) -> (res: bool)
    ensures
        res == incomplete_char(t@),
{
    let n = t.len();
    if n < 1 || n > 3 {
        return false;
    }
    let b = t[0];
    let width: usize = if 0xc0 <= b && b <= 0xdf {
        2
    } else if 0xe0 <= b && b <= 0xef {
        3
    } else if 0xf0 <= b && b <= 0xf7 {
        4
    } else {
        return false;
    };
    if n >= width {
        return false;
    }
    let mut i: usize = 1;
    while i < n
        invariant
            1 <= i <= n,
            n == t@.len(),
            forall|j: int| 1 <= j < i ==> is_continuation_byte(#[trigger] t@[j]),
        decreases n - i,
    {
        if !(0x80 <= t[i] && t[i] <= 0xbf) {
            return false;
        }
        i = i + 1;
    }
    true
}

/// Whether the probing read of a file of unknown type shows it to be text
/// (see `probe_text`).
pub fn probe_is_text(head: &[u8]) -> (res: bool)
    ensures
        res == probe_text(head@),
{
    if is_valid_utf8(head) {
        return true;
    }
    let n = head.len();
    if n != PROBE_LIMIT {
        return false;
    }
    let mut k: usize = 1;
    while k <= 3
        invariant
            1 <= k <= 4,
            n == head@.len(),
            n == PROBE_LIMIT,
            forall|j: int| 1 <= j < k ==> !cut_at(head@, j),
        decreases 4 - k,
    {
        let prefix = &head[0..n - k];
        let tail = &head[n - k..n];
        proof {
            assert(prefix@ =~= head@.take(n - k));
            assert(tail@ =~= head@.skip(n - k));
        }
        if is_valid_utf8(prefix) && is_incomplete_char(tail) {
            return true;
        }
        k = k + 1;
    }
    false
}

/// What came of reading a file for its preview.
pub enum LoadOutcome {
    /// Nothing was read, or opening or reading failed.
    NotRead,
    /// The whole file, read as text.
    Text(String),
    /// The bytes of one read.
    Bytes(Vec<u8>),
    /// The bytes of the probing read and, where the rest was read, the rest.
    Probed(Vec<u8>, Option<Vec<u8>>),
}

/// The type shown for a file, as the viewer names it.
#[derive(Clone, Copy, Debug, PartialEq, Eq, Structural)]
pub enum FileKind {
    Unknown,
    Markdown,
    Image,
    Text,
    Pdf,
}

/// The name of a file kind.
pub open spec fn kind_name(k: FileKind) -> Seq<char> {
    match k {
        FileKind::Unknown => "unknown"@,
        FileKind::Markdown => "markdown"@,
        FileKind::Image => "image"@,
        FileKind::Text => "text"@,
        FileKind::Pdf => "pdf"@,
    }
}

impl FileKind {
    /// The name the viewer knows this kind by.
    pub fn name(&self) -> (s: &'static str)
        ensures
            s@ == kind_name(*self),
    {
        match self {
            FileKind::Unknown => "unknown",
            FileKind::Markdown => "markdown",
            FileKind::Image => "image",
            FileKind::Text => "text",
            FileKind::Pdf => "pdf",
        }
    }
}

/// What the preview shows for a file.
pub struct FilePreview {
    pub kind: FileKind,
    pub text_content: String,
}

/// The first `TEXT_LIMIT` bytes of `b`.
pub open spec fn text_prefix(b: Seq<u8>) -> Seq<u8> {
    if b.len() <= TEXT_LIMIT {
        b
    } else {
        b.take(TEXT_LIMIT as int)
    }
}

/// The kind shown for a file of category `c` once `o` was read.
pub open spec fn preview_kind(c: FileCategory, o: LoadOutcome) -> FileKind {
    match c {
        FileCategory::Markdown => FileKind::Markdown,
        FileCategory::Image => FileKind::Image,
        FileCategory::Text => FileKind::Text,
        FileCategory::Pdf => FileKind::Pdf,
        FileCategory::Other => match o {
            LoadOutcome::Probed(head, _) => if probe_text(head@) {
                FileKind::Text
            } else {
                FileKind::Unknown
            },
            _ => FileKind::Unknown,
        },
    }
}

/// The text shown for a file of category `c` once `o` was read: rendered
/// Markdown, the bytes read as UTF-8 (invalid sequences replaced), or
/// nothing. A probed file that is text shows its first 100 KiB (or only the
/// probed bytes, when the rest could not be read).
pub open spec fn preview_text(c: FileCategory, o: LoadOutcome) -> Seq<char> {
    match (c, o) {
        (FileCategory::Markdown, LoadOutcome::Text(t)) => markdown_page(t@),
        (FileCategory::Text, LoadOutcome::Bytes(b)) => utf8_lossy(b@),
        (FileCategory::Other, LoadOutcome::Probed(head, rest)) => if probe_text(head@) {
            match rest {
                Some(r) => utf8_lossy(text_prefix(head@ + r@)),
                None => utf8_lossy(head@),
            }
        } else {
            Seq::empty()
        },
        _ => Seq::empty(),
    }
}

/// The preview of a file of category `c`, from what was read of it.
pub fn finish_preview(c: FileCategory, o: LoadOutcome) -> (p: FilePreview)
    ensures
        p.kind == preview_kind(c, o),
        p.text_content@ == preview_text(c, o),
{
    match (c, o) {
        (FileCategory::Markdown, LoadOutcome::Text(t)) => FilePreview {
            kind: FileKind::Markdown,
            text_content: render_markdown(t.as_str()),
        },
        (FileCategory::Markdown, _) => FilePreview { kind: FileKind::Markdown, text_content: String::new() },
        (FileCategory::Image, _) => FilePreview { kind: FileKind::Image, text_content: String::new() },
        (FileCategory::Pdf, _) => FilePreview { kind: FileKind::Pdf, text_content: String::new() },
        (FileCategory::Text, LoadOutcome::Bytes(b)) => FilePreview {
            kind: FileKind::Text,
            text_content: lossy_string(b.as_slice()),
        },
        (FileCategory::Text, _) => FilePreview { kind: FileKind::Text, text_content: String::new() },
        (FileCategory::Other, LoadOutcome::Probed(head, rest)) => {
            if !probe_is_text(head.as_slice()) {
                return FilePreview { kind: FileKind::Unknown, text_content: String::new() };
            }
            match rest {
                Some(r) => {
                    let mut full = head;
                    let mut r = r;
                    full.append(&mut r);
                    let limit: usize = if full.len() <= TEXT_LIMIT { full.len() } else { TEXT_LIMIT };
                    let shown = &full.as_slice()[0..limit];
                    proof {
                        assert(shown@ =~= text_prefix(full@));
                    }
                    FilePreview { kind: FileKind::Text, text_content: lossy_string(shown) }
                },
                None => FilePreview { kind: FileKind::Text, text_content: lossy_string(head.as_slice()) },
            }
        },
        (FileCategory::Other, _) => FilePreview { kind: FileKind::Unknown, text_content: String::new() },
    }
}

/// How a file's category follows from its lowercased extension and MIME
/// type: `md` and `markdown` files and the Markdown MIME types are
/// Markdown; otherwise every `image/` type is an image (PNG, JPEG, WebP,
/// GIF and the rest); otherwise every `text/` type and JSON, XML and
/// JavaScript are text; otherwise PDF is PDF; anything else is probed.
pub proof fn lemma_category_rules(ext_lower: Option<Seq<char>>, mime: Seq<char>)
    ensures
        ({
            let markdown = ext_lower == Some("md"@) || ext_lower == Some("markdown"@) || mime == "text/markdown"@
                || mime == "text/x-markdown"@;
            let image = mime.len() >= 6 && mime.take(6) == "image/"@;
            let text = (mime.len() >= 5 && mime.take(5) == "text/"@) || mime == "application/json"@ || mime
                == "application/xml"@ || mime == "application/javascript"@;
            &&& markdown ==> category_of(ext_lower, mime) == FileCategory::Markdown
            &&& !markdown && image ==> category_of(ext_lower, mime) == FileCategory::Image
            &&& !markdown && !image && text ==> category_of(ext_lower, mime) == FileCategory::Text
            &&& !markdown && !image && !text && mime == "application/pdf"@ ==> category_of(ext_lower, mime)
                == FileCategory::Pdf
            &&& !markdown && !image && !text && mime != "application/pdf"@ ==> category_of(ext_lower, mime)
                == FileCategory::Other
        }),
{
    reveal_strlit("image/");
    reveal_strlit("text/");
    assert(("image/"@).len() == 6);
    assert(("text/"@).len() == 5);
    assert(mime.take(6) =~= mime.subrange(0, 6));
    assert(mime.take(5) =~= mime.subrange(0, 5));
}

/// A cut of valid UTF-8 at any offset `c` is valid UTF-8 up to at most three
/// bytes before `c`, and those bytes (when there are any) are a character
/// cut off. The result is how many bytes before `c` the last whole
/// character ends.
proof fn lemma_cut_of_utf8(bytes: Seq<u8>, c: int) -> (k: int)
    requires
        valid_utf8(bytes),
        0 <= c <= bytes.len(),
    ensures
        0 <= k <= 3,
        k <= c,
        valid_utf8(bytes.take(c - k)),
        k > 0 ==> incomplete_char(bytes.subrange(c - k, c)),
    decreases bytes.len(),
{
    if c == 0 {
        assert(bytes.take(0).len() == 0);
        0
    } else {
        assert(valid_first_scalar(bytes) && valid_utf8(pop_first_scalar(bytes)));
        let len = length_of_first_scalar(bytes);
        let rest = pop_first_scalar(bytes);
        assert(1 <= len <= 4 && len <= bytes.len());
        if c >= len {
            let k = lemma_cut_of_utf8(rest, c - len);
            let first = bytes.take(len);
            assert(valid_utf8(first)) by {
                reveal_with_fuel(valid_utf8, 2);
                assert(valid_first_scalar(first)) by {
                    assert(first[0] == bytes[0]);
                    assert(len >= 2 ==> first[1] == bytes[1]);
                    assert(len >= 3 ==> first[2] == bytes[2]);
                    assert(len >= 4 ==> first[3] == bytes[3]);
                }
                assert(pop_first_scalar(first).len() == 0);
            }
            valid_utf8_concat(first, rest.take(c - len - k));
            assert(first + rest.take(c - len - k) =~= bytes.take(c - k));
            assert(bytes.subrange(c - k, c) =~= rest.subrange(c - len - k, c - len));
            k
        } else {
            assert(bytes.take(0).len() == 0);
            assert(valid_utf8(bytes.take(0)));
            let t = bytes.subrange(0, c);
            assert(t[0] == bytes[0]);
            assert(forall|i: int| 1 <= i < c ==> t[i] == bytes[i]);
            c
        }
    }
}

/// The first bytes of a UTF-8 file, as the probing read gets them
/// (`PROBE_LIMIT` bytes, or the whole file where it is shorter), show it to
/// be text.
pub proof fn lemma_probe_of_utf8_is_text(full: Seq<u8>)
    requires
        valid_utf8(full),
    ensures
        probe_text(full.take(if full.len() <= PROBE_LIMIT { full.len() as int } else { PROBE_LIMIT as int })),
{
    if full.len() <= PROBE_LIMIT {
        assert(full.take(full.len() as int) =~= full);
    } else {
        let c = PROBE_LIMIT as int;
        let head = full.take(c);
        let k = lemma_cut_of_utf8(full, c);
        assert(head.take(c - k) =~= full.take(c - k));
        if k > 0 {
            assert(head.skip(c - k) =~= full.subrange(c - k, c));
            assert(cut_at(head, k));
        } else {
            assert(head =~= full.take(c - k));
        }
    }
}

/// A file of unknown type whose bytes are valid UTF-8 is shown as text:
/// whatever its length, the probing read shows it to be text, and where the
/// rest was read the preview shows its first 100 KiB.
pub proof fn lemma_utf8_file_shown_as_text(full: Seq<u8>, head: Vec<u8>, rest: Option<Vec<u8>>)
    requires
        valid_utf8(full),
        head@ == full.take(if full.len() <= PROBE_LIMIT { full.len() as int } else { PROBE_LIMIT as int }),
    ensures
        preview_kind(FileCategory::Other, LoadOutcome::Probed(head, rest)) == FileKind::Text,
        rest matches Some(r) && head@ + r@ == full ==> preview_text(
            FileCategory::Other,
            LoadOutcome::Probed(head, rest),
        ) == utf8_lossy(text_prefix(full)),
{
    lemma_probe_of_utf8_is_text(full);
}

} // verus!
