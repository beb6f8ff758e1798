//! State of the preview window: the file shown, its type and text, and the
//! files of its folder the arrow keys step through.

use crate::listing::{byte_views, entries_of, listing_order, sort_listing, Entry, ListedFile};
use crate::preview::{kind_name, FileKind, FilePreview};
use crate::text::{lossy_string, push_str, utf8_lossy};
use vstd::prelude::*;

verus! {

/// What the window shows when no file was named.
pub const NO_FILE_MESSAGE: &'static str = "Error: No se especificó ningún archivo.\nUso: kquickview <ruta_al_archivo>";

/// The state of the preview window, as plain values.
pub ghost struct BridgeView {
    pub file_path: Seq<char>,
    pub file_url: Seq<char>,
    pub file_type: Seq<char>,
    pub text_content: Seq<char>,
    pub is_valid: bool,
    /// The paths (as bytes) of the files of the shown file's folder, in the
    /// order the viewer steps through them.
    pub files: Seq<Seq<u8>>,
    /// The position of the shown file among `files`.
    pub current_idx: nat,
}

/// Properties of the preview window, and the files of its folder.
pub struct KQuickViewBridgeRust {
    file_path: String,
    file_url: String,
    file_type: String,
    text_content: String,
    is_valid: bool,
    files: Vec<Vec<u8>>,
    current_idx: usize,
}

impl View for KQuickViewBridgeRust {
    type V = BridgeView;

    closed spec fn view(&self) -> BridgeView {
        BridgeView {
            file_path: self.file_path@,
            file_url: self.file_url@,
            file_type: self.file_type@,
            text_content: self.text_content@,
            is_valid: self.is_valid,
            files: byte_views(self.files@),
            current_idx: self.current_idx as nat,
        }
    }
}

/// The position always names one of the files, or is 0 when there are none.
pub open spec fn position_ok(v: BridgeView) -> bool {
    v.current_idx < v.files.len() || (v.files.len() == 0 && v.current_idx == 0)
}

/// What every state of the window satisfies: the position is in range,
/// and a window that shows a file gives its URL as `file://` and its path.
pub open spec fn window_consistent(v: BridgeView) -> bool {
    position_ok(v) && (v.is_valid ==> v.file_url == file_url_of(v.file_path))
}

/// The first position of `path` in `files`, or 0 when it is not there.
pub open spec fn position_or_zero(files: Seq<Seq<u8>>, path: Seq<u8>) -> nat {
    if exists|i: int| 0 <= i < files.len() && files[i] == path {
        (choose|i: int| 0 <= i < files.len() && files[i] == path && forall|j: int| 0 <= j < i ==> files[j] != path) as nat
    } else {
        0
    }
}

/// The URL of a local file.
pub open spec fn file_url_of(path: Seq<char>) -> Seq<char> {
    "file://"@ + path
}

/// The message shown for a file that does not exist.
pub open spec fn missing_message(path: Seq<char>) -> Seq<char> {
    "Error: El archivo '"@ + path + "' no existe."@
}

/// The window showing the file at `abs_path`, whose folder holds the files
/// of `listing`, with a preview of the given kind and text. The path is
/// shown as text with invalid UTF-8 replaced (`to_string_lossy`).
pub open spec fn opened_view(abs_path: Seq<u8>, listing: Seq<Entry>, kind: FileKind, text: Seq<char>) -> BridgeView {
    BridgeView {
        file_path: utf8_lossy(abs_path),
        file_url: file_url_of(utf8_lossy(abs_path)),
        file_type: kind_name(kind),
        text_content: text,
        is_valid: true,
        files: listing_order(listing),
        current_idx: position_or_zero(listing_order(listing), abs_path),
    }
}

/// The window `v` once it shows the file at its current position, with a
/// preview of the given kind and text.
pub open spec fn shown_view(v: BridgeView, kind: FileKind, text: Seq<char>) -> BridgeView {
    BridgeView {
        file_path: utf8_lossy(v.files[v.current_idx as int]),
        file_url: file_url_of(utf8_lossy(v.files[v.current_idx as int])),
        file_type: kind_name(kind),
        text_content: text,
        is_valid: true,
        ..v
    }
}

impl KQuickViewBridgeRust {
    #[verifier::type_invariant]
    closed spec fn inv(self) -> bool {
        window_consistent(self@)
    }

    /// The window when no file was named.
    pub fn without_file() -> (b: Self)
        ensures
            b@ == (BridgeView {
                file_path: Seq::empty(),
                file_url: Seq::empty(),
                file_type: "unknown"@,
                text_content: NO_FILE_MESSAGE@,
                is_valid: false,
                files: Seq::empty(),
                current_idx: 0,
            }),
    {
        let b = KQuickViewBridgeRust {
            file_path: String::new(),
            file_url: String::new(),
            file_type: String::from_str("unknown"),
            text_content: String::from_str(NO_FILE_MESSAGE),
            is_valid: false,
            files: Vec::new(),
            current_idx: 0,
        };
        assert(byte_views(b.files@) =~= Seq::<Seq<u8>>::empty());
        b
    }

    /// The window when the named file does not exist.
    pub fn missing_file(path: &str) -> (b: Self)
        ensures
            b@ == (BridgeView {
                file_path: path@,
                file_url: Seq::empty(),
                file_type: "unknown"@,
                text_content: missing_message(path@),
                is_valid: false,
                files: Seq::empty(),
                current_idx: 0,
            }),
    {
        let mut message = String::new();
        push_str(&mut message, "Error: El archivo '");
        push_str(&mut message, path);
        push_str(&mut message, "' no existe.");
        let b = KQuickViewBridgeRust {
            file_path: String::from_str(path),
            file_url: String::new(),
            file_type: String::from_str("unknown"),
            text_content: message,
            is_valid: false,
            files: Vec::new(),
            current_idx: 0,
        };
        assert(byte_views(b.files@) =~= Seq::<Seq<u8>>::empty());
        b
    }

    /// The window showing the file at `abs_path`, whose folder holds the
    /// files of `listing` (in any order), with the given preview.
    pub fn opened(abs_path: Vec<u8>, listing: Vec<ListedFile>, preview: FilePreview) -> (b: Self)
        ensures
            b@ == opened_view(abs_path@, entries_of(listing@), preview.kind, preview.text_content@),
    {
        let files = sort_listing(listing);
        let idx = index_of_path(&files, &abs_path);
        let shown = lossy_string(abs_path.as_slice());
        let mut url = String::new();
        push_str(&mut url, "file://");
        push_str(&mut url, shown.as_str());
        KQuickViewBridgeRust {
            file_path: shown,
            file_url: url,
            file_type: String::from_str(preview.kind.name()),
            text_content: preview.text_content,
            is_valid: true,
            files,
            current_idx: idx,
        }
    }

    pub fn file_path(&self) -> (s: &String)
        ensures
            s@ == self@.file_path,
    {
        &self.file_path
    }

    pub fn file_url(&self) -> (s: &String)
        ensures
            s@ == self@.file_url,
    {
        &self.file_url
    }

    pub fn file_type(&self) -> (s: &String)
        ensures
            s@ == self@.file_type,
    {
        &self.file_type
    }

    pub fn text_content(&self) -> (s: &String)
        ensures
            s@ == self@.text_content,
    {
        &self.text_content
    }

    pub fn is_valid(&self) -> (b: bool)
        ensures
            b == self@.is_valid,
    {
        self.is_valid
    }

    pub fn files(&self) -> (v: &Vec<Vec<u8>>)
        ensures
            byte_views(v@) == self@.files,
    {
        &self.files
    }

    pub fn current_idx(&self) -> (i: usize)
        ensures
            i == self@.current_idx,
            window_consistent(self@),
    {
        proof {
            use_type_invariant(self);
        }
        self.current_idx
    }
}

/// Where the next-file key leads from position `idx` among `len` files, and
/// whether it moves: one step forward, but not past the last file.
pub open spec fn next_index(len: nat, idx: nat) -> (nat, bool) {
    if len == 0 {
        (0, false)
    } else if idx + 1 < len {
        ((idx + 1) as nat, true)
    } else {
        (idx, false)
    }
}

/// Where the previous-file key leads from position `idx` among `len`
/// files, and whether it moves: one step back, but not before the first.
pub open spec fn previous_index(len: nat, idx: nat) -> (nat, bool) {
    if len == 0 {
        (0, false)
    } else if idx > 0 {
        ((idx - 1) as nat, true)
    } else {
        (idx, false)
    }
}

/// The window object that the interface talks to.
pub struct KQuickViewBridge {
    rust: KQuickViewBridgeRust,
}

impl View for KQuickViewBridge {
    type V = BridgeView;

    closed spec fn view(&self) -> BridgeView {
        self.rust@
    }
}

impl KQuickViewBridge {
    pub fn new(rust: KQuickViewBridgeRust) -> (b: Self)
        ensures
            b@ == rust@,
    {
        KQuickViewBridge { rust }
    }

    /// The window's properties.
    pub fn rust(&self) -> (r: &KQuickViewBridgeRust)
        ensures
            r@ == self@,
    {
        &self.rust
    }

    /// Steps to the next file of the folder, unless the shown file is the
    /// last. Returns whether the position moved; the properties still
    /// describe the previously shown file until `show_current_file`.
    pub fn next_file(&mut self) -> (moved: bool)
        ensures
            moved == next_index(old(self)@.files.len(), old(self)@.current_idx).1,
            final(self)@ == (BridgeView {
                current_idx: next_index(old(self)@.files.len(), old(self)@.current_idx).0,
                ..old(self)@
            }),
            window_consistent(final(self)@),
    {
        proof {
            use_type_invariant(&self.rust);
        }
        let len = self.rust.files.len();
        let idx = self.rust.current_idx;
        if len == 0 || idx + 1 >= len {
            return false;
        }
        self.rust.current_idx = idx + 1;
        true
    }

    /// Steps to the previous file of the folder, unless the shown file is
    /// the first. Returns whether the position moved; the properties still
    /// describe the previously shown file until `show_current_file`.
    pub fn previous_file(&mut self) -> (moved: bool)
        ensures
            moved == previous_index(old(self)@.files.len(), old(self)@.current_idx).1,
            final(self)@ == (BridgeView {
                current_idx: previous_index(old(self)@.files.len(), old(self)@.current_idx).0,
                ..old(self)@
            }),
            window_consistent(final(self)@),
    {
        proof {
            use_type_invariant(&self.rust);
        }
        let len = self.rust.files.len();
        let idx = self.rust.current_idx;
        if len == 0 || idx == 0 {
            return false;
        }
        self.rust.current_idx = idx - 1;
        true
    }

    /// The path (as bytes) of the file at the current position, if there is
    /// one.
    pub fn current_file(&self) -> (p: Option<&Vec<u8>>)
        ensures
            match p {
                Some(s) => self@.current_idx < self@.files.len() && s@ == self@.files[self@.current_idx as int],
                None => self@.files.len() == 0,
            },
    {
        proof {
            use_type_invariant(&self.rust);
        }
        if self.rust.current_idx < self.rust.files.len() {
            Some(&self.rust.files[self.rust.current_idx])
        } else {
            None
        }
    }

    /// Shows the file at the current position with the given preview: its
    /// path, URL, type and text, marked valid. With no file at the current
    /// position nothing changes and `false` is returned.
    pub fn show_current_file(&mut self, preview: FilePreview) -> (shown: bool)
        ensures
            shown == (old(self)@.current_idx < old(self)@.files.len()),
            shown ==> final(self)@ == shown_view(old(self)@, preview.kind, preview.text_content@),
            !shown ==> final(self)@ == old(self)@,
            window_consistent(final(self)@),
    {
        proof {
            use_type_invariant(&self.rust);
        }
        if self.rust.current_idx >= self.rust.files.len() {
            return false;
        }
        let path = lossy_string(self.rust.files[self.rust.current_idx].as_slice());
        let mut url = String::new();
        push_str(&mut url, "file://");
        push_str(&mut url, path.as_str());
        // Path and URL change together; the window is marked valid again
        // once both are set.
        self.rust.is_valid = false;
        self.rust.file_path = path;
        self.rust.file_url = url;
        self.rust.file_type = String::from_str(preview.kind.name());
        self.rust.text_content = preview.text_content;
        self.rust.is_valid = true;
        true
    }
}

/// Stepping back undoes a step forward: from any position of a folder with
/// files, when the next-file key moves, the previous-file key moves back to
/// where it started.
pub proof fn lemma_previous_undoes_next(len: nat, idx: nat)
    requires
        idx < len,
        next_index(len, idx).1,
    ensures
        previous_index(len, next_index(len, idx).0) == (idx, true),
{
}

/// Stepping forward undoes a step back.
pub proof fn lemma_next_undoes_previous(len: nat, idx: nat)
    requires
        idx < len,
        previous_index(len, idx).1,
    ensures
        next_index(len, previous_index(len, idx).0) == (idx, true),
{
}

/// Both keys keep the position on one of the folder's files, and a key
/// that does not move leaves the position where it was.
pub proof fn lemma_navigation_in_range(len: nat, idx: nat)
    requires
        idx < len,
    ensures
        next_index(len, idx).0 < len,
        previous_index(len, idx).0 < len,
        !next_index(len, idx).1 ==> next_index(len, idx).0 == idx && idx == len - 1,
        !previous_index(len, idx).1 ==> previous_index(len, idx).0 == idx && idx == 0,
{
}

/// The window after the next-file key was pressed `k` times (the keys only
/// move the position).
pub open spec fn after_next_keys(v: BridgeView, k: nat) -> BridgeView
    decreases k,
{
    if k == 0 {
        v
    } else {
        after_next_keys(BridgeView { current_idx: next_index(v.files.len(), v.current_idx).0, ..v }, (k - 1) as nat)
    }
}

/// The window after the previous-file key was pressed `k` times.
pub open spec fn after_previous_keys(v: BridgeView, k: nat) -> BridgeView
    decreases k,
{
    if k == 0 {
        v
    } else {
        after_previous_keys(
            BridgeView { current_idx: previous_index(v.files.len(), v.current_idx).0, ..v },
            (k - 1) as nat,
        )
    }
}

/// Pressing the next-file key often enough reaches the last file of the
/// folder and stays there: after at least as many presses as there are
/// files after the shown one, the position is the last and the files are
/// unchanged, and a further press does not move.
pub proof fn lemma_next_keys_reach_last(v: BridgeView, k: nat)
    requires
        v.current_idx < v.files.len(),
        k >= v.files.len() - 1 - v.current_idx,
    ensures
        after_next_keys(v, k) == (BridgeView { current_idx: (v.files.len() - 1) as nat, ..v }),
        next_index(v.files.len(), (v.files.len() - 1) as nat) == ((v.files.len() - 1) as nat, false),
    decreases k,
{
    if k > 0 {
        lemma_next_keys_reach_last(
            BridgeView { current_idx: next_index(v.files.len(), v.current_idx).0, ..v },
            (k - 1) as nat,
        );
    }
}

/// Pressing the previous-file key often enough reaches the first file of
/// the folder and stays there.
pub proof fn lemma_previous_keys_reach_first(v: BridgeView, k: nat)
    requires
        v.current_idx < v.files.len(),
        k >= v.current_idx,
    ensures
        after_previous_keys(v, k) == (BridgeView { current_idx: 0, ..v }),
        previous_index(v.files.len(), 0) == (0nat, false),
    decreases k,
{
    if k > 0 {
        lemma_previous_keys_reach_first(
            BridgeView { current_idx: previous_index(v.files.len(), v.current_idx).0, ..v },
            (k - 1) as nat,
        );
    }
}

/// Showing a file the keys lead to shows what opening the window on that
/// file shows: path, URL, type, text and validity agree, given the same
/// preview of the file.
pub proof fn lemma_shown_as_opened(v: BridgeView, listing: Seq<Entry>, kind: FileKind, text: Seq<char>)
    requires
        v.current_idx < v.files.len(),
    ensures
        ({
            let shown = shown_view(v, kind, text);
            let opened = opened_view(v.files[v.current_idx as int], listing, kind, text);
            &&& shown.file_path == opened.file_path
            &&& shown.file_url == opened.file_url
            &&& shown.file_type == opened.file_type
            &&& shown.text_content == opened.text_content
            &&& shown.is_valid == opened.is_valid
        }),
{
}

/// One press of the next-file key as the program handles it: the position
/// moves and, where it moved, the file there is shown with the preview read
/// for it (of the given kind and text).
pub open spec fn next_key_shown(v: BridgeView, kind: FileKind, text: Seq<char>) -> BridgeView {
    if next_index(v.files.len(), v.current_idx).1 {
        shown_view(BridgeView { current_idx: next_index(v.files.len(), v.current_idx).0, ..v }, kind, text)
    } else {
        v
    }
}

/// One press of the previous-file key as the program handles it.
pub open spec fn previous_key_shown(v: BridgeView, kind: FileKind, text: Seq<char>) -> BridgeView {
    if previous_index(v.files.len(), v.current_idx).1 {
        shown_view(BridgeView { current_idx: previous_index(v.files.len(), v.current_idx).0, ..v }, kind, text)
    } else {
        v
    }
}

/// The window after presses of the next-file key, one for each preview
/// read on the way.
pub open spec fn next_keys_shown(v: BridgeView, previews: Seq<(FileKind, Seq<char>)>) -> BridgeView
    decreases previews.len(),
{
    if previews.len() == 0 {
        v
    } else {
        next_keys_shown(next_key_shown(v, previews[0].0, previews[0].1), previews.drop_first())
    }
}

/// The window after presses of the previous-file key, one for each preview
/// read on the way.
pub open spec fn previous_keys_shown(v: BridgeView, previews: Seq<(FileKind, Seq<char>)>) -> BridgeView
    decreases previews.len(),
{
    if previews.len() == 0 {
        v
    } else {
        previous_keys_shown(previous_key_shown(v, previews[0].0, previews[0].1), previews.drop_first())
    }
}

proof fn lemma_next_keys_stay(v: BridgeView, previews: Seq<(FileKind, Seq<char>)>)
    requires
        v.files.len() > 0,
        v.current_idx == v.files.len() - 1,
    ensures
        next_keys_shown(v, previews) == v,
    decreases previews.len(),
{
    if previews.len() > 0 {
        lemma_next_keys_stay(v, previews.drop_first());
    }
}

proof fn lemma_previous_keys_stay(v: BridgeView, previews: Seq<(FileKind, Seq<char>)>)
    requires
        v.files.len() > 0,
        v.current_idx == 0,
    ensures
        previous_keys_shown(v, previews) == v,
    decreases previews.len(),
{
    if previews.len() > 0 {
        lemma_previous_keys_stay(v, previews.drop_first());
    }
}

/// From a file that is not the last, pressing the next-file key at least
/// as often as there are files after it shows the last file of the folder
/// (its path, as text, and its URL, marked valid), with the same files, and
/// a further press changes nothing.
pub proof fn lemma_next_keys_show_last(v: BridgeView, previews: Seq<(FileKind, Seq<char>)>)
    requires
        v.current_idx + 1 < v.files.len(),
        previews.len() >= v.files.len() - 1 - v.current_idx,
    ensures
        ({
            let r = next_keys_shown(v, previews);
            let last = v.files[v.files.len() - 1];
            &&& r.current_idx == v.files.len() - 1
            &&& r.files == v.files
            &&& r.file_path == utf8_lossy(last)
            &&& r.file_url == file_url_of(utf8_lossy(last))
            &&& r.is_valid
            &&& forall|kind: FileKind, text: Seq<char>| #[trigger] next_key_shown(r, kind, text) == r
        }),
    decreases previews.len(),
{
    let v1 = next_key_shown(v, previews[0].0, previews[0].1);
    if v.current_idx + 2 == v.files.len() {
        lemma_next_keys_stay(v1, previews.drop_first());
    } else {
        lemma_next_keys_show_last(v1, previews.drop_first());
    }
}

/// From a file that is not the first, pressing the previous-file key at
/// least as often as there are files before it shows the first file of the
/// folder, with the same files, and a further press changes nothing.
pub proof fn lemma_previous_keys_show_first(v: BridgeView, previews: Seq<(FileKind, Seq<char>)>)
    requires
        0 < v.current_idx < v.files.len(),
        previews.len() >= v.current_idx,
    ensures
        ({
            let r = previous_keys_shown(v, previews);
            &&& r.current_idx == 0
            &&& r.files == v.files
            &&& r.file_path == utf8_lossy(v.files[0])
            &&& r.file_url == file_url_of(utf8_lossy(v.files[0]))
            &&& r.is_valid
            &&& forall|kind: FileKind, text: Seq<char>| #[trigger] previous_key_shown(r, kind, text) == r
        }),
    decreases previews.len(),
{
    let v1 = previous_key_shown(v, previews[0].0, previews[0].1);
    if v.current_idx == 1 {
        lemma_previous_keys_stay(v1, previews.drop_first());
    } else {
        lemma_previous_keys_show_first(v1, previews.drop_first());
    }
}

fn bytes_eq(a: &[u8], b: &[u8]) -> (res: bool)
    ensures
        res == (a@ == b@),
{
    if a.len() != b.len() {
        return false;
    }
    let mut i: usize = 0;
    while i < a.len()
        invariant
            a@.len() == b@.len(),
            i <= a@.len(),
            forall|j: int| 0 <= j < i ==> a@[j] == b@[j],
        decreases a@.len() - i,
    {
        if a[i] != b[i] {
            return false;
        }
        i = i + 1;
    }
    assert(a@ =~= b@);
    true
}

/// The first position of `path` in `files`, or 0 when it is not there.
pub fn index_of_path(files: &Vec<Vec<u8>>, path: &Vec<u8>) -> (i: usize)
    ensures
        i == position_or_zero(byte_views(files@), path@),
        files@.len() > 0 ==> i < files@.len(),
{
    let ghost fs = byte_views(files@);
    let mut i: usize = 0;
    while i < files.len()
        invariant
            fs == byte_views(files@),
            i <= files@.len(),
            forall|j: int| 0 <= j < i ==> fs[j] != path@,
        decreases files@.len() - i,
    {
        if bytes_eq(files[i].as_slice(), path.as_slice()) {
            proof {
                assert(fs[i as int] == path@);
                let c = choose|c: int| 0 <= c < fs.len() && fs[c] == path@ && forall|j: int| 0 <= j < c ==> fs[j] != path@;
                if c < i {
                } else if c > i {
                    assert(fs[i as int] != path@);
                }
            }
            return i;
        }
        i = i + 1;
    }
    0
}

} // verus!
