//! Turning the `file://` URI that a file manager copies to the clipboard
//! into a local path: percent-decoding and scheme stripping.

use crate::text::{chars_of, contains_str, has_prefix, has_substring, lossy_string, string_from_chars, utf8_lossy};
use vstd::prelude::*;
use vstd::utf8::{
    decode_utf8, encode_scalar, encode_utf8, encode_utf8_decode_utf8, encode_utf8_valid_utf8, is_ascii_chars,
    is_ascii_chars_encode_utf8, valid_utf8,
};

verus! {

/// The percent sign that starts an escape.
pub const PERCENT: u8 = 37;

/// The plus sign that `u8::from_str_radix` accepts before the digits.
pub const PLUS: u8 = 43;

/// Value of an ASCII hexadecimal digit, either case.
pub open spec fn hex_digit_value(b: u8) -> Option<u8> {
    if 48 <= b <= 57 {
        Some((b - 48) as u8)
    } else if 97 <= b <= 102 {
        Some((b - 87) as u8)
    } else if 65 <= b <= 70 {
        Some((b - 55) as u8)
    } else {
        None
    }
}

/// The byte that the two characters after a `%` stand for, read as a
/// base-16 `u8` (`u8::from_str_radix`): two hex digits, or a `+` sign
/// followed by one hex digit. Anything else stands for no byte.
pub open spec fn escape_value(h1: u8, h2: u8) -> Option<u8> {
    match (hex_digit_value(h1), hex_digit_value(h2)) {
        (Some(a), Some(b)) => Some((16 * a + b) as u8),
        (None, Some(b)) => if h1 == PLUS {
            Some(b)
        } else {
            None
        },
        _ => None,
    }
}

/// Percent-decoding of a byte string. A `%` followed by two bytes that form
/// an escape becomes that byte; otherwise the `%` stays and the two bytes
/// after it are dropped (a `%` with fewer than two bytes after it ends the
/// input). Every other byte is kept.
pub open spec fn percent_decode(bytes: Seq<u8>) -> Seq<u8>
    decreases bytes.len(),
{
    if bytes.len() == 0 {
        seq![]
    } else if bytes[0] == PERCENT {
        if bytes.len() >= 3 {
            match escape_value(bytes[1], bytes[2]) {
                Some(v) => seq![v] + percent_decode(bytes.skip(3)),
                None => seq![PERCENT] + percent_decode(bytes.skip(3)),
            }
        } else {
            seq![PERCENT]
        }
    } else {
        seq![bytes[0]] + percent_decode(bytes.skip(1))
    }
}

fn hex_digit(b: u8) -> (r: Option<u8>)
    ensures
        r == hex_digit_value(b),
{
    if 48 <= b && b <= 57 {
        Some(b - 48)
    } else if 97 <= b && b <= 102 {
        Some(b - 87)
    } else if 65 <= b && b <= 70 {
        Some(b - 55)
    } else {
        None
    }
}

fn escape(h1: u8, h2: u8) -> (r: Option<u8>)
    ensures
        r == escape_value(h1, h2),
{
    match (hex_digit(h1), hex_digit(h2)) {
        (Some(a), Some(b)) => Some(16 * a + b),
        (None, Some(b)) => if h1 == PLUS {
            Some(b)
        } else {
            None
        },
        _ => None,
    }
}

/// Percent-decodes a byte string (see `percent_decode`).
pub fn percent_decode_bytes(bytes: &[u8]) -> (out: Vec<u8>)
    ensures
        out@ == percent_decode(bytes@),
{
    let mut out: Vec<u8> = Vec::new();
    let mut i: usize = 0;
    let n: usize = bytes.len();
    assert(bytes@.skip(0) =~= bytes@);
    assert(out@ + percent_decode(bytes@) =~= percent_decode(bytes@));
    while i < n
        invariant
            n == bytes@.len(),
            i <= n,
            out@ + percent_decode(bytes@.skip(i as int)) == percent_decode(bytes@),
        decreases n - i,
    {
        let ghost rest = bytes@.skip(i as int);
        let b = bytes[i];
        if b == PERCENT {
            if n - i >= 3 {
                assert(rest.skip(3) =~= bytes@.skip(i + 3));
                match escape(bytes[i + 1], bytes[i + 2]) {
                    Some(v) => out.push(v),
                    None => out.push(PERCENT),
                }
                i = i + 3;
            } else {
                out.push(PERCENT);
                assert(bytes@.skip(n as int) =~= Seq::<u8>::empty());
                i = n;
            }
        } else {
            assert(rest.skip(1) =~= bytes@.skip(i + 1));
            out.push(b);
            i = i + 1;
        }
        assert(out@ + percent_decode(bytes@.skip(i as int)) =~= percent_decode(bytes@));
    }
    assert(bytes@.skip(n as int) =~= Seq::<u8>::empty());
    assert(out@ + seq![] =~= out@);
    out
}

/// Bytes without a `%` decode to themselves.
pub proof fn lemma_percent_decode_plain(bytes: Seq<u8>)
    requires
        !bytes.contains(PERCENT),
    ensures
        percent_decode(bytes) == bytes,
    decreases bytes.len(),
{
    if bytes.len() > 0 {
        assert(bytes[0] != PERCENT) by {
            assert(bytes.contains(bytes[0]));
        }
        let rest = bytes.skip(1);
        assert forall|k: int| 0 <= k < rest.len() implies rest[k] != PERCENT by {
            assert(rest[k] == bytes[k + 1]);
            assert(bytes.contains(bytes[k + 1]));
        }
        lemma_percent_decode_plain(rest);
        assert(seq![bytes[0]] + rest =~= bytes);
    }
}

/// The UTF-8 encoding of a character other than `%` holds no `%` byte.
proof fn lemma_scalar_percent_free(c: char)
    requires
        c != '%',
    ensures
        !encode_scalar(c as u32).contains(PERCENT),
{
    let u = c as u32;
    vstd::utf8::char_u32_cast(c, u);
    assert(u != 37);
    let e = encode_scalar(u);
    assert forall|i: int| 0 <= i < e.len() implies e[i] != PERCENT by {
        if u <= 0x7f {
            assert((u & 0x7f) as u8 != 37u8) by (bit_vector)
                requires
                    u <= 0x7f,
                    u != 37,
            ;
        } else {
            assert((0xC0u8 | ((u >> 6) & 0x1F) as u8) != 37u8) by (bit_vector);
            assert((0xE0u8 | ((u >> 12) & 0x0F) as u8) != 37u8) by (bit_vector);
            assert((0xF0u8 | ((u >> 18) & 0x7) as u8) != 37u8) by (bit_vector);
            assert((0x80u8 | (u & 0x3F) as u8) != 37u8) by (bit_vector);
            assert((0x80u8 | ((u >> 6) & 0x3F) as u8) != 37u8) by (bit_vector);
            assert((0x80u8 | ((u >> 12) & 0x3F) as u8) != 37u8) by (bit_vector);
        }
    }
}

/// Text without a `%` character has no `%` byte in its UTF-8 encoding.
proof fn lemma_percent_free_encoding(chars: Seq<char>)
    requires
        !chars.contains('%'),
    ensures
        !encode_utf8(chars).contains(PERCENT),
    decreases chars.len(),
{
    if chars.len() > 0 {
        assert(chars[0] != '%') by {
            assert(chars.contains(chars[0]));
        }
        let rest = chars.drop_first();
        assert(!rest.contains('%')) by {
            if rest.contains('%') {
                let k = choose|k: int| 0 <= k < rest.len() && rest[k] == '%';
                assert(chars[k + 1] == '%');
            }
        }
        lemma_percent_free_encoding(rest);
        lemma_scalar_percent_free(chars[0]);
        let e = encode_scalar(chars[0] as u32);
        let whole = encode_utf8(chars);
        assert(whole == e + encode_utf8(rest));
        if whole.contains(PERCENT) {
            let k = choose|k: int| 0 <= k < whole.len() && whole[k] == PERCENT;
            if k < e.len() {
                assert(e[k] == PERCENT);
            } else {
                assert(encode_utf8(rest)[k - e.len()] == PERCENT);
            }
        }
    }
}

/// Decodes percent escapes in a URI path (as bytes of its UTF-8 encoding)
/// and reads the result as UTF-8, replacing invalid sequences (decoded
/// bytes that are valid UTF-8 are read as they are). A string without a `%`
/// comes back unchanged.
pub fn url_decode(input: &str) -> (res: String)
    ensures
        res@ == utf8_lossy(percent_decode(encode_utf8(input@))),
        valid_utf8(percent_decode(encode_utf8(input@))) ==> res@ == decode_utf8(
            percent_decode(encode_utf8(input@)),
        ),
        !input@.contains('%') ==> res@ == input@,
{
    let bytes = input.as_bytes();
    let decoded = percent_decode_bytes(bytes);
    let res = lossy_string(decoded.as_slice());
    proof {
        if !input@.contains('%') {
            lemma_percent_free_encoding(input@);
            lemma_percent_decode_plain(encode_utf8(input@));
            vstd::utf8::encode_utf8_valid_utf8(input@);
            vstd::utf8::encode_utf8_decode_utf8(input@);
        }
    }
    res
}

/// The ASCII byte of hexadecimal digit `d` (0 to 15), upper- or lowercase.
pub open spec fn hex_digit_byte(d: u8, upper: bool) -> u8 {
    if d < 10 {
        (48 + d) as u8
    } else if upper {
        (55 + d) as u8
    } else {
        (87 + d) as u8
    }
}

/// Every byte written as `%` and two hexadecimal digits (the form
/// `format!("%{:02X}", b)`, or `{:02x}` for lowercase digits, gives).
pub open spec fn percent_escape_bytes(bytes: Seq<u8>, upper: bool) -> Seq<u8> {
    Seq::new(
        3 * bytes.len(),
        |i: int|
            if i % 3 == 0 {
                PERCENT
            } else if i % 3 == 1 {
                hex_digit_byte(bytes[i / 3] / 16, upper)
            } else {
                hex_digit_byte(bytes[i / 3] % 16, upper)
            },
    )
}

/// Text with every byte of its UTF-8 encoding percent-escaped.
pub open spec fn percent_encoded(s: Seq<char>, upper: bool) -> Seq<char> {
    percent_escape_bytes(encode_utf8(s), upper).map_values(|b: u8| b as char)
}

proof fn lemma_hex_digit_byte(d: u8, upper: bool)
    requires
        0 <= d < 16,
    ensures
        hex_digit_value(hex_digit_byte(d, upper)) == Some(d),
        hex_digit_byte(d, upper) < 128,
{
}

/// Percent-decoding undoes percent-escaping.
proof fn lemma_percent_decode_escaped(bytes: Seq<u8>, upper: bool)
    ensures
        percent_decode(percent_escape_bytes(bytes, upper)) == bytes,
    decreases bytes.len(),
{
    let e = percent_escape_bytes(bytes, upper);
    if bytes.len() == 0 {
        assert(e.len() == 0);
    } else {
        let b = bytes[0];
        lemma_hex_digit_byte(b / 16, upper);
        lemma_hex_digit_byte(b % 16, upper);
        assert(e[0] == PERCENT);
        assert(e[1] == hex_digit_byte(b / 16, upper));
        assert(e[2] == hex_digit_byte(b % 16, upper));
        assert((16 * (b / 16) + b % 16) as u8 == b);
        assert(escape_value(e[1], e[2]) == Some(b));
        let rest = bytes.skip(1);
        assert forall|i: int| 0 <= i < 3 * rest.len() implies #[trigger] e.skip(3)[i]
            == percent_escape_bytes(rest, upper)[i] by {
            assert((i + 3) % 3 == i % 3);
            assert((i + 3) / 3 == i / 3 + 1);
        }
        assert(e.skip(3) =~= percent_escape_bytes(rest, upper));
        lemma_percent_decode_escaped(rest, upper);
        assert(seq![b] + rest =~= bytes);
    }
}

/// Decoding undoes percent-encoding: for any text `s`, the bytes that
/// `url_decode` decodes from `percent_encoded(s, upper)` (every byte of the
/// UTF-8 encoding of `s` written as `%` and two hexadecimal digits, in
/// either case) are valid UTF-8 and read as `s` itself.
pub proof fn lemma_url_decode_undoes_percent_encoding(s: Seq<char>, upper: bool)
    ensures
        valid_utf8(percent_decode(encode_utf8(percent_encoded(s, upper)))),
        decode_utf8(percent_decode(encode_utf8(percent_encoded(s, upper)))) == s,
{
    let bytes = encode_utf8(s);
    let e = percent_escape_bytes(bytes, upper);
    let t = percent_encoded(s, upper);
    assert forall|i: int| 0 <= i < e.len() implies #[trigger] e[i] < 128 by {
        if i % 3 == 1 {
            lemma_hex_digit_byte(bytes[i / 3] / 16, upper);
        } else if i % 3 == 2 {
            lemma_hex_digit_byte(bytes[i / 3] % 16, upper);
        }
    }
    assert(is_ascii_chars(t)) by {
        assert forall|i: int| 0 <= i < t.len() implies '\0' <= #[trigger] t[i] <= '\u{7f}' by {
            assert(e[i] < 128);
        }
    }
    is_ascii_chars_encode_utf8(t);
    assert forall|i: int| 0 <= i < e.len() implies #[trigger] encode_utf8(t)[i] == e[i] by {
        assert(t[i] as u8 == encode_utf8(t)[i]);
        assert(e[i] < 128);
    }
    assert(encode_utf8(t) =~= e);
    lemma_percent_decode_escaped(bytes, upper);
    encode_utf8_valid_utf8(s);
    encode_utf8_decode_utf8(s);
}

/// The URI scheme of a local file.
pub open spec fn file_scheme() -> Seq<char> {
    seq!['f', 'i', 'l', 'e', ':', '/', '/']
}

/// `s` with every leading repetition of `prefix` removed
/// (std `str::trim_start_matches`).
pub open spec fn strip_leading(s: Seq<char>, prefix: Seq<char>) -> Seq<char>
    decreases s.len(),
{
    if prefix.len() > 0 && has_prefix(s, prefix) {
        strip_leading(s.skip(prefix.len() as int), prefix)
    } else {
        s
    }
}

fn file_scheme_chars() -> (v: Vec<char>)
    ensures
        v@ == file_scheme(),
{
    let v: Vec<char> = vec!['f', 'i', 'l', 'e', ':', '/', '/'];
    assert(v@ =~= file_scheme());
    v
}

/// The local path a clipboard text names, when it is a `file://` URI: every
/// leading `file://` is removed and the rest is percent-decoded. Any other
/// text names no path.
pub open spec fn uri_path(uri: Seq<char>) -> Option<Seq<char>> {
    if has_prefix(uri, file_scheme()) {
        let rest = strip_leading(uri, file_scheme());
        Some(utf8_lossy(percent_decode(encode_utf8(rest))))
    } else {
        None
    }
}

/// The local path named by a (trimmed) clipboard text (see `uri_path`).
/// A URI without escapes names the text after its `file://` prefixes.
pub fn path_from_file_uri(uri: &str) -> (res: Option<String>)
    ensures
        match res {
            Some(p) => uri_path(uri@) == Some(p@),
            None => uri_path(uri@) is None,
        },
        has_prefix(uri@, file_scheme()) && !strip_leading(uri@, file_scheme()).contains('%') ==> (res
            matches Some(p) && p@ == strip_leading(uri@, file_scheme())),
{
    let scheme = file_scheme_chars();
    let chars = chars_of(uri);
    let n: usize = chars.len();
    let mut start: usize = 0;
    let mut stripped: usize = 0;
    let mut go = true;
    assert(chars@.skip(0) =~= chars@);
    while go && n - start >= 7
        invariant
            chars@ == uri@,
            scheme@ == file_scheme(),
            n == chars@.len(),
            start <= n,
            start == 7 * stripped,
            strip_leading(chars@.skip(start as int), file_scheme()) == strip_leading(uri@, file_scheme()),
            stripped > 0 ==> has_prefix(uri@, file_scheme()),
            !go ==> !has_prefix(chars@.skip(start as int), file_scheme()),
        decreases n - start + (if go { 1int } else { 0int }),
    {
        let mut k: usize = 0;
        let mut same = true;
        while k < 7
            invariant
                start + 7 <= n,
                n == chars@.len(),
                scheme@ == file_scheme(),
                k <= 7,
                same <==> (forall|j: int| 0 <= j < k ==> chars@[start + j] == scheme@[j]),
            decreases 7 - k,
        {
            if chars[start + k] != scheme[k] {
                same = false;
            }
            k = k + 1;
        }
        let ghost tail = chars@.skip(start as int);
        if !same {
            assert(!has_prefix(tail, file_scheme())) by {
                if has_prefix(tail, file_scheme()) {
                    let j = choose|j: int| 0 <= j < 7 && chars@[start + j] != scheme@[j];
                    assert(tail.subrange(0, 7)[j] == chars@[start + j]);
                }
            }
            go = false;
        } else {
            assert(tail.subrange(0, 7) =~= file_scheme());
            assert(tail.skip(7) =~= chars@.skip(start + 7));
            if stripped == 0 {
                assert(tail =~= uri@);
            }
            start = start + 7;
            stripped = stripped + 1;
        }
    }
    proof {
        let tail = chars@.skip(start as int);
        assert(!has_prefix(tail, file_scheme()));
        assert(strip_leading(tail, file_scheme()) == tail);
        if stripped == 0 {
            assert(tail =~= uri@);
        }
    }
    if stripped == 0 {
        return None;
    }
    let rest = string_from_chars(&chars.as_slice()[start..n]);
    proof {
        assert(chars@.subrange(start as int, n as int) =~= chars@.skip(start as int));
    }
    Some(url_decode(rest.as_str()))
}

/// Whether a window title names the file manager whose selection is read
/// (it contains `Dolphin`).
pub fn is_file_manager_window(title: &str) -> (res: bool)
    ensures
        res == has_substring(title@, "Dolphin"@),
{
    contains_str(title, "Dolphin")
}

/// How long the clipboard is read for the copied selection, in
/// milliseconds.
pub const POLL_DEADLINE_MS: u64 = 150;

/// Pause between two reads of the clipboard, in milliseconds.
pub const POLL_INTERVAL_MS: u64 = 10;

/// Whether the clipboard is read again, `elapsed_ms` milliseconds after the
/// copy was requested: only before the deadline.
pub fn poll_again(elapsed_ms: u64) -> (go: bool)
    ensures
        go == (elapsed_ms < POLL_DEADLINE_MS),
{
    elapsed_ms < POLL_DEADLINE_MS
}

/// What follows one read of the clipboard.
pub enum PollStep {
    /// The clipboard names this local path: reading stops.
    Found(String),
    /// Nothing usable yet: wait this many milliseconds, then read again.
    Wait(u64),
}

/// The step after one read of the clipboard: the path its (trimmed) text
/// names as a `file://` URI, or a pause of `POLL_INTERVAL_MS` where the read
/// failed (`None`) or the text names no path.
pub fn after_clipboard_read(text: Option<&str>) -> (step: PollStep)
    ensures
        match step {
            PollStep::Found(p) => text matches Some(t) && uri_path(t@) == Some(p@),
            PollStep::Wait(ms) => ms == POLL_INTERVAL_MS && (text matches Some(t) ==> uri_path(t@) is None),
        },
{
    match text {
        Some(t) => match path_from_file_uri(t) {
            Some(p) => PollStep::Found(p),
            None => PollStep::Wait(POLL_INTERVAL_MS),
        },
        None => PollStep::Wait(POLL_INTERVAL_MS),
    }
}

} // verus!
