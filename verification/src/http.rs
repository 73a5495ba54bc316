//! The HTTP/1.1 side of the server: parsing request lines, headers and
//! `Range`, percent-decoding targets, routing requests to shares, sites and
//! receive cards, and building the response headers and small responses.
//!
//! Everything here is a function of its arguments; reading from and writing
//! to sockets and the file system is left to the caller, who hands the
//! results in and performs the actions decided here.
use vstd::prelude::*;
use vstd::string::StrSliceExecFns;
use vstd::utf8::{
    decode_utf8, encode_utf8, encode_utf8_decode_utf8, encode_utf8_valid_utf8, is_ascii_chars,
    is_ascii_chars_encode_utf8, valid_utf8,
};

use crate::html::{render_error, render_error_spec};
use crate::state::{
    find_by_id, first_index, is_token, is_token_char, keys, lemma_first_index_facts, ReceiveEncryption,
    ReceiveSession, Registry, ShareSession, SiteSession,
};
use crate::text::{
    after_first, before_first, chars_of, dec, has_prefix, hex_upper_char, hex_upper_digit,
    lower_range, lower_seq, parse_u64_range, parse_u64_spec, push_dec, range_eq, split_once_at,
    split_once_seq, trim_range, trim_seq, take_word, trim_start_seq, trim_end_seq,
    trim_start_char, word_bounds, string_from, skip_leading, str_eq, eq_ignore_case,
    str_eq_ignore_case, is_ws, is_digit, lower_char, all_digits, lemma_dec_digits, lemma_split_once_absent,
    lemma_split_once_found,
};

verus! {

// ---------------------------------------------------------------------------
// Failures
// ---------------------------------------------------------------------------
/// An HTTP failure: the status code, its reason phrase and the message shown
/// on the error page.
#[derive(Clone, Copy, Debug)]
pub struct Failure {
    pub code: u16,
    pub reason: &'static str,
    pub message: &'static str,
}

/// Whether `f` is the failure `code reason` with `message`.
pub open spec fn is_failure(f: Failure, code: u16, reason: Seq<char>, message: Seq<char>) -> bool {
    f.code == code && f.reason@ == reason && f.message@ == message
}

// ---------------------------------------------------------------------------
// Percent decoding and encoding
// ---------------------------------------------------------------------------
/// The value of a hexadecimal digit byte.
pub open spec fn hex_value(c: u8) -> Option<u8> {
    if 48 <= c <= 57 {
        Some((c - 48) as u8)
    } else if 97 <= c <= 102 {
        Some((c - 97 + 10) as u8)
    } else if 65 <= c <= 70 {
        Some((c - 65 + 10) as u8)
    } else {
        None
    }
}

/// The bytes that `%XX` escapes in `b` stand for; a `%` followed by two
/// more bytes that are not both hexadecimal digits makes the input invalid,
/// a `%` with fewer than two bytes after it is kept as it is.
pub open spec fn pct_decode_bytes(b: Seq<u8>) -> Option<Seq<u8>>
    decreases b.len(),
{
    if b.len() == 0 {
        Some(Seq::<u8>::empty())
    } else if b[0] == 37 && b.len() > 2 {
        match (hex_value(b[1]), hex_value(b[2])) {
            (Some(hi), Some(lo)) => match pct_decode_bytes(b.skip(3)) {
                Some(t) => Some(seq![(hi * 16 + lo) as u8] + t),
                None => None,
            },
            _ => None,
        }
    } else {
        match pct_decode_bytes(b.drop_first()) {
            Some(t) => Some(seq![b[0]] + t),
            None => None,
        }
    }
}

/// What `String::from_utf8_lossy` makes of `bytes`.
pub uninterp spec fn utf8_lossy(bytes: Seq<u8>) -> Seq<char>;

/// `String::from_utf8_lossy`: decodes `bytes` as UTF-8, putting U+FFFD in
/// place of invalid sequences. The contract names the result and states its
/// documented value on valid UTF-8 (the plain decoding); how invalid
/// sequences are replaced is left unstated.
#[verifier::external_body]
fn from_utf8_lossy(bytes: &[u8]) -> (s: String)
    ensures
        s@ == utf8_lossy(bytes@),
        valid_utf8(bytes@) ==> s@ == decode_utf8(bytes@),
{
    String::from_utf8_lossy(bytes).into_owned()
}

/// The text that decoded bytes are read as: their UTF-8 decoding when they
/// are valid UTF-8, else what `String::from_utf8_lossy` makes of them.
pub open spec fn lossy_text(b: Seq<u8>) -> Seq<char> {
    if valid_utf8(b) {
        decode_utf8(b)
    } else {
        utf8_lossy(b)
    }
}

/// The text `s` denotes after percent-decoding, `None` on a bad escape.
pub open spec fn percent_decode_spec(s: Seq<char>) -> Option<Seq<char>> {
    match pct_decode_bytes(encode_utf8(s)) {
        Some(b) => Some(lossy_text(b)),
        None => None,
    }
}

/// The value of the hexadecimal digit `c`.
pub fn hex_val(c: u8) -> (r: Option<u8>)
    ensures
        r == hex_value(c),
{
    if 48 <= c && c <= 57 {
        Some(c - 48)
    } else if 97 <= c && c <= 102 {
        Some(c - 97 + 10)
    } else if 65 <= c && c <= 70 {
        Some(c - 65 + 10)
    } else {
        None
    }
}

/// Decodes the `%XX` escapes of a URL target; `Err` on an escape whose two
/// digits are not hexadecimal. The decoded bytes are read as UTF-8 with
/// invalid sequences replaced.
pub fn percent_decode(s: &str) -> (r: Result<String, ()>)
    ensures
        match percent_decode_spec(s@) {
            Some(t) => r matches Ok(d) && d@ == t,
            None => r is Err,
        },
{
    let bytes = s.as_bytes();
    let ghost b = bytes@;
    assert(b == encode_utf8(s@));
    let mut out: Vec<u8> = Vec::new();
    let mut i: usize = 0;
    proof {
        assert(b.skip(0) =~= b);
        match pct_decode_bytes(b) {
            Some(t) => {
                assert(out@ + t =~= t);
            },
            None => {},
        }
    }
    while i < bytes.len()
        invariant
            b == bytes@,
            b == encode_utf8(s@),
            i <= bytes.len(),
            pct_decode_bytes(b) == match pct_decode_bytes(b.skip(i as int)) {
                Some(t) => Some(out@ + t),
                None => None,
            },
        decreases bytes.len() - i,
    {
        let ghost rest = b.skip(i as int);
        assert(rest.len() == bytes.len() - i && rest[0] == bytes@[i as int]);
        if bytes[i] == 37 && bytes.len() - i > 2 {
            let hi = hex_val(bytes[i + 1]);
            let lo = hex_val(bytes[i + 2]);
            assert(rest[1] == bytes@[i + 1] && rest[2] == bytes@[i + 2]);
            match (hi, lo) {
                (Some(h), Some(l)) => {
                    let byte = (h * 16 + l) as u8;
                    out.push(byte);
                    proof {
                        assert(rest.skip(3) =~= b.skip(i + 3));
                        match pct_decode_bytes(b.skip(i + 3)) {
                            Some(t) => {
                                assert(out@ + t =~= out@.drop_last() + (seq![byte] + t));
                            },
                            None => {},
                        }
                    }
                    i = i + 3;
                },
                _ => {
                    assert(pct_decode_bytes(rest) is None);
                    assert(pct_decode_bytes(b) is None);
                    assert(percent_decode_spec(s@) is None);
                    return Err(());
                },
            }
        } else {
            out.push(bytes[i]);
            proof {
                assert(rest.drop_first() =~= b.skip(i + 1));
                match pct_decode_bytes(b.skip(i + 1)) {
                    Some(t) => {
                        assert(out@ + t =~= out@.drop_last() + (seq![bytes@[i as int]] + t));
                    },
                    None => {},
                }
            }
            i = i + 1;
        }
    }
    assert(b.skip(i as int) =~= Seq::<u8>::empty());
    assert(out@ + Seq::<u8>::empty() =~= out@);
    Ok(from_utf8_lossy(out.as_slice()))
}

/// Whether a byte is sent as it is in an encoded file name.
pub open spec fn is_unreserved(b: u8) -> bool {
    (48 <= b <= 57) || (65 <= b <= 90) || (97 <= b <= 122) || b == 46 || b == 95 || b == 45
}

/// The encoding of one byte of a file name.
pub open spec fn url_encode_byte(b: u8) -> Seq<char> {
    if is_unreserved(b) {
        seq![b as char]
    } else {
        seq!['%', hex_upper_char((b / 16) as nat), hex_upper_char((b % 16) as nat)]
    }
}

/// The encoding of a byte string: unreserved bytes as they are, every
/// other byte as `%XX` with upper-case hexadecimal digits.
pub open spec fn url_encode_bytes(b: Seq<u8>) -> Seq<char>
    decreases b.len(),
{
    if b.len() == 0 {
        Seq::<char>::empty()
    } else {
        url_encode_bytes(b.drop_last()) + url_encode_byte(b.last())
    }
}

/// Appends the percent-encoding of the UTF-8 bytes of `s`.
fn push_url_encoded(out: &mut String, s: &str)
    ensures
        final(out)@ == old(out)@ + url_encode_bytes(encode_utf8(s@)),
{
    let bytes = s.as_bytes();
    let ghost start = out@;
    let mut i: usize = 0;
    while i < bytes.len()
        invariant
            i <= bytes.len(),
            out@ == start + url_encode_bytes(bytes@.take(i as int)),
        decreases bytes.len() - i,
    {
        let b = bytes[i];
        if (48 <= b && b <= 57) || (65 <= b && b <= 90) || (97 <= b && b <= 122) || b == 46 || b
            == 95 || b == 45 {
            out.push(b as char);
        } else {
            out.push('%');
            out.push(hex_upper_digit(b / 16));
            out.push(hex_upper_digit(b % 16));
        }
        proof {
            let t = bytes@.take(i + 1);
            assert(t.drop_last() =~= bytes@.take(i as int));
            assert(out@ =~= start + url_encode_bytes(t));
        }
        i = i + 1;
    }
    assert(bytes@.take(i as int) =~= bytes@);
}

/// The RFC 5987 encoding of a file name for `filename*=UTF-8''`.
pub fn url_encode_filename(s: &str) -> (r: String)
    ensures
        r@ == url_encode_bytes(encode_utf8(s@)),
{
    let mut out = String::new();
    push_url_encoded(&mut out, s);
    assert(out@ =~= url_encode_bytes(encode_utf8(s@)));
    out
}

/// The encoded form of a file name, as bytes.
pub open spec fn url_encode_ascii(b: Seq<u8>) -> Seq<u8> {
    url_encode_bytes(b).map_values(|c: char| c as u8)
}

/// Encoding a byte string starts with the encoding of its first byte.
proof fn lemma_url_encode_front(b: Seq<u8>)
    requires
        b.len() > 0,
    ensures
        url_encode_bytes(b) == url_encode_byte(b[0]) + url_encode_bytes(b.drop_first()),
    decreases b.len(),
{
    if b.len() == 1 {
        assert(b.drop_last() =~= Seq::<u8>::empty());
        assert(b.drop_first() =~= Seq::<u8>::empty());
        assert(url_encode_byte(b[0]) + Seq::<char>::empty() =~= url_encode_byte(b[0]));
    } else {
        lemma_url_encode_front(b.drop_last());
        assert(b.drop_last()[0] == b[0]);
        assert(b.drop_last().drop_first() =~= b.drop_first().drop_last());
        assert(b.drop_first().last() == b.last());
        assert(url_encode_bytes(b) =~= url_encode_byte(b[0]) + url_encode_bytes(b.drop_first()));
    }
}

/// Every character of an encoded file name is ASCII.
proof fn lemma_url_encode_ascii(b: Seq<u8>)
    ensures
        is_ascii_chars(url_encode_bytes(b)),
    decreases b.len(),
{
    if b.len() > 0 {
        lemma_url_encode_ascii(b.drop_last());
        let head = url_encode_bytes(b.drop_last());
        let tail = url_encode_byte(b.last());
        let x = b.last();
        assert(is_ascii_chars(tail)) by {
            if is_unreserved(x) {
                assert(tail[0] == x as char);
            } else {
                let h = (x / 16) as nat;
                let l = (x % 16) as nat;
                assert(h < 16 && l < 16);
                assert(tail[1] == hex_upper_char(h));
                assert(tail[2] == hex_upper_char(l));
            }
        }
        assert forall|i: int| 0 <= i < (head + tail).len() implies '\0' <= #[trigger] (head
            + tail)[i] <= '\u{7f}' by {
            if i < head.len() {
                assert((head + tail)[i] == head[i]);
            } else {
                assert((head + tail)[i] == tail[i - head.len()]);
            }
        }
    }
}

/// Percent-decoding the bytes of an encoded file name gives back the bytes
/// that were encoded.
proof fn lemma_decode_encoded_bytes(b: Seq<u8>)
    ensures
        pct_decode_bytes(url_encode_ascii(b)) == Some(b),
    decreases b.len(),
{
    if b.len() == 0 {
        assert(url_encode_ascii(b) =~= Seq::<u8>::empty());
        assert(Seq::<u8>::empty() =~= b);
    } else {
        lemma_url_encode_front(b);
        let x = b[0];
        let rest = b.drop_first();
        lemma_decode_encoded_bytes(rest);
        let e = url_encode_ascii(b);
        let er = url_encode_ascii(rest);
        let head = url_encode_byte(x);
        assert(url_encode_bytes(b) == head + url_encode_bytes(rest));
        if is_unreserved(x) {
            assert(e =~= seq![x] + er);
            assert(e[0] == x);
            assert(e.drop_first() =~= er);
            assert(seq![x] + rest =~= b);
        } else {
            let h = (x / 16) as nat;
            let l = (x % 16) as nat;
            let hb = (hex_upper_char(h) as u32) as u8;
            let lb = (hex_upper_char(l) as u32) as u8;
            assert(e =~= seq![37u8, hex_upper_char(h) as u8, hex_upper_char(l) as u8] + er);
            assert(hex_value(hex_upper_char(h) as u8) == Some(h as u8));
            assert(hex_value(hex_upper_char(l) as u8) == Some(l as u8));
            assert(e.skip(3) =~= er);
            assert(((h as u8) * 16 + (l as u8)) as u8 == x);
            assert(seq![x] + rest =~= b);
        }
    }
}

/// A file name encoded for a `Content-Disposition` header decodes, with the
/// decoding of request targets, back to the same name.
pub proof fn lemma_url_encode_round_trip(s: Seq<char>)
    ensures
        percent_decode_spec(url_encode_bytes(encode_utf8(s))) == Some(s),
{
    let b = encode_utf8(s);
    let cs = url_encode_bytes(b);
    lemma_url_encode_ascii(b);
    is_ascii_chars_encode_utf8(cs);
    assert(encode_utf8(cs) =~= url_encode_ascii(b));
    lemma_decode_encoded_bytes(b);
    encode_utf8_valid_utf8(s);
    encode_utf8_decode_utf8(s);
}

// ---------------------------------------------------------------------------
// MIME types
// ---------------------------------------------------------------------------
/// The content type for a lower-case file extension.
pub open spec fn mime_spec(e: Seq<char>) -> Seq<char> {
    if e == "html"@ || e == "htm"@ {
        "text/html; charset=utf-8"@
    } else if e == "css"@ {
        "text/css; charset=utf-8"@
    } else if e == "js"@ || e == "mjs"@ {
        "application/javascript; charset=utf-8"@
    } else if e == "json"@ || e == "webmanifest"@ {
        "application/json; charset=utf-8"@
    } else if e == "xml"@ {
        "application/xml; charset=utf-8"@
    } else if e == "txt"@ || e == "md"@ || e == "log"@ || e == "csv"@ {
        "text/plain; charset=utf-8"@
    } else if e == "png"@ {
        "image/png"@
    } else if e == "jpg"@ || e == "jpeg"@ {
        "image/jpeg"@
    } else if e == "gif"@ {
        "image/gif"@
    } else if e == "webp"@ {
        "image/webp"@
    } else if e == "avif"@ {
        "image/avif"@
    } else if e == "bmp"@ {
        "image/bmp"@
    } else if e == "ico"@ {
        "image/x-icon"@
    } else if e == "svg"@ {
        "image/svg+xml"@
    } else if e == "pdf"@ {
        "application/pdf"@
    } else if e == "zip"@ {
        "application/zip"@
    } else if e == "wasm"@ {
        "application/wasm"@
    } else if e == "woff"@ {
        "font/woff"@
    } else if e == "woff2"@ {
        "font/woff2"@
    } else if e == "ttf"@ {
        "font/ttf"@
    } else if e == "otf"@ {
        "font/otf"@
    } else if e == "eot"@ {
        "application/vnd.ms-fontobject"@
    } else if e == "mp3"@ {
        "audio/mpeg"@
    } else if e == "mp4"@ {
        "video/mp4"@
    } else if e == "webm"@ {
        "video/webm"@
    } else {
        "application/octet-stream"@
    }
}

fn is(e: &Vec<char>, lit: &str) -> (b: bool)
    ensures
        b == (e@ == lit@),
{
    let w = chars_of(lit);
    let r = range_eq(e, 0, e.len(), &w);
    assert(e@.subrange(0, e.len() as int) =~= e@);
    r
}

/// The content type for a file extension, compared without regard to ASCII
/// case (`None` when the path has no extension).
pub fn mime_for_extension(ext: Option<&str>) -> (r: &'static str)
    ensures
        r@ == mime_spec(
            match ext {
                Some(x) => lower_seq(x@),
                None => Seq::<char>::empty(),
            },
        ),
{
    let e: Vec<char> = match ext {
        Some(x) => {
            let v = chars_of(x);
            let l = lower_range(&v, 0, v.len());
            assert(v@.subrange(0, v.len() as int) =~= v@);
            l
        },
        None => Vec::new(),
    };
    if is(&e, "html") || is(&e, "htm") {
        "text/html; charset=utf-8"
    } else if is(&e, "css") {
        "text/css; charset=utf-8"
    } else if is(&e, "js") || is(&e, "mjs") {
        "application/javascript; charset=utf-8"
    } else if is(&e, "json") || is(&e, "webmanifest") {
        "application/json; charset=utf-8"
    } else if is(&e, "xml") {
        "application/xml; charset=utf-8"
    } else if is(&e, "txt") || is(&e, "md") || is(&e, "log") || is(&e, "csv") {
        "text/plain; charset=utf-8"
    } else if is(&e, "png") {
        "image/png"
    } else if is(&e, "jpg") || is(&e, "jpeg") {
        "image/jpeg"
    } else if is(&e, "gif") {
        "image/gif"
    } else if is(&e, "webp") {
        "image/webp"
    } else if is(&e, "avif") {
        "image/avif"
    } else if is(&e, "bmp") {
        "image/bmp"
    } else if is(&e, "ico") {
        "image/x-icon"
    } else if is(&e, "svg") {
        "image/svg+xml"
    } else if is(&e, "pdf") {
        "application/pdf"
    } else if is(&e, "zip") {
        "application/zip"
    } else if is(&e, "wasm") {
        "application/wasm"
    } else if is(&e, "woff") {
        "font/woff"
    } else if is(&e, "woff2") {
        "font/woff2"
    } else if is(&e, "ttf") {
        "font/ttf"
    } else if is(&e, "otf") {
        "font/otf"
    } else if is(&e, "eot") {
        "application/vnd.ms-fontobject"
    } else if is(&e, "mp3") {
        "audio/mpeg"
    } else if is(&e, "mp4") {
        "video/mp4"
    } else if is(&e, "webm") {
        "video/webm"
    } else {
        "application/octet-stream"
    }
}

/// The content type of every extension of the table, in any ASCII case, is
/// the one the table lists for it; every other extension is sent as
/// `application/octet-stream`.
pub proof fn lemma_mime_table(ext: Seq<char>)
    ensures
        lower_seq(ext) == "html"@ ==> mime_spec(lower_seq(ext)) == "text/html; charset=utf-8"@,
        lower_seq(ext) == "htm"@ ==> mime_spec(lower_seq(ext)) == "text/html; charset=utf-8"@,
        lower_seq(ext) == "css"@ ==> mime_spec(lower_seq(ext)) == "text/css; charset=utf-8"@,
        lower_seq(ext) == "js"@ ==> mime_spec(lower_seq(ext)) == "application/javascript; charset=utf-8"@,
        lower_seq(ext) == "mjs"@ ==> mime_spec(lower_seq(ext)) == "application/javascript; charset=utf-8"@,
        lower_seq(ext) == "json"@ ==> mime_spec(lower_seq(ext)) == "application/json; charset=utf-8"@,
        lower_seq(ext) == "webmanifest"@ ==> mime_spec(lower_seq(ext)) == "application/json; charset=utf-8"@,
        lower_seq(ext) == "xml"@ ==> mime_spec(lower_seq(ext)) == "application/xml; charset=utf-8"@,
        lower_seq(ext) == "txt"@ ==> mime_spec(lower_seq(ext)) == "text/plain; charset=utf-8"@,
        lower_seq(ext) == "md"@ ==> mime_spec(lower_seq(ext)) == "text/plain; charset=utf-8"@,
        lower_seq(ext) == "log"@ ==> mime_spec(lower_seq(ext)) == "text/plain; charset=utf-8"@,
        lower_seq(ext) == "csv"@ ==> mime_spec(lower_seq(ext)) == "text/plain; charset=utf-8"@,
        lower_seq(ext) == "png"@ ==> mime_spec(lower_seq(ext)) == "image/png"@,
        lower_seq(ext) == "jpg"@ ==> mime_spec(lower_seq(ext)) == "image/jpeg"@,
        lower_seq(ext) == "jpeg"@ ==> mime_spec(lower_seq(ext)) == "image/jpeg"@,
        lower_seq(ext) == "gif"@ ==> mime_spec(lower_seq(ext)) == "image/gif"@,
        lower_seq(ext) == "webp"@ ==> mime_spec(lower_seq(ext)) == "image/webp"@,
        lower_seq(ext) == "avif"@ ==> mime_spec(lower_seq(ext)) == "image/avif"@,
        lower_seq(ext) == "bmp"@ ==> mime_spec(lower_seq(ext)) == "image/bmp"@,
        lower_seq(ext) == "ico"@ ==> mime_spec(lower_seq(ext)) == "image/x-icon"@,
        lower_seq(ext) == "svg"@ ==> mime_spec(lower_seq(ext)) == "image/svg+xml"@,
        lower_seq(ext) == "pdf"@ ==> mime_spec(lower_seq(ext)) == "application/pdf"@,
        lower_seq(ext) == "zip"@ ==> mime_spec(lower_seq(ext)) == "application/zip"@,
        lower_seq(ext) == "wasm"@ ==> mime_spec(lower_seq(ext)) == "application/wasm"@,
        lower_seq(ext) == "woff"@ ==> mime_spec(lower_seq(ext)) == "font/woff"@,
        lower_seq(ext) == "woff2"@ ==> mime_spec(lower_seq(ext)) == "font/woff2"@,
        lower_seq(ext) == "ttf"@ ==> mime_spec(lower_seq(ext)) == "font/ttf"@,
        lower_seq(ext) == "otf"@ ==> mime_spec(lower_seq(ext)) == "font/otf"@,
        lower_seq(ext) == "eot"@ ==> mime_spec(lower_seq(ext)) == "application/vnd.ms-fontobject"@,
        lower_seq(ext) == "mp3"@ ==> mime_spec(lower_seq(ext)) == "audio/mpeg"@,
        lower_seq(ext) == "mp4"@ ==> mime_spec(lower_seq(ext)) == "video/mp4"@,
        lower_seq(ext) == "webm"@ ==> mime_spec(lower_seq(ext)) == "video/webm"@,
        lower_seq(ext) != "html"@ && lower_seq(ext) != "htm"@ && lower_seq(ext) != "css"@ && lower_seq(ext) != "js"@ && lower_seq(ext) != "mjs"@ && lower_seq(ext) != "json"@ && lower_seq(ext) != "webmanifest"@ && lower_seq(ext) != "xml"@ && lower_seq(ext) != "txt"@ && lower_seq(ext) != "md"@ && lower_seq(ext) != "log"@ && lower_seq(ext) != "csv"@ && lower_seq(ext) != "png"@ && lower_seq(ext) != "jpg"@ && lower_seq(ext) != "jpeg"@ && lower_seq(ext) != "gif"@ && lower_seq(ext) != "webp"@ && lower_seq(ext) != "avif"@ && lower_seq(ext) != "bmp"@ && lower_seq(ext) != "ico"@ && lower_seq(ext) != "svg"@ && lower_seq(ext) != "pdf"@ && lower_seq(ext) != "zip"@ && lower_seq(ext) != "wasm"@ && lower_seq(ext) != "woff"@ && lower_seq(ext) != "woff2"@ && lower_seq(ext) != "ttf"@ && lower_seq(ext) != "otf"@ && lower_seq(ext) != "eot"@ && lower_seq(ext) != "mp3"@ && lower_seq(ext) != "mp4"@ && lower_seq(ext) != "webm"@ ==> mime_spec(lower_seq(ext)) == "application/octet-stream"@,
{
    reveal_strlit("html");
    reveal_strlit("text/html; charset=utf-8");
    reveal_strlit("htm");
    reveal_strlit("css");
    reveal_strlit("text/css; charset=utf-8");
    reveal_strlit("js");
    reveal_strlit("application/javascript; charset=utf-8");
    reveal_strlit("mjs");
    reveal_strlit("json");
    reveal_strlit("application/json; charset=utf-8");
    reveal_strlit("webmanifest");
    reveal_strlit("xml");
    reveal_strlit("application/xml; charset=utf-8");
    reveal_strlit("txt");
    reveal_strlit("text/plain; charset=utf-8");
    reveal_strlit("md");
    reveal_strlit("log");
    reveal_strlit("csv");
    reveal_strlit("png");
    reveal_strlit("image/png");
    reveal_strlit("jpg");
    reveal_strlit("image/jpeg");
    reveal_strlit("jpeg");
    reveal_strlit("gif");
    reveal_strlit("image/gif");
    reveal_strlit("webp");
    reveal_strlit("image/webp");
    reveal_strlit("avif");
    reveal_strlit("image/avif");
    reveal_strlit("bmp");
    reveal_strlit("image/bmp");
    reveal_strlit("ico");
    reveal_strlit("image/x-icon");
    reveal_strlit("svg");
    reveal_strlit("image/svg+xml");
    reveal_strlit("pdf");
    reveal_strlit("application/pdf");
    reveal_strlit("zip");
    reveal_strlit("application/zip");
    reveal_strlit("wasm");
    reveal_strlit("application/wasm");
    reveal_strlit("woff");
    reveal_strlit("font/woff");
    reveal_strlit("woff2");
    reveal_strlit("font/woff2");
    reveal_strlit("ttf");
    reveal_strlit("font/ttf");
    reveal_strlit("otf");
    reveal_strlit("font/otf");
    reveal_strlit("eot");
    reveal_strlit("application/vnd.ms-fontobject");
    reveal_strlit("mp3");
    reveal_strlit("audio/mpeg");
    reveal_strlit("mp4");
    reveal_strlit("video/mp4");
    reveal_strlit("webm");
    reveal_strlit("video/webm");
    reveal_strlit("application/octet-stream");
    let l = lower_seq(ext);
    if l == "html"@ {
        assert(l.len() == 4 && l[0] == 'h' && l[1] == 't' && l[2] == 'm' && l[3] == 'l');
    } else if l == "htm"@ {
        assert(l.len() == 3 && l[0] == 'h' && l[1] == 't' && l[2] == 'm');
    } else if l == "css"@ {
        assert(l.len() == 3 && l[0] == 'c' && l[1] == 's' && l[2] == 's');
    } else if l == "js"@ {
        assert(l.len() == 2 && l[0] == 'j' && l[1] == 's');
    } else if l == "mjs"@ {
        assert(l.len() == 3 && l[0] == 'm' && l[1] == 'j' && l[2] == 's');
    } else if l == "json"@ {
        assert(l.len() == 4 && l[0] == 'j' && l[1] == 's' && l[2] == 'o' && l[3] == 'n');
    } else if l == "webmanifest"@ {
        assert(l.len() == 11 && l[0] == 'w' && l[1] == 'e' && l[2] == 'b' && l[3] == 'm' && l[4] == 'a' && l[5] == 'n' && l[6] == 'i' && l[7] == 'f' && l[8] == 'e' && l[9] == 's' && l[10] == 't');
    } else if l == "xml"@ {
        assert(l.len() == 3 && l[0] == 'x' && l[1] == 'm' && l[2] == 'l');
    } else if l == "txt"@ {
        assert(l.len() == 3 && l[0] == 't' && l[1] == 'x' && l[2] == 't');
    } else if l == "md"@ {
        assert(l.len() == 2 && l[0] == 'm' && l[1] == 'd');
    } else if l == "log"@ {
        assert(l.len() == 3 && l[0] == 'l' && l[1] == 'o' && l[2] == 'g');
    } else if l == "csv"@ {
        assert(l.len() == 3 && l[0] == 'c' && l[1] == 's' && l[2] == 'v');
    } else if l == "png"@ {
        assert(l.len() == 3 && l[0] == 'p' && l[1] == 'n' && l[2] == 'g');
    } else if l == "jpg"@ {
        assert(l.len() == 3 && l[0] == 'j' && l[1] == 'p' && l[2] == 'g');
    } else if l == "jpeg"@ {
        assert(l.len() == 4 && l[0] == 'j' && l[1] == 'p' && l[2] == 'e' && l[3] == 'g');
    } else if l == "gif"@ {
        assert(l.len() == 3 && l[0] == 'g' && l[1] == 'i' && l[2] == 'f');
    } else if l == "webp"@ {
        assert(l.len() == 4 && l[0] == 'w' && l[1] == 'e' && l[2] == 'b' && l[3] == 'p');
    } else if l == "avif"@ {
        assert(l.len() == 4 && l[0] == 'a' && l[1] == 'v' && l[2] == 'i' && l[3] == 'f');
    } else if l == "bmp"@ {
        assert(l.len() == 3 && l[0] == 'b' && l[1] == 'm' && l[2] == 'p');
    } else if l == "ico"@ {
        assert(l.len() == 3 && l[0] == 'i' && l[1] == 'c' && l[2] == 'o');
    } else if l == "svg"@ {
        assert(l.len() == 3 && l[0] == 's' && l[1] == 'v' && l[2] == 'g');
    } else if l == "pdf"@ {
        assert(l.len() == 3 && l[0] == 'p' && l[1] == 'd' && l[2] == 'f');
    } else if l == "zip"@ {
        assert(l.len() == 3 && l[0] == 'z' && l[1] == 'i' && l[2] == 'p');
    } else if l == "wasm"@ {
        assert(l.len() == 4 && l[0] == 'w' && l[1] == 'a' && l[2] == 's' && l[3] == 'm');
    } else if l == "woff"@ {
        assert(l.len() == 4 && l[0] == 'w' && l[1] == 'o' && l[2] == 'f' && l[3] == 'f');
    } else if l == "woff2"@ {
        assert(l.len() == 5 && l[0] == 'w' && l[1] == 'o' && l[2] == 'f' && l[3] == 'f' && l[4] == '2');
    } else if l == "ttf"@ {
        assert(l.len() == 3 && l[0] == 't' && l[1] == 't' && l[2] == 'f');
    } else if l == "otf"@ {
        assert(l.len() == 3 && l[0] == 'o' && l[1] == 't' && l[2] == 'f');
    } else if l == "eot"@ {
        assert(l.len() == 3 && l[0] == 'e' && l[1] == 'o' && l[2] == 't');
    } else if l == "mp3"@ {
        assert(l.len() == 3 && l[0] == 'm' && l[1] == 'p' && l[2] == '3');
    } else if l == "mp4"@ {
        assert(l.len() == 3 && l[0] == 'm' && l[1] == 'p' && l[2] == '4');
    } else if l == "webm"@ {
        assert(l.len() == 4 && l[0] == 'w' && l[1] == 'e' && l[2] == 'b' && l[3] == 'm');
    }
}

/// The MIME type of the file at `path`, by the extension `std::path` finds
/// in its last component.
pub fn mime_for_path(path: &str) -> (r: &'static str)
    ensures
        crate::paths::simple_path(path@) ==> r@ == mime_spec(
            match crate::paths::ext_spec(crate::paths::file_name_spec(path@)) {
                Some(x) => lower_seq(x),
                None => Seq::<char>::empty(),
            },
        ),
{
    let ext = crate::paths::path_extension(path);
    match &ext {
        Some(x) => mime_for_extension(Some(x.as_str())),
        None => mime_for_extension(None),
    }
}


// ---------------------------------------------------------------------------
// Response headers
// ---------------------------------------------------------------------------
/// The `Content-Disposition` line, present only for downloads.
pub open spec fn disposition_spec(display: Seq<char>, attachment: bool) -> Seq<char> {
    if attachment {
        "Content-Disposition: attachment; filename*=UTF-8''"@ + url_encode_bytes(
            encode_utf8(display),
        ) + "\r\n"@
    } else {
        Seq::<char>::empty()
    }
}

/// The header of a complete (200) file response.
pub open spec fn file_header_spec(
    mime: Seq<char>,
    len: u64,
    display: Seq<char>,
    attachment: bool,
) -> Seq<char> {
    "HTTP/1.1 200 OK\r\n"@ + "Content-Type: "@ + mime + "\r\n"@ + "Content-Length: "@ + dec(
        len as nat,
    ) + "\r\n"@ + disposition_spec(display, attachment) + "Accept-Ranges: bytes\r\n"@
        + "Connection: close\r\n"@ + "\r\n"@
}

/// The header of a partial (206) file response for bytes `start..=end` of
/// `total`, `len` of them.
pub open spec fn partial_header_spec(
    mime: Seq<char>,
    len: u64,
    display: Seq<char>,
    start: u64,
    end: u64,
    total: u64,
    attachment: bool,
) -> Seq<char> {
    "HTTP/1.1 206 Partial Content\r\n"@ + "Content-Type: "@ + mime + "\r\n"@
        + "Content-Length: "@ + dec(len as nat) + "\r\n"@ + "Content-Range: bytes "@ + dec(
        start as nat,
    ) + "-"@ + dec(end as nat) + "/"@ + dec(total as nat) + "\r\n"@ + disposition_spec(
        display,
        attachment,
    ) + "Accept-Ranges: bytes\r\n"@ + "Connection: close\r\n"@ + "\r\n"@
}

fn push_disposition(out: &mut String, display: &str, attachment: bool)
    ensures
        final(out)@ == old(out)@ + disposition_spec(display@, attachment),
{
    if attachment {
        out.append("Content-Disposition: attachment; filename*=UTF-8''");
        push_url_encoded(out, display);
        out.append("\r\n");
    }
    assert(out@ =~= old(out)@ + disposition_spec(display@, attachment));
}

/// The header of a complete file response as bytes.
pub fn build_file_header(mime: &str, len: u64, display: &str, attachment: bool) -> (r: Vec<u8>)
    ensures
        r@ == encode_utf8(file_header_spec(mime@, len, display@, attachment)),
{
    let mut out = String::new();
    out.append("HTTP/1.1 200 OK\r\n");
    out.append("Content-Type: ");
    out.append(mime);
    out.append("\r\n");
    out.append("Content-Length: ");
    push_dec(&mut out, len);
    out.append("\r\n");
    push_disposition(&mut out, display, attachment);
    out.append("Accept-Ranges: bytes\r\n");
    out.append("Connection: close\r\n");
    out.append("\r\n");
    assert(out@ =~= file_header_spec(mime@, len, display@, attachment));
    out.as_str().as_bytes_vec()
}

/// The header of a partial file response as bytes.
pub fn build_partial_header(
    mime: &str,
    len: u64,
    display: &str,
    start: u64,
    end: u64,
    total: u64,
    attachment: bool,
) -> (r: Vec<u8>)
    ensures
        r@ == encode_utf8(
            partial_header_spec(mime@, len, display@, start, end, total, attachment),
        ),
{
    let mut out = String::new();
    out.append("HTTP/1.1 206 Partial Content\r\n");
    out.append("Content-Type: ");
    out.append(mime);
    out.append("\r\n");
    out.append("Content-Length: ");
    push_dec(&mut out, len);
    out.append("\r\n");
    out.append("Content-Range: bytes ");
    push_dec(&mut out, start);
    out.append("-");
    push_dec(&mut out, end);
    out.append("/");
    push_dec(&mut out, total);
    out.append("\r\n");
    push_disposition(&mut out, display, attachment);
    out.append("Accept-Ranges: bytes\r\n");
    out.append("Connection: close\r\n");
    out.append("\r\n");
    assert(out@ =~= partial_header_spec(mime@, len, display@, start, end, total, attachment));
    out.as_str().as_bytes_vec()
}

// ---------------------------------------------------------------------------
// Complete small responses
// ---------------------------------------------------------------------------
/// The bytes of an HTML page response with status `code`.
pub open spec fn html_full_spec(code: u16, body: Seq<char>) -> Seq<u8> {
    encode_utf8(
        "HTTP/1.1 "@ + dec(code as nat)
            + " OK\r\nContent-Type: text/html; charset=utf-8\r\nContent-Length: "@ + dec(
            encode_utf8(body).len(),
        ) + "\r\nCache-Control: no-store\r\nConnection: close\r\n\r\n"@,
    ) + encode_utf8(body)
}

/// The bytes of an error page response for `code reason` with `msg`.
pub open spec fn error_full_spec(code: u16, reason: Seq<char>, msg: Seq<char>) -> Seq<u8> {
    let body = render_error_spec(code, reason, msg);
    encode_utf8(
        "HTTP/1.1 "@ + dec(code as nat) + " "@ + reason
            + "\r\nContent-Type: text/html; charset=utf-8\r\nContent-Length: "@ + dec(
            encode_utf8(body).len(),
        ) + "\r\nConnection: close\r\n\r\n"@,
    ) + encode_utf8(body)
}

/// Header bytes followed by the body's bytes.
fn join_bytes(header: &String, body: &str) -> (r: Vec<u8>)
    ensures
        r@ == encode_utf8(header@) + encode_utf8(body@),
{
    let mut bytes = header.as_str().as_bytes_vec();
    let mut tail = body.as_bytes_vec();
    bytes.append(&mut tail);
    bytes
}

/// A complete HTML response with status `code` (its reason phrase is
/// always `OK`, whatever the code).
pub fn html_full(code: u16, body: &str) -> (r: Vec<u8>)
    ensures
        r@ == html_full_spec(code, body@),
{
    let mut header = String::new();
    header.append("HTTP/1.1 ");
    push_dec(&mut header, code as u64);
    header.append(" OK\r\nContent-Type: text/html; charset=utf-8\r\nContent-Length: ");
    push_dec(&mut header, body.as_bytes().len() as u64);
    header.append("\r\nCache-Control: no-store\r\nConnection: close\r\n\r\n");
    let r = join_bytes(&header, body);
    assert(r@ =~= html_full_spec(code, body@));
    r
}

/// A complete error page response.
pub fn error_full(code: u16, reason: &str, msg: &str) -> (r: Vec<u8>)
    ensures
        r@ == error_full_spec(code, reason@, msg@),
{
    let body = render_error(code, reason, msg);
    let mut header = String::new();
    header.append("HTTP/1.1 ");
    push_dec(&mut header, code as u64);
    header.append(" ");
    header.append(reason);
    header.append("\r\nContent-Type: text/html; charset=utf-8\r\nContent-Length: ");
    push_dec(&mut header, body.as_str().as_bytes().len() as u64);
    header.append("\r\nConnection: close\r\n\r\n");
    let r = join_bytes(&header, body.as_str());
    assert(r@ =~= error_full_spec(code, reason@, msg@));
    r
}

/// The error page response for a failure.
pub fn failure_response(f: Failure) -> (r: Vec<u8>)
    ensures
        r@ == error_full_spec(f.code, f.reason@, f.message@),
{
    error_full(f.code, f.reason, f.message)
}

// ---------------------------------------------------------------------------
// JSON replies of the upload endpoint
// ---------------------------------------------------------------------------
/// The JSON escape of one character, as serde_json writes it.
pub open spec fn json_escape_char(c: char) -> Seq<char> {
    if c == '"' {
        seq!['\\', '"']
    } else if c == '\\' {
        seq!['\\', '\\']
    } else if c == '\u{8}' {
        seq!['\\', 'b']
    } else if c == '\t' {
        seq!['\\', 't']
    } else if c == '\n' {
        seq!['\\', 'n']
    } else if c == '\u{c}' {
        seq!['\\', 'f']
    } else if c == '\r' {
        seq!['\\', 'r']
    } else if (c as u32) < 0x20 {
        seq![
            '\\',
            'u',
            '0',
            '0',
            crate::text::hex_lower_char(((c as u32) / 16) as nat),
            crate::text::hex_lower_char(((c as u32) % 16) as nat),
        ]
    } else {
        seq![c]
    }
}

/// The escaped contents of a JSON string.
pub open spec fn json_escape(s: Seq<char>) -> Seq<char>
    decreases s.len(),
{
    if s.len() == 0 {
        Seq::<char>::empty()
    } else {
        json_escape(s.drop_last()) + json_escape_char(s.last())
    }
}

/// `s` as a JSON string literal.
pub open spec fn json_quoted(s: Seq<char>) -> Seq<char> {
    seq!['"'] + json_escape(s) + seq!['"']
}

#[verifier::external_type_specification]
#[verifier::external_body]
pub struct ExJsonError(serde_json::Error);

/// `serde_json::to_string` on a string slice: the string as a JSON literal.
/// Serializing a `str` into serde_json's in-memory writer cannot fail (the
/// `Vec<u8>` writer never reports an I/O error), so the result is `Ok`; its
/// text is the quoted string with `"`, `\\` and the control characters below
/// U+0020 escaped as serde_json's escape table does.
#[verifier::external_body]
fn json_string(s: &str) -> (r: Result<String, serde_json::Error>)
    ensures
        r is Ok,
        r is Ok ==> r->Ok_0@ == json_quoted(s@),
{
    serde_json::to_string(s)
}

/// The reason phrase the upload endpoint gives a status code.
pub open spec fn json_reason(code: u16) -> Seq<char> {
    if code == 200 {
        "OK"@
    } else if code == 400 {
        "Bad Request"@
    } else if code == 403 {
        "Forbidden"@
    } else if code == 404 {
        "Not Found"@
    } else if code == 411 {
        "Length Required"@
    } else if code == 415 {
        "Unsupported Media Type"@
    } else if code == 500 {
        "Internal Server Error"@
    } else {
        "Error"@
    }
}

/// The JSON document `{"message": message, "ok": ok}` (serde_json writes
/// the keys of an object in sorted order).
pub open spec fn json_payload(ok: bool, message: Seq<char>) -> Seq<char> {
    "{\"message\":"@ + json_quoted(message) + ",\"ok\":"@ + (if ok {
        "true"@
    } else {
        "false"@
    }) + "}"@
}

/// The bytes of a JSON reply of the upload endpoint.
pub open spec fn json_full_spec(code: u16, ok: bool, message: Seq<char>) -> Seq<u8> {
    let payload = json_payload(ok, message);
    encode_utf8(
        "HTTP/1.1 "@ + dec(code as nat) + " "@ + json_reason(code)
            + "\r\nContent-Type: application/json; charset=utf-8\r\nContent-Length: "@ + dec(
            encode_utf8(payload).len(),
        ) + "\r\nCache-Control: no-store\r\nConnection: close\r\n\r\n"@,
    ) + encode_utf8(payload)
}

fn json_reason_text(code: u16) -> (r: &'static str)
    ensures
        r@ == json_reason(code),
{
    if code == 200 {
        "OK"
    } else if code == 400 {
        "Bad Request"
    } else if code == 403 {
        "Forbidden"
    } else if code == 404 {
        "Not Found"
    } else if code == 411 {
        "Length Required"
    } else if code == 415 {
        "Unsupported Media Type"
    } else if code == 500 {
        "Internal Server Error"
    } else {
        "Error"
    }
}

/// A JSON reply `{"message": message, "ok": ok}` with status `code`.
pub fn json_full(code: u16, ok: bool, message: &str) -> (r: Vec<u8>)
    ensures
        r@ == json_full_spec(code, ok, message@),
{
    let quoted = match json_string(message) {
        Ok(q) => q,
        Err(_) => {
            return Vec::new();
        },
    };
    let mut payload = String::new();
    payload.append("{\"message\":");
    payload.append(quoted.as_str());
    payload.append(",\"ok\":");
    if ok {
        payload.append("true");
    } else {
        payload.append("false");
    }
    payload.append("}");
    assert(payload@ =~= json_payload(ok, message@));
    let mut header = String::new();
    header.append("HTTP/1.1 ");
    push_dec(&mut header, code as u64);
    header.append(" ");
    header.append(json_reason_text(code));
    header.append("\r\nContent-Type: application/json; charset=utf-8\r\nContent-Length: ");
    push_dec(&mut header, payload.as_str().as_bytes().len() as u64);
    header.append("\r\nCache-Control: no-store\r\nConnection: close\r\n\r\n");
    let r = join_bytes(&header, payload.as_str());
    assert(r@ =~= json_full_spec(code, ok, message@));
    r
}

// ---------------------------------------------------------------------------
// Range requests
// ---------------------------------------------------------------------------
/// What a `Range` header asks for.
#[derive(Clone, Copy, Debug, PartialEq, Eq, Structural)]
pub enum RangeRequest {
    /// No usable range: send the whole file.
    Whole,
    /// Bytes from the first offset to the optional last one, inclusive.
    Bytes(u64, Option<u64>),
    /// A range that lies outside the file.
    Unsatisfiable,
}

/// The meaning of the `Range` header `header` for a file of `total` bytes.
/// Only the first range of a list is honoured; anything malformed means the
/// whole file.
pub open spec fn range_spec(header: Option<Seq<char>>, total: u64) -> RangeRequest {
    match header {
        None => RangeRequest::Whole,
        Some(raw) => {
            let h = trim_seq(raw);
            if !has_prefix(lower_seq(h), "bytes="@) {
                RangeRequest::Whole
            } else {
                let spec_part = trim_seq(before_first(h.skip("bytes="@.len() as int), ','));
                match split_once_seq(spec_part, '-') {
                    None => RangeRequest::Whole,
                    Some((a, b)) => {
                        let a = trim_seq(a);
                        let b = trim_seq(b);
                        if a.len() == 0 {
                            match parse_u64_spec(b) {
                                None => RangeRequest::Whole,
                                Some(n) => if n == 0 || total == 0 {
                                    RangeRequest::Unsatisfiable
                                } else {
                                    RangeRequest::Bytes(
                                        if n >= total {
                                            0
                                        } else {
                                            (total - n) as u64
                                        },
                                        Some((total - 1) as u64),
                                    )
                                },
                            }
                        } else {
                            match parse_u64_spec(a) {
                                None => RangeRequest::Whole,
                                Some(start) => if total == 0 || start >= total {
                                    RangeRequest::Unsatisfiable
                                } else if b.len() == 0 {
                                    RangeRequest::Bytes(start, None)
                                } else {
                                    match parse_u64_spec(b) {
                                        None => RangeRequest::Whole,
                                        Some(end) => if end < start {
                                            RangeRequest::Whole
                                        } else {
                                            RangeRequest::Bytes(
                                                start,
                                                Some(
                                                    if end < total - 1 {
                                                        end
                                                    } else {
                                                        (total - 1) as u64
                                                    },
                                                ),
                                            )
                                        },
                                    }
                                },
                            }
                        }
                    },
                }
            }
        },
    }
}

/// The view of an optional string slice.
pub open spec fn opt_view(s: Option<&str>) -> Option<Seq<char>> {
    match s {
        Some(x) => Some(x@),
        None => None,
    }
}

/// Interprets a `Range` header for a file of `total` bytes. A range that is
/// returned always lies inside the file.
pub fn parse_range_header(header: Option<&str>, total: u64) -> (r: RangeRequest)
    ensures
        r == range_spec(opt_view(header), total),
        r matches RangeRequest::Bytes(start, end) ==> start < total && match end {
            Some(e) => start <= e < total,
            None => true,
        },
{
    let raw = match header {
        None => {
            return RangeRequest::Whole;
        },
        Some(h) => h,
    };
    let v = chars_of(raw);
    let ghost h = trim_seq(raw@);
    let (lo, hi) = trim_range(&v, 0, v.len());
    assert(v@.subrange(0, v.len() as int) =~= raw@);
    assert(v@.subrange(lo as int, hi as int) == h);
    let w = chars_of("bytes=");
    if hi - lo < w.len() {
        assert(!has_prefix(lower_seq(h), "bytes="@));
        return RangeRequest::Whole;
    }
    let lowered = lower_range(&v, lo, lo + w.len());
    assert(lower_seq(h).take(w.len() as int) =~= lowered@);
    if !range_eq(&lowered, 0, lowered.len(), &w) {
        assert(lowered@.subrange(0, lowered.len() as int) =~= lowered@);
        return RangeRequest::Whole;
    }
    assert(lowered@.subrange(0, lowered.len() as int) =~= lowered@);
    let p0 = lo + w.len();
    assert(h.skip(w.len() as int) =~= v@.subrange(p0 as int, hi as int));
    let end0 = match split_once_at(&v, p0, hi, ',') {
        Some(c) => c,
        None => hi,
    };
    assert(v@.subrange(p0 as int, end0 as int) == before_first(h.skip(w.len() as int), ','));
    let (s_lo, s_hi) = trim_range(&v, p0, end0);
    let dash = match split_once_at(&v, s_lo, s_hi, '-') {
        None => {
            return RangeRequest::Whole;
        },
        Some(d) => d,
    };
    let (a_lo, a_hi) = trim_range(&v, s_lo, dash);
    let (b_lo, b_hi) = trim_range(&v, dash + 1, s_hi);
    if a_lo == a_hi {
        let suffix = match parse_u64_range(&v, b_lo, b_hi) {
            None => {
                return RangeRequest::Whole;
            },
            Some(n) => n,
        };
        if suffix == 0 || total == 0 {
            return RangeRequest::Unsatisfiable;
        }
        let start = total.saturating_sub(suffix);
        return RangeRequest::Bytes(start, Some(total - 1));
    }
    let start = match parse_u64_range(&v, a_lo, a_hi) {
        None => {
            return RangeRequest::Whole;
        },
        Some(n) => n,
    };
    if total == 0 || start >= total {
        return RangeRequest::Unsatisfiable;
    }
    if b_lo == b_hi {
        return RangeRequest::Bytes(start, None);
    }
    let end = match parse_u64_range(&v, b_lo, b_hi) {
        None => {
            return RangeRequest::Whole;
        },
        Some(n) => n,
    };
    if end < start {
        return RangeRequest::Whole;
    }
    let last = if end < total - 1 {
        end
    } else {
        total - 1
    };
    RangeRequest::Bytes(start, Some(last))
}

// ---------------------------------------------------------------------------
// File responses
// ---------------------------------------------------------------------------
/// How a file is answered: a complete small response, or a header followed
/// by `length` bytes of the file from offset `start`.
#[derive(Debug)]
pub enum FilePlan {
    Full(Vec<u8>),
    Stream { header: Vec<u8>, start: u64, length: u64 },
}

/// The 416 response for a file of `len` bytes.
pub open spec fn unsatisfiable_spec(len: u64) -> Seq<u8> {
    let body = render_error_spec(416, "Range Not Satisfiable"@, "请求的范围无效"@);
    encode_utf8(
        "HTTP/1.1 416 Range Not Satisfiable\r\nContent-Range: bytes */"@ + dec(len as nat)
            + "\r\nContent-Type: text/html; charset=utf-8\r\nContent-Length: "@ + dec(
            encode_utf8(body).len(),
        ) + "\r\nConnection: close\r\n\r\n"@,
    ) + encode_utf8(body)
}

/// Whether `p` is the plan for serving a file of `len` bytes of type `mime`
/// under the name `display` with the `Range` header `range`; `attachment`
/// asks the browser to download rather than display it.
pub open spec fn file_plan_spec(
    p: FilePlan,
    len: u64,
    mime: Seq<char>,
    display: Seq<char>,
    range: Option<Seq<char>>,
    attachment: bool,
) -> bool {
    match range_spec(range, len) {
        RangeRequest::Whole => p matches FilePlan::Stream { header, start, length } && header@
            == encode_utf8(file_header_spec(mime, len, display, attachment)) && start == 0
            && length == len,
        RangeRequest::Unsatisfiable => p matches FilePlan::Full(bytes) && bytes@
            == unsatisfiable_spec(len),
        RangeRequest::Bytes(s, e) => {
            let end: u64 = match e {
                Some(x) => x,
                None => (len - 1) as u64,
            };
            let n = (end - s + 1) as u64;
            p matches FilePlan::Stream { header, start, length } && header@ == encode_utf8(
                partial_header_spec(mime, n, display, s, end, len, attachment),
            ) && start == s && length == n
        },
    }
}

/// What a `Range` header asks for lies inside the file: the first byte is
/// before its end, and so is the last one when given.
pub proof fn lemma_range_inside(header: Option<Seq<char>>, total: u64)
    ensures
        range_spec(header, total) matches RangeRequest::Bytes(start, end) ==> start < total
            && match end {
            Some(e) => start <= e < total,
            None => true,
        },
{
}

/// A planned file response never reads past the end of the file.
pub proof fn lemma_plan_stays_in_file(
    p: FilePlan,
    len: u64,
    mime: Seq<char>,
    display: Seq<char>,
    range: Option<Seq<char>>,
    attachment: bool,
)
    requires
        file_plan_spec(p, len, mime, display, range, attachment),
    ensures
        p matches FilePlan::Stream { start, length, .. } ==> start + length <= len,
{
    lemma_range_inside(range, len);
}

/// A text whose first and last characters are not whitespace is its own
/// trim.
proof fn lemma_trim_unpadded(s: Seq<char>)
    requires
        s.len() > 0,
        !is_ws(s[0]),
        !is_ws(s.last()),
    ensures
        trim_seq(s) == s,
{
    assert(trim_start_seq(s) == s);
}

/// A text of decimal digits, possibly empty, is its own trim.
proof fn lemma_trim_digits(s: Seq<char>)
    requires
        all_digits(s),
    ensures
        trim_seq(s) == s,
{
    if s.len() > 0 {
        assert(is_digit(s[0]));
        assert(is_digit(s.last()));
        lemma_trim_unpadded(s);
    } else {
        assert(trim_start_seq(s) == s);
    }
}

/// The decimal digits of a 64-bit number parse back as that number.
proof fn lemma_parse_dec(n: u64)
    ensures
        parse_u64_spec(dec(n as nat)) == Some(n),
{
    lemma_dec_digits(n as nat);
    assert(is_digit(dec(n as nat)[0]));
}

/// In `bytes=A-B`, with `A` and `B` runs of digits (either may be empty),
/// the range parts are `A` and `B`.
proof fn lemma_range_parts(a: Seq<char>, b: Seq<char>)
    requires
        all_digits(a),
        all_digits(b),
    ensures
        ({
            let h = trim_seq("bytes="@ + a + "-"@ + b);
            &&& has_prefix(lower_seq(h), "bytes="@)
            &&& split_once_seq(trim_seq(before_first(h.skip("bytes="@.len() as int), ',')), '-')
                == Some((a, b))
        }),
{
    reveal_strlit("bytes=");
    reveal_strlit("-");
    let raw = "bytes="@ + a + "-"@ + b;
    assert(raw[0] == 'b');
    if b.len() > 0 {
        assert(raw.last() == b.last());
        assert(is_digit(b.last()));
    } else {
        assert(raw.last() == '-');
    }
    lemma_trim_unpadded(raw);
    let h = trim_seq(raw);
    assert(lower_seq(h).take(6) =~= "bytes="@) by {
        assert(lower_char('b') == 'b');
        assert(lower_char('y') == 'y');
        assert(lower_char('t') == 't');
        assert(lower_char('e') == 'e');
        assert(lower_char('s') == 's');
        assert(lower_char('=') == '=');
    }
    let rest = h.skip(6);
    assert(rest =~= a + "-"@ + b);
    assert forall|j: int| 0 <= j < rest.len() implies rest[j] != ',' by {
        if j < a.len() {
            assert(is_digit(a[j]));
        } else if j > a.len() {
            assert(rest[j] == b[j - a.len() - 1]);
            assert(is_digit(b[j - a.len() - 1]));
        }
    }
    lemma_split_once_absent(rest, ',');
    if a.len() > 0 {
        assert(rest[0] == a[0]);
        assert(is_digit(a[0]));
    } else {
        assert(rest[0] == '-');
    }
    assert(rest.last() == raw.last());
    lemma_trim_unpadded(rest);
    assert forall|j: int| 0 <= j < a.len() implies rest[j] != '-' by {
        assert(is_digit(a[j]));
    }
    lemma_split_once_found(rest, '-', a.len() as int);
    assert(rest.take(a.len() as int) =~= a);
    assert(rest.skip(a.len() as int + 1) =~= b);
}

/// `bytes=N-` asks for everything from offset `N` on.
pub proof fn lemma_open_range_request(n: u64, total: u64)
    requires
        n < total,
    ensures
        range_spec(Some("bytes="@ + dec(n as nat) + "-"@), total) == RangeRequest::Bytes(
            n,
            None,
        ),
{
    lemma_dec_digits(n as nat);
    assert("bytes="@ + dec(n as nat) + "-"@ =~= "bytes="@ + dec(n as nat) + "-"@
        + Seq::<char>::empty());
    lemma_range_parts(dec(n as nat), Seq::<char>::empty());
    lemma_trim_digits(dec(n as nat));
    lemma_trim_digits(Seq::<char>::empty());
    lemma_parse_dec(n);
}

/// `bytes=A-B` with `A <= B` and `A` inside the file asks for bytes `A`
/// through `B`, the last byte of the file standing in for a `B` past it.
pub proof fn lemma_closed_range_request(a: u64, b: u64, total: u64)
    requires
        a <= b,
        a < total,
    ensures
        range_spec(Some("bytes="@ + dec(a as nat) + "-"@ + dec(b as nat)), total)
            == RangeRequest::Bytes(a, Some(if b < total { b } else { (total - 1) as u64 })),
{
    lemma_dec_digits(a as nat);
    lemma_dec_digits(b as nat);
    lemma_range_parts(dec(a as nat), dec(b as nat));
    lemma_trim_digits(dec(a as nat));
    lemma_trim_digits(dec(b as nat));
    lemma_parse_dec(a);
    lemma_parse_dec(b);
}

/// `bytes=-N` with `N > 0` on a non-empty file asks for its last `N` bytes,
/// or the whole file when it is shorter.
pub proof fn lemma_suffix_range_request(n: u64, total: u64)
    requires
        n > 0,
        total > 0,
    ensures
        range_spec(Some("bytes=-"@ + dec(n as nat)), total) == RangeRequest::Bytes(
            if n < total { (total - n) as u64 } else { 0 },
            Some((total - 1) as u64),
        ),
{
    reveal_strlit("bytes=-");
    reveal_strlit("bytes=");
    reveal_strlit("-");
    assert("bytes=-"@ + dec(n as nat) =~= "bytes="@ + Seq::<char>::empty() + "-"@ + dec(
        n as nat,
    ));
    lemma_dec_digits(n as nat);
    lemma_range_parts(Seq::<char>::empty(), dec(n as nat));
    lemma_trim_digits(dec(n as nat));
    lemma_trim_digits(Seq::<char>::empty());
    lemma_parse_dec(n);
}

/// A range that starts at or past the end of the file, `bytes=N-` or
/// `bytes=N-M`, cannot be satisfied.
pub proof fn lemma_range_past_end(n: u64, m: u64, total: u64)
    requires
        n >= total,
    ensures
        range_spec(Some("bytes="@ + dec(n as nat) + "-"@), total) == RangeRequest::Unsatisfiable,
        range_spec(Some("bytes="@ + dec(n as nat) + "-"@ + dec(m as nat)), total)
            == RangeRequest::Unsatisfiable,
{
    lemma_dec_digits(n as nat);
    lemma_dec_digits(m as nat);
    assert("bytes="@ + dec(n as nat) + "-"@ =~= "bytes="@ + dec(n as nat) + "-"@
        + Seq::<char>::empty());
    lemma_range_parts(dec(n as nat), Seq::<char>::empty());
    lemma_range_parts(dec(n as nat), dec(m as nat));
    lemma_trim_digits(dec(n as nat));
    lemma_trim_digits(dec(m as nat));
    lemma_trim_digits(Seq::<char>::empty());
    lemma_parse_dec(n);
}

/// A 206 header announces its length and its range in the
/// `Content-Length: len` and `Content-Range: bytes start-end/total` lines.
pub proof fn lemma_partial_header_announces(
    mime: Seq<char>,
    len: u64,
    display: Seq<char>,
    start: u64,
    end: u64,
    total: u64,
    attachment: bool,
)
    ensures
        exists|x: Seq<char>, y: Seq<char>|
            partial_header_spec(mime, len, display, start, end, total, attachment) == #[trigger] (x
                + "Content-Length: "@ + dec(len as nat) + "\r\nContent-Range: bytes "@ + dec(
                start as nat,
            ) + "-"@ + dec(end as nat) + "/"@ + dec(total as nat) + "\r\n"@ + y),
{
    let x = "HTTP/1.1 206 Partial Content\r\n"@ + "Content-Type: "@ + mime + "\r\n"@;
    let y = disposition_spec(display, attachment) + "Accept-Ranges: bytes\r\n"@
        + "Connection: close\r\n"@ + "\r\n"@;
    reveal_strlit("\r\n");
    reveal_strlit("Content-Range: bytes ");
    reveal_strlit("\r\nContent-Range: bytes ");
    assert("\r\nContent-Range: bytes "@ =~= "\r\n"@ + "Content-Range: bytes "@);
    assert(partial_header_spec(mime, len, display, start, end, total, attachment) =~= x
        + "Content-Length: "@ + dec(len as nat) + "\r\nContent-Range: bytes "@ + dec(start as nat)
        + "-"@ + dec(end as nat) + "/"@ + dec(total as nat) + "\r\n"@ + y);
}

/// Law: for a `Range: bytes=N-` on a file of `len` bytes with `N < len`,
/// the plan is a 206 that streams the rest of the file, from `N` to its last
/// byte: `len - N` bytes, announced as `Content-Length: len - N` and
/// `Content-Range: bytes N-(len-1)/len`.
pub proof fn lemma_open_range_streams_rest(
    p: FilePlan,
    len: u64,
    mime: Seq<char>,
    display: Seq<char>,
    n: u64,
    attachment: bool,
)
    requires
        n < len,
        file_plan_spec(p, len, mime, display, Some("bytes="@ + dec(n as nat) + "-"@), attachment),
    ensures
        p matches FilePlan::Stream { header, start, length } && start == n && length == len - n
            && header@ == encode_utf8(
            partial_header_spec(mime, (len - n) as u64, display, n, (len - 1) as u64, len, attachment),
        ) && exists|x: Seq<char>, y: Seq<char>|
            header@ == encode_utf8(
                #[trigger] (x + "Content-Length: "@ + dec((len - n) as nat) + "\r\nContent-Range: bytes "@
                    + dec(n as nat) + "-"@ + dec((len - 1) as nat) + "/"@ + dec(len as nat)
                    + "\r\n"@ + y),
            ),
{
    lemma_open_range_request(n, len);
    let k = (len - n) as u64;
    let e = (len - 1) as u64;
    lemma_partial_header_announces(mime, k, display, n, e, len, attachment);
    let (x, y) = choose|x: Seq<char>, y: Seq<char>|
        partial_header_spec(mime, k, display, n, e, len, attachment) == #[trigger] (x
            + "Content-Length: "@ + dec(k as nat) + "\r\nContent-Range: bytes "@ + dec(n as nat)
            + "-"@ + dec(e as nat) + "/"@ + dec(len as nat) + "\r\n"@ + y);
    assert(partial_header_spec(mime, k, display, n, e, len, attachment) == x + "Content-Length: "@
        + dec((len - n) as nat) + "\r\nContent-Range: bytes "@ + dec(n as nat) + "-"@ + dec(
        (len - 1) as nat,
    ) + "/"@ + dec(len as nat) + "\r\n"@ + y);
}

/// Law: for a `Range: bytes=A-B` with `A <= B` on a file of `len` bytes with
/// `A < len`, the plan is a 206 that streams bytes `A` through `B` (through
/// the last byte when `B` lies past it), and says so in its header.
pub proof fn lemma_closed_range_streams_part(
    p: FilePlan,
    len: u64,
    mime: Seq<char>,
    display: Seq<char>,
    a: u64,
    b: u64,
    attachment: bool,
)
    requires
        a <= b,
        a < len,
        file_plan_spec(
            p,
            len,
            mime,
            display,
            Some("bytes="@ + dec(a as nat) + "-"@ + dec(b as nat)),
            attachment,
        ),
    ensures
        ({
            let last: u64 = if b < len { b } else { (len - 1) as u64 };
            p matches FilePlan::Stream { header, start, length } && start == a && length == last
                - a + 1 && header@ == encode_utf8(
                partial_header_spec(mime, (last - a + 1) as u64, display, a, last, len, attachment),
            )
        }),
{
    lemma_closed_range_request(a, b, len);
}

/// Law: for a `Range: bytes=-N` with `N > 0` on a non-empty file of `len`
/// bytes, the plan is a 206 that streams its last `N` bytes (all of them
/// when the file is shorter), up to its last byte.
pub proof fn lemma_suffix_range_streams_tail(
    p: FilePlan,
    len: u64,
    mime: Seq<char>,
    display: Seq<char>,
    n: u64,
    attachment: bool,
)
    requires
        n > 0,
        len > 0,
        file_plan_spec(p, len, mime, display, Some("bytes=-"@ + dec(n as nat)), attachment),
    ensures
        ({
            let count: u64 = if n < len { n } else { len };
            p matches FilePlan::Stream { header, start, length } && start == len - count && length
                == count && header@ == encode_utf8(
                partial_header_spec(
                    mime,
                    count,
                    display,
                    (len - count) as u64,
                    (len - 1) as u64,
                    len,
                    attachment,
                ),
            )
        }),
{
    lemma_suffix_range_request(n, len);
}

/// Law: a range that starts at or past the end of the file, `bytes=N-` or
/// `bytes=N-M` with `N >= len`, is answered with the complete 416 response
/// and no part of the file.
pub proof fn lemma_range_past_end_refused(
    p: FilePlan,
    q: FilePlan,
    len: u64,
    mime: Seq<char>,
    display: Seq<char>,
    n: u64,
    m: u64,
    attachment: bool,
)
    requires
        n >= len,
        file_plan_spec(p, len, mime, display, Some("bytes="@ + dec(n as nat) + "-"@), attachment),
        file_plan_spec(
            q,
            len,
            mime,
            display,
            Some("bytes="@ + dec(n as nat) + "-"@ + dec(m as nat)),
            attachment,
        ),
    ensures
        p matches FilePlan::Full(bytes) && bytes@ == unsatisfiable_spec(len),
        q matches FilePlan::Full(bytes) && bytes@ == unsatisfiable_spec(len),
{
    lemma_range_past_end(n, m, len);
}

/// Plans the response for a file of `len` bytes.
pub fn plan_file_response(
    len: u64,
    mime: &str,
    display: &str,
    range: Option<&str>,
    attachment: bool,
) -> (p: FilePlan)
    ensures
        file_plan_spec(p, len, mime@, display@, opt_view(range), attachment),
{
    match parse_range_header(range, len) {
        RangeRequest::Whole => FilePlan::Stream {
            header: build_file_header(mime, len, display, attachment),
            start: 0,
            length: len,
        },
        RangeRequest::Unsatisfiable => {
            let body = render_error(416, "Range Not Satisfiable", "请求的范围无效");
            let mut header = String::new();
            header.append("HTTP/1.1 416 Range Not Satisfiable\r\nContent-Range: bytes */");
            push_dec(&mut header, len);
            header.append("\r\nContent-Type: text/html; charset=utf-8\r\nContent-Length: ");
            push_dec(&mut header, body.as_str().as_bytes().len() as u64);
            header.append("\r\nConnection: close\r\n\r\n");
            let bytes = join_bytes(&header, body.as_str());
            assert(bytes@ =~= unsatisfiable_spec(len));
            FilePlan::Full(bytes)
        },
        RangeRequest::Bytes(range_start, range_end) => {
            let end = match range_end {
                Some(e) => e,
                None => len - 1,
            };
            let range_length = end - range_start + 1;
            FilePlan::Stream {
                header: build_partial_header(
                    mime,
                    range_length,
                    display,
                    range_start,
                    end,
                    len,
                    attachment,
                ),
                start: range_start,
                length: range_length,
            }
        },
    }
}


// ---------------------------------------------------------------------------
// Request line and headers
// ---------------------------------------------------------------------------
/// The first whitespace-separated word of `s`.
pub open spec fn first_word(s: Seq<char>) -> Seq<char> {
    take_word(trim_start_seq(s))
}

/// The second whitespace-separated word of `s`.
pub open spec fn second_word(s: Seq<char>) -> Seq<char> {
    let t = trim_start_seq(s);
    first_word(t.skip(take_word(t).len() as int))
}

/// The method and target of a request line; a missing method reads as
/// `GET` and a missing target as `/`.
pub open spec fn request_line_spec(line: Seq<char>) -> (Seq<char>, Seq<char>) {
    (
        if first_word(line).len() == 0 {
            "GET"@
        } else {
            first_word(line)
        },
        if second_word(line).len() == 0 {
            "/"@
        } else {
            second_word(line)
        },
    )
}

/// Splits a request line such as `GET /s/abc HTTP/1.1` into its method and
/// target.
pub fn parse_request_line(line: &str) -> (r: (String, String))
    ensures
        r.0@ == request_line_spec(line@).0,
        r.1@ == request_line_spec(line@).1,
{
    let v = chars_of(line);
    assert(v@.subrange(0, v.len() as int) =~= line@);
    let (a, b) = word_bounds(&v, 0, v.len());
    let (c, d) = word_bounds(&v, b, v.len());
    proof {
        let t = trim_start_seq(line@);
        assert(t.skip(take_word(t).len() as int) =~= v@.subrange(b as int, v.len() as int));
    }
    let method = if a == b {
        String::from_str("GET")
    } else {
        string_from(&v, a, b)
    };
    let target = if c == d {
        String::from_str("/")
    } else {
        string_from(&v, c, d)
    };
    (method, target)
}

/// What one header line of a request means.
#[derive(Debug)]
pub enum HeaderLine {
    /// The blank line that ends the header block.
    End,
    /// A `name: value` field, both trimmed.
    Field(String, String),
    /// A line without a colon, which is skipped.
    Ignored,
}

/// Interprets one line of the header block (with or without its line end).
pub fn parse_header_line(line: &str) -> (r: HeaderLine)
    ensures
        ({
            let t = trim_end_seq(line@);
            if t.len() == 0 {
                r is End
            } else {
                match split_once_seq(t, ':') {
                    Some((k, x)) => r matches HeaderLine::Field(name, value) && name@
                        == trim_seq(k) && value@ == trim_seq(x),
                    None => r is Ignored,
                }
            }
        }),
{
    let v = chars_of(line);
    assert(v@.subrange(0, v.len() as int) =~= line@);
    let e = crate::text::skip_trailing_ws(&v, 0, v.len());
    if e == 0 {
        return HeaderLine::End;
    }
    match split_once_at(&v, 0, e, ':') {
        None => HeaderLine::Ignored,
        Some(c) => {
            let (k0, k1) = trim_range(&v, 0, c);
            let (v0, v1) = trim_range(&v, c + 1, e);
            HeaderLine::Field(string_from(&v, k0, k1), string_from(&v, v0, v1))
        },
    }
}

/// The value of the first header named `name`, compared without regard to
/// ASCII case.
pub open spec fn header_lookup(headers: Seq<(String, String)>, name: Seq<char>) -> Option<
    Seq<char>,
>
    decreases headers.len(),
{
    if headers.len() == 0 {
        None
    } else if eq_ignore_case(headers[0].0@, name) {
        Some(headers[0].1@)
    } else {
        header_lookup(headers.drop_first(), name)
    }
}

/// Looks up a request header by name, ignoring ASCII case.
pub fn header_value(headers: &[(String, String)], name: &str) -> (r: Option<String>)
    ensures
        match header_lookup(headers@, name@) {
            Some(x) => r matches Some(v) && v@ == x,
            None => r is None,
        },
{
    let mut i: usize = 0;
    assert(headers@.skip(0) =~= headers@);
    while i < headers.len()
        invariant
            i <= headers@.len(),
            header_lookup(headers@, name@) == header_lookup(headers@.skip(i as int), name@),
        decreases headers.len() - i,
    {
        let ghost rest = headers@.skip(i as int);
        assert(rest[0] == headers@[i as int]);
        if str_eq_ignore_case(headers[i].0.as_str(), name) {
            return Some(headers[i].1.clone());
        }
        assert(rest.drop_first() =~= headers@.skip(i + 1));
        i = i + 1;
    }
    None
}

// ---------------------------------------------------------------------------
// Routing
// ---------------------------------------------------------------------------
/// Where the main server sends a request.
#[derive(Debug)]
pub enum RouteTarget {
    /// The index page of all shares.
    Index,
    /// `subpath` inside the share at `index`.
    Share { index: usize, subpath: String },
    /// `subpath` inside the site at `index`.
    Site { index: usize, subpath: String },
    /// The upload page of the receive card at `index`.
    ReceivePage { index: usize, password_required: bool },
}

/// The routing decision as mathematical values.
pub enum RouteSpec {
    Index,
    Share(int, Seq<char>),
    Site(int, Seq<char>),
    ReceivePage(int, bool),
    Fail(u16, Seq<char>, Seq<char>),
}

/// Where the main server sends `method target`, given the tokens of the
/// shares, the sites and the receive cards.
pub open spec fn route_spec(
    method: Seq<char>,
    target: Seq<char>,
    share_ids: Seq<Seq<char>>,
    site_ids: Seq<Seq<char>>,
    receivers: Seq<ReceiveSession>,
) -> RouteSpec {
    match percent_decode_spec(before_first(target, '?')) {
        None => RouteSpec::Fail(400, "Bad Request"@, "无效的 URL 地址"@),
        Some(path) => if method != "GET"@ && method != "HEAD"@ {
            RouteSpec::Fail(405, "Method Not Allowed"@, "仅支持 GET / HEAD 请求"@)
        } else if path == "/"@ || path.len() == 0 {
            RouteSpec::Index
        } else {
            let trimmed = trim_start_char(path, '/');
            let first = before_first(trimmed, '/');
            let rest = after_first(trimmed, '/');
            let id = before_first(rest, '/');
            let subpath = after_first(rest, '/');
            if first == "s"@ {
                if id.len() == 0 {
                    RouteSpec::Fail(400, "Bad Request"@, "缺少分享 ID"@)
                } else {
                    match first_index(share_ids, id) {
                        None => RouteSpec::Fail(404, "Not Found"@, "分享不存在或已停止"@),
                        Some(i) => RouteSpec::Share(i, subpath),
                    }
                }
            } else if first == "w"@ {
                if id.len() == 0 {
                    RouteSpec::Fail(400, "Bad Request"@, "缺少站点 ID"@)
                } else {
                    match first_index(site_ids, id) {
                        None => RouteSpec::Fail(404, "Not Found"@, "站点不存在或已移除"@),
                        Some(i) => RouteSpec::Site(i, subpath),
                    }
                }
            } else if first == "r"@ {
                if id.len() == 0 {
                    RouteSpec::Fail(400, "Bad Request"@, "缺少接收卡片 ID"@)
                } else {
                    match first_index(keys(receivers), id) {
                        None => RouteSpec::Fail(404, "Not Found"@, "接收卡片不存在或已删除"@),
                        Some(i) => if subpath.len() > 0 {
                            RouteSpec::Fail(404, "Not Found"@, "页面不存在"@)
                        } else {
                            RouteSpec::ReceivePage(
                                i,
                                receivers[i].encryption != ReceiveEncryption::Unencrypted,
                            )
                        },
                    }
                }
            } else {
                RouteSpec::Fail(404, "Not Found"@, "页面不存在"@)
            }
        },
    }
}

/// Whether an executable routing result is the decision `s`.
pub open spec fn route_matches(r: Result<RouteTarget, Failure>, s: RouteSpec) -> bool {
    match s {
        RouteSpec::Index => r matches Ok(RouteTarget::Index),
        RouteSpec::Share(i, p) => r matches Ok(RouteTarget::Share { index, subpath }) && index
            == i && subpath@ == p,
        RouteSpec::Site(i, p) => r matches Ok(RouteTarget::Site { index, subpath }) && index == i
            && subpath@ == p,
        RouteSpec::ReceivePage(i, b) => r matches Ok(
            RouteTarget::ReceivePage { index, password_required },
        ) && index == i && password_required == b,
        RouteSpec::Fail(code, reason, message) => r matches Err(f) && is_failure(
            f,
            code,
            reason,
            message,
        ),
    }
}

fn fail(code: u16, reason: &'static str, message: &'static str) -> (r: Result<RouteTarget, Failure>)
    ensures
        r matches Err(f) && is_failure(f, code, reason@, message@),
{
    Err(Failure { code, reason, message })
}

/// The target with its query string cut off.
fn strip_query(target: &str) -> (r: String)
    ensures
        r@ == before_first(target@, '?'),
{
    let v = chars_of(target);
    assert(v@.subrange(0, v.len() as int) =~= target@);
    match split_once_at(&v, 0, v.len(), '?') {
        Some(q) => string_from(&v, 0, q),
        None => string_from(&v, 0, v.len()),
    }
}

/// Whether the method is one the server answers.
fn is_get_or_head(method: &str) -> (b: bool)
    ensures
        b == (method@ == "GET"@ || method@ == "HEAD"@),
{
    str_eq(method, "GET") || str_eq(method, "HEAD")
}

/// Routes a request of the main server: the index, a share, a site or a
/// receive card, or the failure to answer with.
pub fn route(
    method: &str,
    target: &str,
    shares: &[ShareSession],
    sites: &[SiteSession],
    receivers: &[ReceiveSession],
) -> (r: Result<RouteTarget, Failure>)
    ensures
        route_matches(r, route_spec(method@, target@, keys(shares@), keys(sites@), receivers@)),
{
    let t = strip_query(target);
    let path = match percent_decode(t.as_str()) {
        Ok(p) => p,
        Err(_) => {
            return fail(400, "Bad Request", "无效的 URL 地址");
        },
    };
    if !is_get_or_head(method) {
        return fail(405, "Method Not Allowed", "仅支持 GET / HEAD 请求");
    }
    if str_eq(path.as_str(), "/") || path.as_str().is_empty() {
        return Ok(RouteTarget::Index);
    }
    let v = chars_of(path.as_str());
    let n = v.len();
    assert(v@.subrange(0, n as int) =~= path@);
    let lo = skip_leading(&v, 0, n, '/');
    let (first_end, rest_lo) = match split_once_at(&v, lo, n, '/') {
        Some(c) => (c, c + 1),
        None => (n, n),
    };
    assert(v@.subrange(rest_lo as int, n as int) == after_first(trim_start_char(path@, '/'), '/'));
    let (id_end, sub_lo) = match split_once_at(&v, rest_lo, n, '/') {
        Some(c) => (c, c + 1),
        None => (n, n),
    };
    let ghost trimmed = trim_start_char(path@, '/');
    let ghost rest = after_first(trimmed, '/');
    assert(v@.subrange(lo as int, first_end as int) == before_first(trimmed, '/'));
    assert(v@.subrange(rest_lo as int, id_end as int) == before_first(rest, '/'));
    assert(v@.subrange(sub_lo as int, n as int) == after_first(rest, '/'));
    let s_lit = chars_of("s");
    let w_lit = chars_of("w");
    let r_lit = chars_of("r");
    proof {
        let id = v@.subrange(rest_lo as int, id_end as int);
        lemma_first_index_facts(keys(shares@), id);
        lemma_first_index_facts(keys(sites@), id);
        lemma_first_index_facts(keys(receivers@), id);
        assert(keys(shares@).len() == shares@.len());
        assert(keys(sites@).len() == sites@.len());
        assert(keys(receivers@).len() == receivers@.len());
    }
    if range_eq(&v, lo, first_end, &s_lit) {
        if id_end == rest_lo {
            return fail(400, "Bad Request", "缺少分享 ID");
        }
        match find_by_id(shares, &v, rest_lo, id_end) {
            None => fail(404, "Not Found", "分享不存在或已停止"),
            Some(i) => {
                Ok(RouteTarget::Share { index: i, subpath: string_from(&v, sub_lo, n) })
            },
        }
    } else if range_eq(&v, lo, first_end, &w_lit) {
        if id_end == rest_lo {
            return fail(400, "Bad Request", "缺少站点 ID");
        }
        match find_by_id(sites, &v, rest_lo, id_end) {
            None => fail(404, "Not Found", "站点不存在或已移除"),
            Some(i) => Ok(RouteTarget::Site { index: i, subpath: string_from(&v, sub_lo, n) }),
        }
    } else if range_eq(&v, lo, first_end, &r_lit) {
        if id_end == rest_lo {
            return fail(400, "Bad Request", "缺少接收卡片 ID");
        }
        match find_by_id(receivers, &v, rest_lo, id_end) {
            None => fail(404, "Not Found", "接收卡片不存在或已删除"),
            Some(i) => {
                if sub_lo < n {
                    fail(404, "Not Found", "页面不存在")
                } else {
                    let required = match receivers[i].encryption {
                        ReceiveEncryption::Unencrypted => false,
                        _ => true,
                    };
                    Ok(RouteTarget::ReceivePage { index: i, password_required: required })
                }
            },
        }
    } else {
        fail(404, "Not Found", "页面不存在")
    }
}

/// Routes a request of a site's own server, where the site is rooted at
/// `/`: the subpath to serve, or the failure to answer with.
pub fn route_site_root(method: &str, target: &str) -> (r: Result<String, Failure>)
    ensures
        match percent_decode_spec(before_first(target@, '?')) {
            None => r matches Err(f) && is_failure(f, 400, "Bad Request"@, "无效的 URL 地址"@),
            Some(path) => if method@ != "GET"@ && method@ != "HEAD"@ {
                r matches Err(f) && is_failure(
                    f,
                    405,
                    "Method Not Allowed"@,
                    "仅支持 GET / HEAD 请求"@,
                )
            } else {
                r matches Ok(p) && p@ == trim_start_char(path, '/')
            },
        },
{
    let t = strip_query(target);
    let path = match percent_decode(t.as_str()) {
        Ok(p) => p,
        Err(_) => {
            return Err(Failure { code: 400, reason: "Bad Request", message: "无效的 URL 地址" });
        },
    };
    if !is_get_or_head(method) {
        return Err(
            Failure {
                code: 405,
                reason: "Method Not Allowed",
                message: "仅支持 GET / HEAD 请求",
            },
        );
    }
    let v = chars_of(path.as_str());
    assert(v@.subrange(0, v.len() as int) =~= path@);
    let lo = skip_leading(&v, 0, v.len(), '/');
    Ok(string_from(&v, lo, v.len()))
}

// ---------------------------------------------------------------------------
// Links of records
// ---------------------------------------------------------------------------
/// Percent-decoding leaves bytes without `%` as they are.
proof fn lemma_pct_decode_plain(b: Seq<u8>)
    requires
        forall|i: int| 0 <= i < b.len() ==> #[trigger] b[i] != 37,
    ensures
        pct_decode_bytes(b) == Some(b),
    decreases b.len(),
{
    if b.len() > 0 {
        lemma_pct_decode_plain(b.drop_first());
        assert(seq![b[0]] + b.drop_first() =~= b);
    }
}

/// A text of ASCII characters other than `%` decodes to itself.
proof fn lemma_percent_decode_plain(s: Seq<char>)
    requires
        is_ascii_chars(s),
        forall|i: int| 0 <= i < s.len() ==> #[trigger] s[i] != '%',
    ensures
        percent_decode_spec(s) == Some(s),
{
    let b = encode_utf8(s);
    is_ascii_chars_encode_utf8(s);
    assert forall|i: int| 0 <= i < b.len() implies #[trigger] b[i] != 37 by {
        assert(s[i] as u8 == b[i]);
        assert(s[i] != '%');
    }
    lemma_pct_decode_plain(b);
    encode_utf8_valid_utf8(s);
    encode_utf8_decode_utf8(s);
}

/// The decision for the link `/<kind>/<id>` of a record with token `id`.
proof fn lemma_link_path(kind: char, id: Seq<char>)
    requires
        is_token(id),
        kind == 's' || kind == 'w' || kind == 'r',
    ensures
        ({
            let path = seq!['/', kind, '/'] + id;
            let trimmed = trim_start_char(path, '/');
            let rest = after_first(trimmed, '/');
            &&& percent_decode_spec(before_first(path, '?')) == Some(path)
            &&& path != "/"@ && path.len() > 0
            &&& before_first(trimmed, '/') == seq![kind]
            &&& before_first(rest, '/') == id
            &&& after_first(rest, '/') == Seq::<char>::empty()
        }),
{
    reveal_strlit("/");
    let path = seq!['/', kind, '/'] + id;
    assert forall|i: int| 0 <= i < path.len() implies path[i] != '?' && path[i] != '%' && '\0'
        <= #[trigger] path[i] <= '\u{7f}' by {
        if i >= 3 {
            assert(path[i] == id[i - 3]);
            assert(is_token_char(id[i - 3]));
        }
    }
    crate::text::lemma_split_once_absent(path, '?');
    lemma_percent_decode_plain(path);
    assert(path.len() != 1);
    let trimmed = seq![kind, '/'] + id;
    assert(path.drop_first() =~= trimmed);
    assert(trimmed[0] != '/');
    assert(trim_start_char(path, '/') == trim_start_char(path.drop_first(), '/'));
    assert(trim_start_char(trimmed, '/') == trimmed);
    crate::text::lemma_split_once_found(trimmed, '/', 1);
    assert(trimmed.take(1) =~= seq![kind]);
    assert(trimmed.skip(2) =~= id);
    assert forall|j: int| 0 <= j < id.len() implies id[j] != '/' by {
        assert(is_token_char(id[j]));
    }
    crate::text::lemma_split_once_absent(id, '/');
}

/// The link `/s/<id>` of a share goes to the share with token `id` while it
/// is shared, and answers 404 once it is gone.
pub proof fn lemma_share_link_routes(
    shares: Registry<ShareSession>,
    id: Seq<char>,
    site_ids: Seq<Seq<char>>,
    receivers: Seq<ReceiveSession>,
)
    requires
        is_token(id),
    ensures
        ({
            let r = route_spec("GET"@, "/s/"@ + id, keys(shares.records()), site_ids, receivers);
            match shares.get_spec(id) {
                None => r == RouteSpec::Fail(404, "Not Found"@, "分享不存在或已停止"@),
                Some(s) => r matches RouteSpec::Share(i, p) && shares.records()[i] == s
                    && p.len() == 0,
            }
        }),
{
    reveal_strlit("/s/");
    reveal_strlit("s");
    reveal_strlit("GET");
    assert("/s/"@ + id =~= seq!['/', 's', '/'] + id);
    assert("s"@ =~= seq!['s']);
    lemma_link_path('s', id);
}

/// The link `/w/<id>` of a site goes to the site with token `id` while it
/// exists, and answers 404 once it is gone.
pub proof fn lemma_site_link_routes(
    share_ids: Seq<Seq<char>>,
    sites: Registry<SiteSession>,
    id: Seq<char>,
    receivers: Seq<ReceiveSession>,
)
    requires
        is_token(id),
    ensures
        ({
            let r = route_spec("GET"@, "/w/"@ + id, share_ids, keys(sites.records()), receivers);
            match sites.get_spec(id) {
                None => r == RouteSpec::Fail(404, "Not Found"@, "站点不存在或已移除"@),
                Some(s) => r matches RouteSpec::Site(i, p) && sites.records()[i] == s && p.len()
                    == 0,
            }
        }),
{
    reveal_strlit("/w/");
    reveal_strlit("s");
    reveal_strlit("w");
    reveal_strlit("GET");
    assert("/w/"@ + id =~= seq!['/', 'w', '/'] + id);
    assert("w"@ =~= seq!['w']);
    assert("s"@[0] == 's');
    assert(seq!['w'] != "s"@) by {
        assert(seq!['w'][0] != "s"@[0]);
    }
    lemma_link_path('w', id);
}

/// The link `/r/<id>` of a receive card shows its upload page while it
/// exists, asking for a password unless it is unprotected, and answers 404
/// once it is gone.
pub proof fn lemma_receive_link_routes(
    share_ids: Seq<Seq<char>>,
    site_ids: Seq<Seq<char>>,
    receivers: Registry<ReceiveSession>,
    id: Seq<char>,
)
    requires
        is_token(id),
    ensures
        ({
            let r = route_spec("GET"@, "/r/"@ + id, share_ids, site_ids, receivers.records());
            match receivers.get_spec(id) {
                None => r == RouteSpec::Fail(404, "Not Found"@, "接收卡片不存在或已删除"@),
                Some(c) => r matches RouteSpec::ReceivePage(i, required) && receivers.records()[i]
                    == c && required == (c.encryption != ReceiveEncryption::Unencrypted),
            }
        }),
{
    reveal_strlit("/r/");
    reveal_strlit("s");
    reveal_strlit("w");
    reveal_strlit("r");
    reveal_strlit("GET");
    assert("/r/"@ + id =~= seq!['/', 'r', '/'] + id);
    assert("r"@ =~= seq!['r']);
    assert(seq!['r'] != "s"@) by {
        assert(seq!['r'][0] != "s"@[0]);
    }
    assert(seq!['r'] != "w"@) by {
        assert(seq!['r'][0] != "w"@[0]);
    }
    lemma_link_path('r', id);
}

} // verus!
