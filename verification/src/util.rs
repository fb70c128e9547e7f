//! Percent-decoding, form values, and the content types of files.

use crate::text::{ascii_lower_seq, bytes_eq, string_from_utf8, to_ascii_lower};
use vstd::prelude::*;
use vstd::slice::slice_subrange;
use vstd::string::*;
use vstd::utf8::*;

verus! {

/// How many escapes one call decodes. What follows them is left as it is.
pub const MAX_ESCAPES: usize = 512;

/// The number that a hexadecimal digit stands for.
pub open spec fn hex_value(b: u8) -> Option<u8> {
    if 0x30 <= b <= 0x39 {
        Some((b - 0x30) as u8)
    } else if 0x41 <= b <= 0x46 {
        Some((b - 0x41 + 10) as u8)
    } else if 0x61 <= b <= 0x66 {
        Some((b - 0x61 + 10) as u8)
    } else {
        None
    }
}

/// The byte that the two bytes after a percent sign stand for: two
/// hexadecimal digits, or a plus sign and one hexadecimal digit.
pub open spec fn hex_pair(high: u8, low: u8) -> Option<u8> {
    match (hex_value(high), hex_value(low)) {
        (Some(h), Some(l)) => Some((h * 16 + l) as u8),
        (None, Some(l)) => if high == 0x2b {
            Some(l)
        } else {
            None
        },
        _ => None,
    }
}

/// `first` before what `rest` holds, if it holds anything.
pub open spec fn prefixed(first: Seq<u8>, rest: Option<Seq<u8>>) -> Option<Seq<u8>> {
    match rest {
        Some(bytes) => Some(first + bytes),
        None => None,
    }
}

/// The bytes that `s` stands for when each `%XX` in it is replaced by the
/// byte that it names. Only the first `budget` escapes are decoded: what
/// follows them stays as it is. An escape that is cut short, or that does not
/// name a byte, leaves nothing.
pub open spec fn percent_decoded(s: Seq<u8>, budget: nat) -> Option<Seq<u8>>
    decreases s.len(),
{
    if s.len() == 0 {
        Some(Seq::empty())
    } else if s[0] != 0x25 {
        prefixed(seq![s[0]], percent_decoded(s.drop_first(), budget))
    } else if budget == 0 {
        Some(s)
    } else if s.len() < 3 {
        None
    } else {
        match hex_pair(s[1], s[2]) {
            Some(b) => prefixed(seq![b], percent_decoded(s.skip(3), (budget - 1) as nat)),
            None => None,
        }
    }
}

/// The text that `s` stands for: the bytes that it decodes to, where they
/// are valid UTF-8.
pub open spec fn percent_decoded_text(s: Seq<u8>) -> Option<Seq<char>> {
    match percent_decoded(s, MAX_ESCAPES as nat) {
        Some(bytes) => if valid_utf8(bytes) {
            Some(decode_utf8(bytes))
        } else {
            None
        },
        None => None,
    }
}

/// Executable `hex_value`.
pub fn hex_digit(b: u8) -> (value: Option<u8>)
    ensures
        value == hex_value(b),
        value matches Some(v) ==> v < 16,
{
    if 0x30 <= b && b <= 0x39 {
        Some(b - 0x30)
    } else if 0x41 <= b && b <= 0x46 {
        Some(b - 0x41 + 10)
    } else if 0x61 <= b && b <= 0x66 {
        Some(b - 0x61 + 10)
    } else {
        None
    }
}

/// Executable `hex_pair`.
pub fn hex_byte(high: u8, low: u8) -> (value: Option<u8>)
    ensures
        value == hex_pair(high, low),
{
    match hex_digit(low) {
        None => None,
        Some(l) => match hex_digit(high) {
            Some(h) => Some(h * 16 + l),
            None => if high == 0x2b {
                Some(l)
            } else {
                None
            },
        },
    }
}

/// Decodes the escapes in `input` and reads the result as text.
pub fn percent_decode_bytes(input: &[u8]) -> (decoded: Option<String>)
    ensures
        match percent_decoded_text(input@) {
            Some(text) => decoded matches Some(s) && s@ == text,
            None => decoded is None,
        },
{
    let mut out: Vec<u8> = Vec::new();
    let mut budget: usize = MAX_ESCAPES;
    let mut i: usize = 0;
    assert(input@.skip(0) =~= input@);
    assert(Seq::<u8>::empty() + input@ =~= input@);
    while i < input.len()
        invariant
            i <= input.len(),
            percent_decoded(input@, MAX_ESCAPES as nat) == prefixed(
                out@,
                percent_decoded(input@.skip(i as int), budget as nat),
            ),
        decreases input.len() - i,
    {
        let ghost rest = input@.skip(i as int);
        let ghost before = out@;
        let b = input[i];
        assert(rest[0] == b);
        if b != 0x25 {
            out.push(b);
            i += 1;
            proof {
                assert(rest.drop_first() =~= input@.skip(i as int));
                match percent_decoded(input@.skip(i as int), budget as nat) {
                    Some(tail) => {
                        assert(before + (seq![b] + tail) =~= out@ + tail);
                    },
                    None => {},
                }
            }
        } else if budget == 0 {
            let rest_bytes = slice_subrange(input, i, input.len());
            out.extend_from_slice(rest_bytes);
            proof {
                assert(rest_bytes@ =~= rest);
                assert(input@.skip(input.len() as int) =~= Seq::<u8>::empty());
                assert(out@ + Seq::<u8>::empty() =~= before + rest);
            }
            i = input.len();
        } else if input.len() - i < 3 {
            return None;
        } else {
            assert(rest[1] == input@[i + 1] && rest[2] == input@[i + 2]);
            match hex_byte(input[i + 1], input[i + 2]) {
                None => {
                    return None;
                },
                Some(v) => {
                    out.push(v);
                    i += 3;
                    budget -= 1;
                    proof {
                        assert(rest.skip(3) =~= input@.skip(i as int));
                        match percent_decoded(input@.skip(i as int), budget as nat) {
                            Some(tail) => {
                                assert(before + (seq![v] + tail) =~= out@ + tail);
                            },
                            None => {},
                        }
                    }
                },
            }
        }
    }
    assert(input@.skip(i as int) =~= Seq::<u8>::empty());
    assert(out@ + Seq::<u8>::empty() =~= out@);
    string_from_utf8(out.as_slice())
}

/// Decodes the percent escapes in `inp`: each `%XX` becomes the byte with
/// the hexadecimal number `XX`. `None` when an escape is malformed or the
/// bytes that come out are not UTF-8.
pub fn percent_decode(inp: &str) -> (decoded: Option<String>)
    ensures
        match percent_decoded_text(inp.spec_bytes()) {
            Some(text) => decoded matches Some(s) && s@ == text,
            None => decoded is None,
        },
{
    percent_decode_bytes(inp.as_bytes())
}

/// The hexadecimal digit, in capitals, for a number below 16.
pub open spec fn hex_char(v: u8) -> u8 {
    if v < 10 {
        (0x30 + v) as u8
    } else {
        (0x41 + v - 10) as u8
    }
}

/// The escape that names byte `b`: a percent sign and two hexadecimal
/// digits.
pub open spec fn escape(b: u8) -> Seq<u8> {
    seq![0x25u8, hex_char(b / 16), hex_char(b % 16)]
}

/// Whether a byte may stand for itself in a path: a letter, a digit, or one
/// of `-`, `.`, `_`, `~`.
pub open spec fn is_unreserved(b: u8) -> bool {
    (0x30 <= b <= 0x39) || (0x41 <= b <= 0x5a) || (0x61 <= b <= 0x7a) || b == 0x2d || b == 0x2e
        || b == 0x5f || b == 0x7e
}

/// `raw` with every byte that may not stand for itself replaced by its
/// escape.
pub open spec fn percent_encoded(raw: Seq<u8>) -> Seq<u8>
    decreases raw.len(),
{
    if raw.len() == 0 {
        Seq::empty()
    } else if is_unreserved(raw[0]) {
        seq![raw[0]] + percent_encoded(raw.drop_first())
    } else {
        escape(raw[0]) + percent_encoded(raw.drop_first())
    }
}

/// An escape names the byte that it was made for.
pub proof fn lemma_escape_names_byte(b: u8)
    ensures
        hex_pair(hex_char(b / 16), hex_char(b % 16)) == Some(b),
{
    assert(b / 16 < 16 && b % 16 < 16);
    assert((b / 16) * 16 + b % 16 == b);
}

/// Round trip: decoding what was encoded gives the bytes that were encoded,
/// as long as there are no more of them than escapes are decoded.
pub proof fn lemma_decode_encoded(raw: Seq<u8>, budget: nat)
    requires
        raw.len() <= budget,
    ensures
        percent_decoded(percent_encoded(raw), budget) == Some(raw),
    decreases raw.len(),
{
    if raw.len() > 0 {
        let rest = raw.drop_first();
        let tail = percent_encoded(rest);
        let all = percent_encoded(raw);
        if is_unreserved(raw[0]) {
            lemma_decode_encoded(rest, budget);
            assert(all.drop_first() =~= tail);
            assert(all[0] == raw[0]);
        } else {
            lemma_decode_encoded(rest, (budget - 1) as nat);
            lemma_escape_names_byte(raw[0]);
            assert(all.skip(3) =~= tail);
            assert(all[0] == 0x25 && all[1] == hex_char(raw[0] / 16) && all[2] == hex_char(
                raw[0] % 16,
            ));
        }
        assert(seq![raw[0]] + rest =~= raw);
    }
}

/// Round trip for text: the escaped form of a text of at most `MAX_ESCAPES`
/// bytes decodes to that text.
pub proof fn lemma_decode_encoded_text(text: Seq<char>)
    requires
        encode_utf8(text).len() <= MAX_ESCAPES,
    ensures
        percent_decoded_text(percent_encoded(encode_utf8(text))) == Some(text),
{
    lemma_decode_encoded(encode_utf8(text), MAX_ESCAPES as nat);
    encode_utf8_valid_utf8(text);
    encode_utf8_decode_utf8(text);
}

/// Bytes without a percent sign decode to themselves: decoding what is
/// already decoded changes nothing.
pub proof fn lemma_decode_plain(s: Seq<u8>, budget: nat)
    requires
        forall|i: int| 0 <= i < s.len() ==> s[i] != 0x25,
    ensures
        percent_decoded(s, budget) == Some(s),
    decreases s.len(),
{
    if s.len() > 0 {
        let rest = s.drop_first();
        assert forall|i: int| 0 <= i < rest.len() implies rest[i] != 0x25 by {
            assert(rest[i] == s[i + 1]);
        }
        lemma_decode_plain(rest, budget);
        assert(seq![s[0]] + rest =~= s);
    }
}

/// The bytes of a form value before its escapes are decoded: each plus sign
/// is a space, and carriage returns are left out.
pub open spec fn form_cleaned(s: Seq<u8>) -> Seq<u8>
    decreases s.len(),
{
    if s.len() == 0 {
        Seq::empty()
    } else if s.last() == 0x0d {
        form_cleaned(s.drop_last())
    } else if s.last() == 0x2b {
        form_cleaned(s.drop_last()).push(0x20)
    } else {
        form_cleaned(s.drop_last()).push(s.last())
    }
}

/// The text of a form value: its cleaned bytes with the escapes decoded, and
/// nothing where they cannot be decoded.
pub open spec fn form_value_text(s: Seq<u8>) -> Seq<char> {
    match percent_decoded_text(form_cleaned(s)) {
        Some(text) => text,
        None => Seq::empty(),
    }
}

/// Decodes a value of a posted form, given as bytes.
pub fn decode_form_bytes(post: &[u8]) -> (value: String)
    ensures
        value@ == form_value_text(post@),
{
    let mut cleaned: Vec<u8> = Vec::new();
    let mut i: usize = 0;
    while i < post.len()
        invariant
            i <= post.len(),
            cleaned@ == form_cleaned(post@.take(i as int)),
        decreases post.len() - i,
    {
        let b = post[i];
        proof {
            let longer = post@.take(i + 1);
            assert(longer.drop_last() =~= post@.take(i as int));
            assert(longer.last() == b);
        }
        if b == 0x2b {
            cleaned.push(0x20);
        } else if b != 0x0d {
            cleaned.push(b);
        }
        i += 1;
    }
    assert(post@.take(i as int) =~= post@);
    match percent_decode_bytes(cleaned.as_slice()) {
        Some(text) => text,
        None => String::new(),
    }
}

/// Decodes a value of a posted form: plus signs are spaces, carriage returns
/// are dropped, escapes are decoded. A value that cannot be decoded reads as
/// the empty string.
pub fn decode_form_value(post: &str) -> (value: String)
    ensures
        value@ == form_value_text(post.spec_bytes()),
{
    decode_form_bytes(post.as_bytes())
}

/// Where the extension of a file name starts: after its last dot, or at its
/// first byte when it has no dot.
pub open spec fn extension_start(name: Seq<u8>) -> int
    decreases name.len(),
{
    if name.len() == 0 {
        0
    } else if name.last() == 0x2e {
        name.len() as int
    } else {
        extension_start(name.drop_last())
    }
}

/// The extension of a file name.
pub open spec fn extension(name: Seq<u8>) -> Seq<u8> {
    name.skip(extension_start(name))
}

/// The content type of files with the extension `ext`, which is in lower
/// case.
pub open spec fn content_type_of(ext: Seq<u8>) -> Seq<char> {
    if ext == "aac".spec_bytes() {
        "audio/aac"@
    } else if ext == "abw".spec_bytes() {
        "application/x-abiword"@
    } else if ext == "arc".spec_bytes() {
        "application/x-freearc"@
    } else if ext == "avi".spec_bytes() {
        "video/x-msvideo"@
    } else if ext == "azw".spec_bytes() {
        "application/vnd.amazon.ebook"@
    } else if ext == "bin".spec_bytes() {
        "application/octet-stream"@
    } else if ext == "bmp".spec_bytes() {
        "image/bmp"@
    } else if ext == "bz".spec_bytes() {
        "application/x-bzip"@
    } else if ext == "bz2".spec_bytes() {
        "application/x-bzip2"@
    } else if ext == "csh".spec_bytes() {
        "application/x-csh"@
    } else if ext == "css".spec_bytes() {
        "text/css; charset=utf8"@
    } else if ext == "csv".spec_bytes() {
        "text/csv"@
    } else if ext == "doc".spec_bytes() {
        "application/msword"@
    } else if ext == "docx".spec_bytes() {
        "application/vnd.openxmlformats-officedocument.wordprocessingml.document"@
    } else if ext == "eot".spec_bytes() {
        "application/vnd.ms-fontobject"@
    } else if ext == "epub".spec_bytes() {
        "application/epub+zip"@
    } else if ext == "gz".spec_bytes() {
        "gzip"@
    } else if ext == "gif".spec_bytes() {
        "image/gif"@
    } else if ext == "htm".spec_bytes() {
        "text/html; charset=utf8"@
    } else if ext == "html".spec_bytes() {
        "text/html; charset=utf8"@
    } else if ext == "ico".spec_bytes() {
        "image/vnd.microsoft.icon"@
    } else if ext == "ics".spec_bytes() {
        "text/calendar"@
    } else if ext == "jar".spec_bytes() {
        "application/java-archive"@
    } else if ext == "jpeg".spec_bytes() {
        "image/jpeg"@
    } else if ext == "jpg".spec_bytes() {
        "image/jpeg"@
    } else if ext == "js".spec_bytes() {
        "text/javascript"@
    } else if ext == "json".spec_bytes() {
        "application/json"@
    } else if ext == "jsonld".spec_bytes() {
        "application/ld+json"@
    } else if ext == "mid".spec_bytes() {
        "audio/midi"@
    } else if ext == "midi".spec_bytes() {
        "audio/midi"@
    } else if ext == "mjs".spec_bytes() {
        "text/javascript"@
    } else if ext == "mp3".spec_bytes() {
        "audio/mpeg"@
    } else if ext == "mpeg".spec_bytes() {
        "video/mpeg"@
    } else if ext == "mpkg".spec_bytes() {
        "application/vnd.apple.installer+xml"@
    } else if ext == "odp".spec_bytes() {
        "application/vnd.oasis.opendocument.presentation"@
    } else if ext == "ods".spec_bytes() {
        "application/vnd.oasis.opendocument.spreadsheet"@
    } else if ext == "odt".spec_bytes() {
        "application/vnd.oasis.opendocument.text"@
    } else if ext == "oga".spec_bytes() {
        "audio/ogg"@
    } else if ext == "ogv".spec_bytes() {
        "video/ogg"@
    } else if ext == "ogx".spec_bytes() {
        "application/ogg"@
    } else if ext == "opus".spec_bytes() {
        "audio/opus"@
    } else if ext == "otf".spec_bytes() {
        "font/otf"@
    } else if ext == "png".spec_bytes() {
        "image/png"@
    } else if ext == "pdf".spec_bytes() {
        "application/pdf"@
    } else if ext == "php".spec_bytes() {
        "application/x-httpd-php"@
    } else if ext == "ppt".spec_bytes() {
        "application/vnd.ms-powerpoint"@
    } else if ext == "pptx".spec_bytes() {
        "application/vnd.openxmlformats-officedocument.presentationml.presentation"@
    } else if ext == "rar".spec_bytes() {
        "application/vnd.rar"@
    } else if ext == "rtf".spec_bytes() {
        "application/rtf"@
    } else if ext == "sh".spec_bytes() {
        "application/x-sh"@
    } else if ext == "svg".spec_bytes() {
        "image/svg+xml"@
    } else if ext == "swf".spec_bytes() {
        "application/x-shockwave-flash"@
    } else if ext == "tar".spec_bytes() {
        "application/x-tar"@
    } else if ext == "tif".spec_bytes() {
        "image/tiff"@
    } else if ext == "tiff".spec_bytes() {
        "image/tiff"@
    } else if ext == "ts".spec_bytes() {
        "video/mp2t"@
    } else if ext == "ttf".spec_bytes() {
        "font/ttf"@
    } else if ext == "txt".spec_bytes() {
        "text/plain; charset=utf8"@
    } else if ext == "vsd".spec_bytes() {
        "application/vnd.visio"@
    } else if ext == "wav".spec_bytes() {
        "audio/wav"@
    } else if ext == "weba".spec_bytes() {
        "audio/webm"@
    } else if ext == "webm".spec_bytes() {
        "video/webm"@
    } else if ext == "webp".spec_bytes() {
        "image/webp"@
    } else if ext == "woff".spec_bytes() {
        "font/woff"@
    } else if ext == "woff2".spec_bytes() {
        "font/woff2"@
    } else if ext == "xhtml".spec_bytes() {
        "application/xhtml+xml"@
    } else if ext == "xls".spec_bytes() {
        "application/vnd.ms-excel"@
    } else if ext == "xlsx".spec_bytes() {
        "application/vnd.openxmlformats-officedocument.spreadsheetml.sheet"@
    } else if ext == "xul".spec_bytes() {
        "application/vnd.mozilla.xul+xml"@
    } else if ext == "xml".spec_bytes() {
        "application/xml"@
    } else if ext == "zip".spec_bytes() {
        "application/zip"@
    } else if ext == "7z".spec_bytes() {
        "application/x-7z-compressed"@
    } else {
        "text/plain; charset=utf8"@
    }
}

/// Executable `content_type_of`.
pub fn content_type_for(ext: &[u8]) -> (mime: &'static str)
    ensures
        mime@ == content_type_of(ext@),
{
    if bytes_eq(ext, "aac".as_bytes()) {
        "audio/aac"
    } else if bytes_eq(ext, "abw".as_bytes()) {
        "application/x-abiword"
    } else if bytes_eq(ext, "arc".as_bytes()) {
        "application/x-freearc"
    } else if bytes_eq(ext, "avi".as_bytes()) {
        "video/x-msvideo"
    } else if bytes_eq(ext, "azw".as_bytes()) {
        "application/vnd.amazon.ebook"
    } else if bytes_eq(ext, "bin".as_bytes()) {
        "application/octet-stream"
    } else if bytes_eq(ext, "bmp".as_bytes()) {
        "image/bmp"
    } else if bytes_eq(ext, "bz".as_bytes()) {
        "application/x-bzip"
    } else if bytes_eq(ext, "bz2".as_bytes()) {
        "application/x-bzip2"
    } else if bytes_eq(ext, "csh".as_bytes()) {
        "application/x-csh"
    } else if bytes_eq(ext, "css".as_bytes()) {
        "text/css; charset=utf8"
    } else if bytes_eq(ext, "csv".as_bytes()) {
        "text/csv"
    } else if bytes_eq(ext, "doc".as_bytes()) {
        "application/msword"
    } else if bytes_eq(ext, "docx".as_bytes()) {
        "application/vnd.openxmlformats-officedocument.wordprocessingml.document"
    } else if bytes_eq(ext, "eot".as_bytes()) {
        "application/vnd.ms-fontobject"
    } else if bytes_eq(ext, "epub".as_bytes()) {
        "application/epub+zip"
    } else if bytes_eq(ext, "gz".as_bytes()) {
        "gzip"
    } else if bytes_eq(ext, "gif".as_bytes()) {
        "image/gif"
    } else if bytes_eq(ext, "htm".as_bytes()) {
        "text/html; charset=utf8"
    } else if bytes_eq(ext, "html".as_bytes()) {
        "text/html; charset=utf8"
    } else if bytes_eq(ext, "ico".as_bytes()) {
        "image/vnd.microsoft.icon"
    } else if bytes_eq(ext, "ics".as_bytes()) {
        "text/calendar"
    } else if bytes_eq(ext, "jar".as_bytes()) {
        "application/java-archive"
    } else if bytes_eq(ext, "jpeg".as_bytes()) {
        "image/jpeg"
    } else if bytes_eq(ext, "jpg".as_bytes()) {
        "image/jpeg"
    } else if bytes_eq(ext, "js".as_bytes()) {
        "text/javascript"
    } else if bytes_eq(ext, "json".as_bytes()) {
        "application/json"
    } else if bytes_eq(ext, "jsonld".as_bytes()) {
        "application/ld+json"
    } else if bytes_eq(ext, "mid".as_bytes()) {
        "audio/midi"
    } else if bytes_eq(ext, "midi".as_bytes()) {
        "audio/midi"
    } else if bytes_eq(ext, "mjs".as_bytes()) {
        "text/javascript"
    } else if bytes_eq(ext, "mp3".as_bytes()) {
        "audio/mpeg"
    } else if bytes_eq(ext, "mpeg".as_bytes()) {
        "video/mpeg"
    } else if bytes_eq(ext, "mpkg".as_bytes()) {
        "application/vnd.apple.installer+xml"
    } else if bytes_eq(ext, "odp".as_bytes()) {
        "application/vnd.oasis.opendocument.presentation"
    } else if bytes_eq(ext, "ods".as_bytes()) {
        "application/vnd.oasis.opendocument.spreadsheet"
    } else if bytes_eq(ext, "odt".as_bytes()) {
        "application/vnd.oasis.opendocument.text"
    } else if bytes_eq(ext, "oga".as_bytes()) {
        "audio/ogg"
    } else if bytes_eq(ext, "ogv".as_bytes()) {
        "video/ogg"
    } else if bytes_eq(ext, "ogx".as_bytes()) {
        "application/ogg"
    } else if bytes_eq(ext, "opus".as_bytes()) {
        "audio/opus"
    } else if bytes_eq(ext, "otf".as_bytes()) {
        "font/otf"
    } else if bytes_eq(ext, "png".as_bytes()) {
        "image/png"
    } else if bytes_eq(ext, "pdf".as_bytes()) {
        "application/pdf"
    } else if bytes_eq(ext, "php".as_bytes()) {
        "application/x-httpd-php"
    } else if bytes_eq(ext, "ppt".as_bytes()) {
        "application/vnd.ms-powerpoint"
    } else if bytes_eq(ext, "pptx".as_bytes()) {
        "application/vnd.openxmlformats-officedocument.presentationml.presentation"
    } else if bytes_eq(ext, "rar".as_bytes()) {
        "application/vnd.rar"
    } else if bytes_eq(ext, "rtf".as_bytes()) {
        "application/rtf"
    } else if bytes_eq(ext, "sh".as_bytes()) {
        "application/x-sh"
    } else if bytes_eq(ext, "svg".as_bytes()) {
        "image/svg+xml"
    } else if bytes_eq(ext, "swf".as_bytes()) {
        "application/x-shockwave-flash"
    } else if bytes_eq(ext, "tar".as_bytes()) {
        "application/x-tar"
    } else if bytes_eq(ext, "tif".as_bytes()) {
        "image/tiff"
    } else if bytes_eq(ext, "tiff".as_bytes()) {
        "image/tiff"
    } else if bytes_eq(ext, "ts".as_bytes()) {
        "video/mp2t"
    } else if bytes_eq(ext, "ttf".as_bytes()) {
        "font/ttf"
    } else if bytes_eq(ext, "txt".as_bytes()) {
        "text/plain; charset=utf8"
    } else if bytes_eq(ext, "vsd".as_bytes()) {
        "application/vnd.visio"
    } else if bytes_eq(ext, "wav".as_bytes()) {
        "audio/wav"
    } else if bytes_eq(ext, "weba".as_bytes()) {
        "audio/webm"
    } else if bytes_eq(ext, "webm".as_bytes()) {
        "video/webm"
    } else if bytes_eq(ext, "webp".as_bytes()) {
        "image/webp"
    } else if bytes_eq(ext, "woff".as_bytes()) {
        "font/woff"
    } else if bytes_eq(ext, "woff2".as_bytes()) {
        "font/woff2"
    } else if bytes_eq(ext, "xhtml".as_bytes()) {
        "application/xhtml+xml"
    } else if bytes_eq(ext, "xls".as_bytes()) {
        "application/vnd.ms-excel"
    } else if bytes_eq(ext, "xlsx".as_bytes()) {
        "application/vnd.openxmlformats-officedocument.spreadsheetml.sheet"
    } else if bytes_eq(ext, "xul".as_bytes()) {
        "application/vnd.mozilla.xul+xml"
    } else if bytes_eq(ext, "xml".as_bytes()) {
        "application/xml"
    } else if bytes_eq(ext, "zip".as_bytes()) {
        "application/zip"
    } else if bytes_eq(ext, "7z".as_bytes()) {
        "application/x-7z-compressed"
    } else {
        "text/plain; charset=utf8"
    }
}

/// The content type of a file, by the extension of its name. Capitals in
/// the extension do not matter; a file of a kind that is not known is plain
/// text.
pub fn content_type(path: &str) -> (mime: &'static str)
    ensures
        mime@ == content_type_of(ascii_lower_seq(extension(path.spec_bytes()))),
{
    let name = path.as_bytes();
    let mut start: usize = name.len();
    assert(name@.take(start as int) =~= name@);
    while start > 0 && name[start - 1] != 0x2e
        invariant
            start <= name.len(),
            extension_start(name@) == extension_start(name@.take(start as int)),
        decreases start,
    {
        proof {
            assert(name@.take(start as int).drop_last() =~= name@.take(start - 1));
        }
        start -= 1;
    }
    proof {
        if start > 0 {
            assert(name@.take(start as int).last() == name@[start - 1]);
        }
    }
    let mut lower: Vec<u8> = Vec::new();
    let mut i: usize = start;
    while i < name.len()
        invariant
            start <= i <= name.len(),
            lower@ == ascii_lower_seq(name@.subrange(start as int, i as int)),
        decreases name.len() - i,
    {
        lower.push(to_ascii_lower(name[i]));
        i += 1;
        assert(lower@ =~= ascii_lower_seq(name@.subrange(start as int, i as int)));
    }
    assert(name@.subrange(start as int, i as int) =~= name@.skip(start as int));
    content_type_for(lower.as_slice())
}

} // verus!
