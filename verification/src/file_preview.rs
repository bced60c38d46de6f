//! Inline file previews for the host page: a text file's content, or a binary
//! file's bytes in standard base64 for a data URL.
use vstd::prelude::*;
use vstd::utf8::{decode_utf8, encode_utf8, encode_utf8_decode_utf8, encode_utf8_valid_utf8, valid_utf8};
use crate::text::chars_of;

verus! {

// ---------------------------------------------------------------- file names

/// `/` and `\` both separate path components here.
pub open spec fn is_path_sep(c: char) -> bool {
    c == '/' || c == '\\'
}

/// Index just after the last separator of `p` (0 when there is none).
pub open spec fn name_start(p: Seq<char>) -> int
    decreases p.len(),
{
    if p.len() == 0 {
        0
    } else if is_path_sep(p.last()) {
        p.len() as int
    } else {
        name_start(p.drop_last())
    }
}

/// The last component of `p`: what follows its last separator.
pub open spec fn file_name(p: Seq<char>) -> Seq<char> {
    p.subrange(name_start(p), p.len() as int)
}

proof fn lemma_name_start_bounds(p: Seq<char>)
    ensures
        0 <= name_start(p) <= p.len(),
    decreases p.len(),
{
    if p.len() > 0 && !is_path_sep(p.last()) {
        lemma_name_start_bounds(p.drop_last());
    }
}

/// The file name shown for `path`: its text after the last `/` or `\`.
pub fn file_name_of(path: &str) -> (r: String)
    ensures
        r@ == file_name(path@),
        !r@.contains('/') && !r@.contains('\\'),
{
    let v = chars_of(path);
    let mut i = v.len();
    proof {
        assert(v@.take(i as int) =~= v@);
    }
    while i > 0 && !(v[i - 1] == '/' || v[i - 1] == '\\')
        invariant
            i <= v.len(),
            name_start(v@) == name_start(v@.take(i as int)),
            forall|j: int| i <= j < v.len() ==> !is_path_sep(#[trigger] v@[j]),
        decreases i,
    {
        proof {
            assert(v@.take(i as int).drop_last() =~= v@.take(i - 1));
            assert(v@.take(i as int).last() == v@[i - 1]);
        }
        i -= 1;
    }
    proof {
        if i > 0 {
            assert(v@.take(i as int).last() == v@[i - 1]);
        }
        lemma_name_start_bounds(v@);
    }
    let r = crate::text::string_of_range(&v, i, v.len());
    proof {
        assert forall|j: int| 0 <= j < r@.len() implies !is_path_sep(#[trigger] r@[j]) by {
            assert(r@[j] == v@[i + j]);
        }
    }
    r
}

// ---------------------------------------------------------------- text previews

/// What `String::from_utf8_lossy` makes of `bytes`.
pub uninterp spec fn utf8_lossy(bytes: Seq<u8>) -> Seq<char>;

/// `String::from_utf8_lossy`, made owned. Trusted: the result is named
/// `utf8_lossy`, and valid UTF-8 comes back as the text it encodes; how invalid
/// sequences are replaced by U+FFFD is left to the name.
#[verifier::external_body]
fn lossy_text(bytes: &[u8]) -> (r: String)
    ensures
        r@ == utf8_lossy(bytes@),
        valid_utf8(bytes@) ==> r@ == decode_utf8(bytes@),
{
    String::from_utf8_lossy(bytes).into_owned()
}

/// A text file as the preview pane shows it.
pub struct TextPreview {
    pub name: String,
    pub size: u64,
    pub content: String,
}

/// The text preview of the file at `path` of `size` bytes whose content is `bytes`.
pub fn text_preview(path: &str, size: u64, bytes: &[u8]) -> (r: TextPreview)
    ensures
        r.name@ == file_name(path@),
        r.size == size,
        r.content@ == utf8_lossy(bytes@),
        valid_utf8(bytes@) ==> r.content@ == decode_utf8(bytes@),
        forall|t: Seq<char>| #[trigger] encode_utf8(t) == bytes@ ==> r.content@ == t,
{
    let r = TextPreview { name: file_name_of(path), size, content: lossy_text(bytes) };
    proof {
        assert forall|t: Seq<char>| #[trigger] encode_utf8(t) == bytes@ implies r.content@ == t by {
            text_preview_round_trip(t);
        }
    }
    r
}

/// A text file previews as exactly the text it holds: the UTF-8 encoding of any
/// text comes back whole.
pub proof fn text_preview_round_trip(text: Seq<char>)
    ensures
        valid_utf8(encode_utf8(text)),
        decode_utf8(encode_utf8(text)) == text,
{
    encode_utf8_valid_utf8(text);
    encode_utf8_decode_utf8(text);
}

// ---------------------------------------------------------------- binary previews

/// The character of a 6-bit value in the standard base64 alphabet.
pub open spec fn b64_char(i: int) -> char {
    if i < 26 {
        (65 + i) as char
    } else if i < 52 {
        (97 + (i - 26)) as char
    } else if i < 62 {
        (48 + (i - 52)) as char
    } else if i == 62 {
        '+'
    } else {
        '/'
    }
}

/// Standard base64 with `=` padding: every three bytes become four characters,
/// a last one or two bytes become four characters ending in `==` or `=`.
pub open spec fn base64_std(b: Seq<u8>) -> Seq<char>
    decreases b.len(),
{
    if b.len() == 0 {
        seq![]
    } else if b.len() == 1 {
        let n = b[0] as int;
        seq![b64_char(n / 4), b64_char((n % 4) * 16), '=', '=']
    } else if b.len() == 2 {
        let n = b[0] as int * 256 + b[1] as int;
        seq![b64_char(n / 1024), b64_char((n / 16) % 64), b64_char((n % 16) * 4), '=']
    } else {
        let n = b[0] as int * 65536 + b[1] as int * 256 + b[2] as int;
        seq![b64_char(n / 262144), b64_char((n / 4096) % 64), b64_char((n / 64) % 64), b64_char(n % 64)]
            + base64_std(b.skip(3))
    }
}

/// `base64::engine::general_purpose::STANDARD.encode`. Trusted: the result is
/// the standard alphabet with padding, as the crate documents for `STANDARD`.
/// It panics only when the output length overflows `usize`, which the bound on
/// the input rules out.
#[verifier::external_body]
fn base64_encode(bytes: &[u8]) -> (r: String)
    requires
        bytes@.len() <= isize::MAX,
    ensures
        r@ == base64_std(bytes@),
{
    base64::Engine::encode(&base64::engine::general_purpose::STANDARD, bytes)
}

/// A binary file (image, audio, video) as the preview pane receives it.
pub struct DataPreview {
    pub name: String,
    pub size: u64,
    pub base64: String,
}

/// The data preview of the file at `path` of `size` bytes whose content is `bytes`.
pub fn data_preview(path: &str, size: u64, bytes: &[u8]) -> (r: DataPreview)
    requires
        bytes@.len() <= isize::MAX,
    ensures
        r.name@ == file_name(path@),
        r.size == size,
        r.base64@ == base64_std(bytes@),
{
    DataPreview { name: file_name_of(path), size, base64: base64_encode(bytes) }
}

} // verus!
