//! File URIs.

use vstd::prelude::*;
use vstd::utf8::encode_utf8;

use crate::paths::absolute;
use crate::text::{
    after_prefix, ascii, ascii_digit, ascii_lower, ascii_upper, chars_of, copy, opt_text, string_of,
    strip_prefix,
};

verus! {

/// The value of a hexadecimal digit.
pub open spec fn hex_digit(b: u8) -> Option<u8> {
    if 0x30 <= b <= 0x39 {
        Some((b - 0x30) as u8)
    } else if 0x61 <= b <= 0x66 {
        Some((b - 0x61 + 10) as u8)
    } else if 0x41 <= b <= 0x46 {
        Some((b - 0x41 + 10) as u8)
    } else {
        None
    }
}

/// Reads a hexadecimal digit.
pub fn hex_val(b: u8) -> (r: Option<u8>)
    ensures
        r == hex_digit(b),
{
    if 0x30 <= b && b <= 0x39 {
        Some(b - 0x30)
    } else if 0x61 <= b && b <= 0x66 {
        Some(b - 0x61 + 10)
    } else if 0x41 <= b && b <= 0x46 {
        Some(b - 0x41 + 10)
    } else {
        None
    }
}

/// The bytes `s` with every escape replaced by the character it writes. A byte stands for the
/// character of that number. A percent sign takes the two bytes after it, or what is left of them;
/// where these are not two hexadecimal digits, only the percent sign is kept.
pub open spec fn decoded(s: Seq<u8>) -> Seq<char>
    decreases s.len(),
{
    if s.len() == 0 {
        Seq::empty()
    } else if s[0] != 0x25 {
        seq![s[0] as char] + decoded(s.skip(1))
    } else if s.len() < 3 {
        seq!['%']
    } else {
        match (hex_digit(s[1]), hex_digit(s[2])) {
            (Some(h), Some(l)) => seq![(16 * h + l) as u8 as char] + decoded(s.skip(3)),
            _ => seq!['%'] + decoded(s.skip(3)),
        }
    }
}

/// Replaces the percent escapes of `input`.
pub fn percent_decode(input: &str) -> (r: String)
    ensures
        r@ == decoded(encode_utf8(input@)),
{
    let bytes = input.as_bytes();
    let ghost all = encode_utf8(input@);
    assert(bytes@ == all);
    let mut out = String::new();
    let mut i: usize = 0;
    assert(all.skip(0) =~= all);
    assert(out@ + decoded(all) =~= decoded(all));
    let n: usize = bytes.len();
    while i < n
        invariant
            i <= n,
            n == all.len(),
            bytes@ == all,
            decoded(all) == out@ + decoded(all.skip(i as int)),
        decreases n - i,
    {
        let ghost rest = all.skip(i as int);
        let ghost before = out@;
        let b = bytes[i];
        if b != 0x25 {
            out.push(b as char);
            assert(rest.skip(1) =~= all.skip(i + 1));
            assert(before + (seq![b as char] + decoded(rest.skip(1))) =~= out@ + decoded(
                rest.skip(1),
            ));
            i = i + 1;
        } else if n - i < 3 {
            out.push('%');
            assert(before + seq!['%'] =~= out@);
            i = n;
            assert(all.skip(i as int).len() == 0);
            assert(out@ + Seq::<char>::empty() =~= out@);
        } else {
            assert(rest.skip(3) =~= all.skip(i + 3));
            let high = hex_val(bytes[i + 1]);
            let low = hex_val(bytes[i + 2]);
            match (high, low) {
                (Some(h), Some(l)) => {
                    let v: u8 = 16 * h + l;
                    out.push(v as char);
                    assert(before + (seq![v as char] + decoded(rest.skip(3))) =~= out@ + decoded(
                        rest.skip(3),
                    ));
                },
                _ => {
                    out.push('%');
                    assert(before + (seq!['%'] + decoded(rest.skip(3))) =~= out@ + decoded(
                        rest.skip(3),
                    ));
                },
            }
            i = i + 3;
        }
    }
    assert(out@ + decoded(all.skip(i as int)) =~= out@);
    out
}

/// The path that a file URI denotes.
pub open spec fn uri_path(uri: Seq<char>) -> Option<Seq<char>> {
    match after_prefix(uri, "file://"@) {
        Some(rest) => Some(decoded(encode_utf8(rest))),
        None => None,
    }
}

/// Converts a URI to a local file path; `None` where it is no file URI.
pub fn to_path(uri: &str) -> (r: Option<String>)
    ensures
        opt_text(r) == uri_path(uri@),
{
    let s = chars_of(uri);
    match strip_prefix(&s, "file://") {
        Some(rest) => Some(percent_decode(string_of(rest).as_str())),
        None => None,
    }
}

/// Whether `c` can stand in the path of a URI: a letter, a digit or one of `-._~!$&'()*+,;=:@/`.
pub open spec fn path_char(c: char) -> bool {
    ||| ascii_digit(c) || ascii_upper(c) || ascii_lower(c)
    ||| c == '-' || c == '.' || c == '_' || c == '~'
    ||| c == '!' || c == '$' || c == '&' || c == '\'' || c == '(' || c == ')' || c == '*' || c == '+'
    ||| c == ',' || c == ';' || c == '='
    ||| c == ':' || c == '@' || c == '/'
}

/// Whether every character of `s` can stand in the path of a URI.
pub open spec fn all_path_chars(s: Seq<char>) -> bool {
    forall|i: int| 0 <= i < s.len() ==> path_char(#[trigger] s[i])
}

/// Whether `path` is absolute and holds none of the characters that start an escape, a query or a
/// fragment.
pub open spec fn ordinary_path(path: Seq<char>) -> bool {
    absolute(path) && !path.contains('%') && !path.contains('?') && !path.contains('#')
}

/// Whether `s` is the URI of an ordinary path.
pub open spec fn ordinary_uri(s: Seq<char>) -> bool {
    after_prefix(s, "file://"@) matches Some(path) && ordinary_path(path)
}

/// Whether `str::parse::<lsp_types::Uri>` accepts a text other than `file://` and an ordinary path.
pub uninterp spec fn accepted_uri(s: Seq<char>) -> bool;

/// Whether the text `s` is a URI reference: `file://` and an ordinary path is one where every
/// character of the path can stand in a URI.
pub open spec fn uri_reference(s: Seq<char>) -> bool {
    if ordinary_uri(s) {
        all_path_chars(after_prefix(s, "file://"@)->0)
    } else {
        accepted_uri(s)
    }
}

/// Whether every character of `s` is ASCII.
pub open spec fn all_ascii(s: Seq<char>) -> bool {
    forall|i: int| 0 <= i < s.len() ==> ascii(#[trigger] s[i])
}

/// The number of bytes up to which a URI can be read.
pub const MAX_URI_BYTES: usize = 0x7fff_ffff;

/// Calls `str::parse::<lsp_types::Uri>`, which panics on a text longer than [`MAX_URI_BYTES`].
/// Whether it succeeds depends on the text alone. On `file://` and an ordinary path it succeeds
/// where every character of the path can stand in a URI. Where it succeeds, every character is
/// ASCII and the URI reads as the text that was given.
#[verifier::external_body]
fn parse_uri(s: &str) -> (r: Option<String>)
    requires
        encode_utf8(s@).len() <= MAX_URI_BYTES,
    ensures
        ordinary_uri(s@) ==> (r is Some <==> all_path_chars(after_prefix(s@, "file://"@)->0)),
        !ordinary_uri(s@) ==> (r is Some <==> accepted_uri(s@)),
        r is Some ==> r->0@ == s@,
        r is Some ==> all_ascii(s@),
{
    s.parse::<lsp_types::Uri>().ok().map(|u| u.as_str().to_owned())
}

/// The file URI of a path: there is one where the text is short enough to be read as a URI, is
/// ASCII and is a URI reference.
pub open spec fn path_uri(path: Seq<char>) -> Option<Seq<char>> {
    let s = "file://"@ + path;
    if encode_utf8(s).len() <= MAX_URI_BYTES && all_ascii(path) && uri_reference(s) {
        Some(s)
    } else {
        None
    }
}

/// Converts a local file path to a URI.
pub fn from_path(path: &str) -> (r: Option<String>)
    ensures
        opt_text(r) == path_uri(path@),
{
    let mut s = copy("file://");
    s.append(path);
    if s.as_str().as_bytes().len() > MAX_URI_BYTES {
        return None;
    }
    let r = parse_uri(&s);
    proof {
        let whole = "file://"@ + path@;
        assert(s@ == whole);
        if r is Some {
            assert forall|i: int| 0 <= i < path@.len() implies ascii(#[trigger] path@[i]) by {
                assert(whole[i + "file://"@.len()] == path@[i]);
            }
        }
    }
    r
}

proof fn lemma_least_char(c: char)
    ensures
        '\0' <= c,
{
}

proof fn lemma_decoded_plain(path: Seq<char>)
    requires
        forall|i: int| 0 <= i < path.len() ==> ascii(#[trigger] path[i]) && path[i] != '%',
    ensures
        decoded(encode_utf8(path)) == path,
    decreases path.len(),
{
    if path.len() > 0 {
        let rest = path.skip(1);
        assert forall|i: int| 0 <= i < rest.len() implies ascii(#[trigger] rest[i]) && rest[i]
            != '%' by {
            assert(rest[i] == path[i + 1]);
        }
        lemma_decoded_plain(rest);
        assert forall|i: int| 0 <= i < path.len() implies '\0' <= #[trigger] path[i] <= '\u{7f}' by {
            lemma_least_char(path[i]);
        }
        assert(vstd::utf8::is_ascii_chars(path));
        vstd::utf8::is_ascii_chars_encode_utf8(path);
        assert(vstd::utf8::is_ascii_chars(rest));
        vstd::utf8::is_ascii_chars_encode_utf8(rest);
        let bytes = encode_utf8(path);
        assert(ascii(path[0]) && path[0] != '%');
        assert(bytes[0] == path[0] as u8);
        assert(bytes.skip(1) =~= encode_utf8(rest)) by {
            assert forall|i: int| 0 <= i < rest.len() implies bytes.skip(1)[i] == encode_utf8(
                rest,
            )[i] by {
                assert(rest[i] == path[i + 1]);
            }
        }
        assert(bytes[0] as char == path[0]);
        assert(seq![path[0]] + rest =~= path);
    } else {
        assert(encode_utf8(path).len() == 0) by {
            assert(vstd::utf8::is_ascii_chars(path));
        vstd::utf8::is_ascii_chars_encode_utf8(path);
        }
        assert(path =~= Seq::empty());
    }
}

pub(crate) proof fn lemma_after_file(path: Seq<char>)
    ensures
        after_prefix("file://"@ + path, "file://"@) == Some(path),
{
    let whole = "file://"@ + path;
    let p = "file://"@;
    assert(p.is_prefix_of(whole)) by {
        assert(whole.take(p.len() as int) =~= p);
    }
    assert(whole.skip(p.len() as int) =~= path);
}

/// A path that has a URI comes back from it unchanged, unless it holds a percent sign.
pub proof fn lemma_round_trip(path: Seq<char>)
    requires
        path_uri(path) is Some,
        !path.contains('%'),
    ensures
        uri_path(path_uri(path)->0) == Some(path),
{
    lemma_after_file(path);
    assert forall|i: int| 0 <= i < path.len() implies ascii(#[trigger] path[i]) && path[i]
        != '%' by {
        assert(path.contains(path[i]));
    }
    lemma_decoded_plain(path);
}

/// An absolute path of characters that can stand in a URI has one, and comes back from it
/// unchanged.
pub proof fn lemma_ordinary_round_trip(path: Seq<char>)
    requires
        absolute(path),
        all_path_chars(path),
        encode_utf8("file://"@ + path).len() <= MAX_URI_BYTES,
    ensures
        path_uri(path) == Some("file://"@ + path),
        uri_path("file://"@ + path) == Some(path),
{
    lemma_after_file(path);
    assert forall|c: char| path.contains(c) implies #[trigger] path_char(c) by {
        let i = choose|i: int| 0 <= i < path.len() && path[i] == c;
        assert(path_char(path[i]));
    }
    assert(!path_char('%') && !path_char('?') && !path_char('#'));
    assert forall|i: int| 0 <= i < path.len() implies ascii(#[trigger] path[i]) by {
        assert(path_char(path[i]));
    }
    lemma_round_trip(path);
}

} // verus!
