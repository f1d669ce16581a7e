//! Which paths URIs name.

use vstd::prelude::*;

use crate::uri::{decoded, hex_digit, path_char, path_uri, uri_path};

verus! {

/// A URI names a file exactly where it starts with `file://`.
pub proof fn lemma_file_uri(uri: Seq<char>)
    ensures
        uri_path(uri) is Some <==> "file://"@.is_prefix_of(uri),
{
}

/// The URI of a path is `file://` and the path.
pub proof fn lemma_uri_of_path(path: Seq<char>)
    ensures
        path_uri(path) matches Some(uri) ==> uri == "file://"@ + path,
{
}

/// Whether the byte `b` is the hexadecimal digit of the value `v`, in either case.
pub open spec fn writes_hex(b: u8, v: u8) -> bool {
    ||| v < 10 && b == 0x30 + v
    ||| 10 <= v < 16 && b == 0x61 + (v - 10)
    ||| 10 <= v < 16 && b == 0x41 + (v - 10)
}

/// A byte is read as the hexadecimal digit that it is.
pub proof fn lemma_hex(b: u8, v: u8)
    ensures
        hex_digit(b) == Some(v) <==> writes_hex(b, v),
{
}

/// The escape of a byte, with digits in either case, is read as the character of that number.
pub proof fn lemma_escape_is_read(byte: u8, high: u8, low: u8, rest: Seq<u8>)
    requires
        writes_hex(high, byte / 16),
        writes_hex(low, byte % 16),
    ensures
        decoded(seq![0x25u8, high, low] + rest) == seq![byte as char] + decoded(rest),
{
    let s = seq![0x25u8, high, low] + rest;
    lemma_hex(high, byte / 16);
    lemma_hex(low, byte % 16);
    assert(s[0] == 0x25u8 && s[1] == high && s[2] == low);
    assert(s.skip(3) =~= rest);
    assert(16 * (byte / 16) + byte % 16 == byte);
}

/// Any other byte is read as the character of that number.
pub proof fn lemma_byte_is_read(byte: u8, rest: Seq<u8>)
    requires
        byte != 0x25,
    ensures
        decoded(seq![byte] + rest) == seq![byte as char] + decoded(rest),
        decoded(Seq::empty()) == Seq::<char>::empty(),
{
    let s = seq![byte] + rest;
    assert(s[0] == byte);
    assert(s.skip(1) =~= rest);
}

/// A path with each character escaped comes back from its URI.
pub proof fn lemma_escapes_are_read(bytes: Seq<u8>, high: Seq<u8>, low: Seq<u8>)
    requires
        high.len() == bytes.len(),
        low.len() == bytes.len(),
        forall|i: int|
            0 <= i < bytes.len() ==> writes_hex(high[i], #[trigger] bytes[i] / 16) && writes_hex(
                low[i],
                bytes[i] % 16,
            ),
    ensures
        decoded(escaped(high, low)) == Seq::new(bytes.len(), |i: int| bytes[i] as char),
    decreases bytes.len(),
{
    let chars = Seq::new(bytes.len(), |i: int| bytes[i] as char);
    if bytes.len() == 0 {
        assert(escaped(high, low) =~= Seq::empty());
        assert(decoded(escaped(high, low)) =~= chars);
    } else {
        let rest = bytes.skip(1);
        assert(writes_hex(high[0], bytes[0] / 16));
        assert forall|i: int| 0 <= i < rest.len() implies writes_hex(
            high.skip(1)[i],
            #[trigger] rest[i] / 16,
        ) && writes_hex(low.skip(1)[i], rest[i] % 16) by {
            assert(writes_hex(high[i + 1], bytes[i + 1] / 16));
        }
        lemma_escapes_are_read(rest, high.skip(1), low.skip(1));
        lemma_escape_is_read(bytes[0], high[0], low[0], escaped(high.skip(1), low.skip(1)));
        assert(decoded(escaped(high, low)) =~= chars);
    }
}

/// Escapes with these digits.
pub open spec fn escaped(high: Seq<u8>, low: Seq<u8>) -> Seq<u8>
    decreases high.len(),
{
    if high.len() == 0 {
        Seq::empty()
    } else {
        seq![0x25u8, high[0], low[0]] + escaped(high.skip(1), low.skip(1))
    }
}

/// A path of letters, digits, slashes, dots, hyphens and underscores can stand in a URI; one with a
/// space, a quote or a bracket of another sort than round cannot.
pub proof fn lemma_path_chars(c: char)
    ensures
        'a' <= c <= 'z' || 'A' <= c <= 'Z' || '0' <= c <= '9' || c == '/' || c == '.' || c == '-' || c
            == '_' ==> path_char(c),
        c == ' ' || c == '"' || c == '<' || c == '>' || c == '[' || c == ']' || c == '{' || c == '}'
            || c == '\\' || c == '^' || c == '|' || c == '`' || c == '%' || c == '?' || c == '#'
            ==> !path_char(c),
{
}

} // verus!
