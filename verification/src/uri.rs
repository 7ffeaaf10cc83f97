//! `zenoh:` URIs: `zenoh:<key-expr>?<name>=<value>&...`, with the key
//! expression and the values percent-encoded.

use vstd::prelude::*;
use vstd::utf8::{decode_utf8, encode_utf8, encode_scalar, is_ascii_chars, valid_utf8};
use crate::text::{
    chars_of, find_char, first_index, join, lemma_first_index, lemma_first_index_after,
    lemma_split_join, split, split_chars, starts_with, starts_with_str, string_of, views,
};

verus! {

/// Whether a byte is left as it is by percent-encoding: ASCII letters and
/// digits, `-`, `.`, `_` and `~`.
pub open spec fn url_safe(b: u8) -> bool {
    (0x30 <= b <= 0x39) || (0x41 <= b <= 0x5a) || (0x61 <= b <= 0x7a) || b == 0x2d || b == 0x2e
        || b == 0x5f || b == 0x7e
}

/// The uppercase hexadecimal digit of a value below 16.
pub open spec fn upper_hex(d: u8) -> char {
    if d < 10 {
        ((0x30 + d) as u8) as char
    } else {
        ((0x41 + d - 10) as u8) as char
    }
}

/// Percent-encoding of bytes: safe bytes as themselves, every other byte as
/// `%` and two uppercase hexadecimal digits.
pub open spec fn pct_encode(b: Seq<u8>) -> Seq<char>
    decreases b.len(),
{
    if b.len() == 0 {
        Seq::empty()
    } else {
        let c = b[0];
        let head = if url_safe(c) {
            seq![c as char]
        } else {
            seq!['%', upper_hex(c / 16), upper_hex(c % 16)]
        };
        head + pct_encode(b.skip(1))
    }
}

/// The value of a hexadecimal digit byte, if it is one.
pub open spec fn hex_value(b: u8) -> Option<u8> {
    if 0x30 <= b <= 0x39 {
        Some((b - 0x30) as u8)
    } else if 0x41 <= b <= 0x46 {
        Some((b - 0x41 + 10) as u8)
    } else if 0x61 <= b <= 0x66 {
        Some((b - 0x61 + 10) as u8)
    } else {
        None
    }
}

/// Percent-decoding of bytes: `%` and two hexadecimal digits become the byte
/// they spell; a `%` not followed by two hexadecimal digits stays as it is.
pub open spec fn pct_decode(b: Seq<u8>) -> Seq<u8>
    decreases b.len(),
{
    if b.len() == 0 {
        Seq::empty()
    } else if b[0] != 0x25 {
        seq![b[0]] + pct_decode(b.skip(1))
    } else if b.len() < 3 {
        b
    } else {
        match (hex_value(b[1]), hex_value(b[2])) {
            (Some(h), Some(l)) => seq![(h * 16 + l) as u8] + pct_decode(b.skip(3)),
            (Some(_), None) => seq![0x25u8, b[1]] + pct_decode(b.skip(2)),
            _ => seq![0x25u8] + pct_decode(b.skip(1)),
        }
    }
}

/// What `urlencoding::decode` reports for text whose decoded bytes are not
/// UTF-8.
pub uninterp spec fn url_decode_rejection(s: Seq<char>) -> Seq<char>;

/// Percent-decoding of text: the decoded bytes as text when they are UTF-8,
/// the rejection otherwise.
pub open spec fn url_decoded(s: Seq<char>) -> Result<Seq<char>, Seq<char>> {
    let b = pct_decode(encode_utf8(s));
    if valid_utf8(b) {
        Ok(decode_utf8(b))
    } else {
        Err(url_decode_rejection(s))
    }
}

/// Calls `urlencoding::encode`; claims it percent-encodes the UTF-8 bytes of
/// the text as `pct_encode` says.
#[verifier::external_body]
fn url_encode(s: &str) -> (r: String)
    ensures
        r@ == pct_encode(encode_utf8(s@)),
{
    urlencoding::encode(s).into_owned()
}

/// Calls `urlencoding::decode`; claims it percent-decodes the UTF-8 bytes of
/// the text as `pct_decode` says and accepts exactly a UTF-8 result, and that
/// its error text is the named rejection.
#[verifier::external_body]
fn url_decode(s: &str) -> (r: Result<String, String>)
    ensures
        match r {
            Ok(v) => valid_utf8(pct_decode(encode_utf8(s@))) && v@ == decode_utf8(
                pct_decode(encode_utf8(s@)),
            ),
            Err(e) => !valid_utf8(pct_decode(encode_utf8(s@))) && e@ == url_decode_rejection(s@),
        },
{
    match urlencoding::decode(s) {
        Ok(v) => Ok(v.into_owned()),
        Err(e) => Err(e.to_string()),
    }
}

/// Percent-encode a text for a URI.
pub fn encode_component(s: &str) -> (r: String)
    ensures
        r@ == pct_encode(encode_utf8(s@)),
{
    url_encode(s)
}

/// Percent-decode a text from a URI.
pub fn decode_component(s: &str) -> (r: Result<String, String>)
    ensures
        match r {
            Ok(v) => url_decoded(s@) == Ok::<Seq<char>, Seq<char>>(v@),
            Err(e) => url_decoded(s@) == Err::<Seq<char>, Seq<char>>(e@),
        },
{
    url_decode(s)
}

/// Why a URI was refused.
#[derive(Debug, Clone, Copy, PartialEq, Eq, Structural)]
pub enum UriErrorKind {
    /// The URI is malformed or names invalid values.
    BadUri,
    /// The element cannot take a URI in its current state.
    BadState,
}

/// A refused URI: why, and the message.
#[derive(Debug, Clone)]
pub struct UriError {
    pub kind: UriErrorKind,
    pub message: String,
}

impl UriError {
    /// The kind and the message's characters.
    pub open spec fn view(self) -> (UriErrorKind, Seq<char>) {
        (self.kind, self.message@)
    }
}

/// A URI error with its text.
pub fn uri_error(kind: UriErrorKind, message: String) -> (e: UriError)
    ensures
        e.view() == (kind, message@),
{
    UriError { kind, message }
}

/// The scheme every URI starts with.
pub const URI_SCHEME: &'static str = "zenoh:";

/// A URI taken apart: its key expression and its query, if it has a `?`.
pub open spec fn uri_split(uri: Seq<char>) -> (Seq<char>, Option<Seq<char>>) {
    let content = uri.skip(6);
    let q = first_index(content, '?');
    if q < 0 {
        (content, None)
    } else {
        (content.take(q), Some(content.skip(q + 1)))
    }
}

/// What a URI gives: its decoded key expression and its raw query, or why it
/// is refused (wrong scheme, empty key expression, key expression that does
/// not decode).
pub open spec fn uri_target(uri: Seq<char>) -> Result<
    (Seq<char>, Option<Seq<char>>),
    (UriErrorKind, Seq<char>),
> {
    if !starts_with(uri, URI_SCHEME@) {
        Err((UriErrorKind::BadUri, "Invalid URI scheme, expected 'zenoh:', got: "@ + uri))
    } else {
        let (key, query) = uri_split(uri);
        if key.len() == 0 {
            Err((UriErrorKind::BadUri, "Key expression cannot be empty"@))
        } else {
            match url_decoded(key) {
                Ok(k) => Ok((k, query)),
                Err(e) => Err((UriErrorKind::BadUri, "Failed to decode key expression: "@ + e)),
            }
        }
    }
}

/// The `name=value` parameters of a query, in order: the pieces between `&`
/// that hold a `=`, split at their first `=`. Values are still encoded.
pub open spec fn query_params(q: Seq<char>) -> Seq<(Seq<char>, Seq<char>)> {
    pairs_of(split(q, '&'))
}

/// The pieces that hold a `=`, split at the first one.
pub open spec fn pairs_of(pieces: Seq<Seq<char>>) -> Seq<(Seq<char>, Seq<char>)>
    decreases pieces.len(),
{
    if pieces.len() == 0 {
        Seq::empty()
    } else {
        let p = pieces.last();
        let i = first_index(p, '=');
        let prev = pairs_of(pieces.drop_last());
        if i < 0 {
            prev
        } else {
            prev.push((p.take(i), p.skip(i + 1)))
        }
    }
}

fn sub_string(v: &[char], from: usize, to: usize) -> (s: String)
    requires
        from <= to <= v@.len(),
    ensures
        s@ == v@.subrange(from as int, to as int),
{
    let part = vstd::slice::slice_subrange(v, from, to);
    string_of(part)
}

/// Take a URI apart into its decoded key expression and its raw query.
pub fn parse_uri(uri: &str) -> (r: Result<(String, Option<String>), UriError>)
    ensures
        match r {
            Ok((k, q)) => uri_target(uri@) == Ok::<
                (Seq<char>, Option<Seq<char>>),
                (UriErrorKind, Seq<char>),
            >((k@, opt_string_view(q))),
            Err(e) => uri_target(uri@) == Err::<
                (Seq<char>, Option<Seq<char>>),
                (UriErrorKind, Seq<char>),
            >(e.view()),
        },
{
    let u = chars_of(uri);
    if !starts_with_str(u.as_slice(), URI_SCHEME) {
        let mut m = String::from_str("Invalid URI scheme, expected 'zenoh:', got: ");
        m.append(uri);
        return Err(uri_error(UriErrorKind::BadUri, m));
    }
    proof {
        reveal_strlit("zenoh:");
    }
    let content = vstd::slice::slice_subrange(u.as_slice(), 6, u.len());
    assert(content@ =~= uri@.skip(6));
    let (key, query, key_len) = match find_char(content, '?') {
        Some(q) => (sub_string(content, 0, q), Some(sub_string(content, q + 1, content.len())), q),
        None => (sub_string(content, 0, content.len()), None, content.len()),
    };
    assert(key@ == uri_split(uri@).0) by {
        assert(content@.subrange(0, content@.len() as int) =~= content@);
        assert(content@.subrange(0, first_index(content@, '?')) =~= content@.take(
            first_index(content@, '?'),
        ));
    }
    assert(opt_string_view(query) == uri_split(uri@).1) by {
        if first_index(content@, '?') >= 0 {
            assert(content@.subrange(first_index(content@, '?') + 1, content@.len() as int)
                =~= content@.skip(first_index(content@, '?') + 1));
        }
    }
    if key_len == 0 {
        return Err(uri_error(UriErrorKind::BadUri, String::from_str("Key expression cannot be empty")));
    }
    match url_decode(key.as_str()) {
        Ok(k) => Ok((k, query)),
        Err(e) => {
            let mut m = String::from_str("Failed to decode key expression: ");
            m.append(e.as_str());
            Err(uri_error(UriErrorKind::BadUri, m))
        },
    }
}

/// An optional string as optional characters.
pub open spec fn opt_string_view(o: Option<String>) -> Option<Seq<char>> {
    match o {
        Some(s) => Some(s@),
        None => None,
    }
}

/// The character sequences of string pairs.
pub open spec fn string_pairs_view(v: Seq<(String, String)>) -> Seq<(Seq<char>, Seq<char>)> {
    v.map_values(|p: (String, String)| (p.0@, p.1@))
}

/// The `name=value` parameters of a query, values still encoded.
pub fn parse_query(query: &str) -> (params: Vec<(String, String)>)
    ensures
        string_pairs_view(params@) == query_params(query@),
{
    let q = chars_of(query);
    let pieces = split_chars(q.as_slice(), '&');
    let ghost ps = views(pieces@);
    let mut params: Vec<(String, String)> = Vec::new();
    let mut i: usize = 0;
    while i < pieces.len()
        invariant
            i <= pieces.len(),
            ps == views(pieces@),
            ps == split(query@, '&'),
            string_pairs_view(params@) == pairs_of(ps.take(i as int)),
        decreases pieces.len() - i,
    {
        let p = &pieces[i];
        assert(ps[i as int] == p@);
        assert(ps.take(i as int + 1).drop_last() =~= ps.take(i as int));
        assert(ps.take(i as int + 1).last() == p@);
        let sl = p.as_slice();
        let n = sl.len();
        match find_char(sl, '=') {
            Some(e) => {
                let k = sub_string(sl, 0, e);
                assert(e < n);
                let v = sub_string(sl, e + 1, n);
                assert(k@ =~= p@.take(e as int));
                assert(v@ =~= p@.skip(e as int + 1));
                let ghost before = params@;
                params.push((k, v));
                assert(string_pairs_view(params@) =~= string_pairs_view(before).push(
                    (p@.take(e as int), p@.skip(e as int + 1)),
                ));
            },
            None => {},
        }
        i = i + 1;
    }
    assert(ps.take(pieces.len() as int) =~= ps);
    params
}

/// The UTF-8 encoding of one character holds the byte of `%` only when the
/// character is `%`.
proof fn lemma_scalar_no_percent(c: char)
    requires
        c != '%',
    ensures
        !encode_scalar(c as u32).contains(0x25u8),
{
    let v = c as u32;
    assert(v != 0x25);
    let e = encode_scalar(v);
    if e.contains(0x25u8) {
        let i = choose|i: int| 0 <= i < e.len() && e[i] == 0x25u8;
        if v <= 0x7F {
            assert((v & 0x7F) as u8 != 0x25u8) by (bit_vector)
                requires
                    v <= 0x7F,
                    v != 0x25,
            ;
        } else if v <= 0x7FF {
            assert((0xC0u8 | ((v >> 6) & 0x1F) as u8) != 0x25u8) by (bit_vector);
            assert((0x80u8 | (v & 0x3F) as u8) != 0x25u8) by (bit_vector);
        } else if v <= 0xFFFF && !(0xD800 <= v <= 0xDFFF) {
            assert((0xE0u8 | ((v >> 12) & 0x0F) as u8) != 0x25u8) by (bit_vector);
            assert((0x80u8 | ((v >> 6) & 0x3F) as u8) != 0x25u8) by (bit_vector);
            assert((0x80u8 | (v & 0x3F) as u8) != 0x25u8) by (bit_vector);
        } else {
            assert((0xF0u8 | ((v >> 18) & 0x7) as u8) != 0x25u8) by (bit_vector);
            assert((0x80u8 | ((v >> 12) & 0x3F) as u8) != 0x25u8) by (bit_vector);
            assert((0x80u8 | ((v >> 6) & 0x3F) as u8) != 0x25u8) by (bit_vector);
            assert((0x80u8 | (v & 0x3F) as u8) != 0x25u8) by (bit_vector);
        }
    }
}

/// Text without `%` encodes to bytes without the byte of `%`.
pub proof fn lemma_encode_no_percent(s: Seq<char>)
    requires
        !s.contains('%'),
    ensures
        !encode_utf8(s).contains(0x25u8),
    decreases s.len(),
{
    if s.len() > 0 {
        assert(s[0] != '%');
        assert(!s.drop_first().contains('%')) by {
            if s.drop_first().contains('%') {
                let i = choose|i: int| 0 <= i < s.drop_first().len() && s.drop_first()[i] == '%';
                assert(s[i + 1] == '%');
            }
        }
        lemma_scalar_no_percent(s[0]);
        lemma_encode_no_percent(s.drop_first());
        let a = encode_scalar(s[0] as u32);
        let b = encode_utf8(s.drop_first());
        if (a + b).contains(0x25u8) {
            let i = choose|i: int| 0 <= i < (a + b).len() && (a + b)[i] == 0x25u8;
            if i < a.len() {
                assert(a[i] == 0x25u8);
            } else {
                assert(b[i - a.len()] == 0x25u8);
            }
        }
    }
}

/// Bytes without `%` decode to themselves.
pub proof fn lemma_pct_decode_plain(b: Seq<u8>)
    requires
        !b.contains(0x25u8),
    ensures
        pct_decode(b) == b,
    decreases b.len(),
{
    if b.len() > 0 {
        assert(b[0] != 0x25u8);
        assert(!b.skip(1).contains(0x25u8)) by {
            if b.skip(1).contains(0x25u8) {
                let i = choose|i: int| 0 <= i < b.skip(1).len() && b.skip(1)[i] == 0x25u8;
                assert(b[i + 1] == 0x25u8);
            }
        }
        lemma_pct_decode_plain(b.skip(1));
        assert(seq![b[0]] + b.skip(1) =~= b);
    }
}

/// Text without `%` percent-decodes to itself.
pub proof fn lemma_url_decoded_plain(s: Seq<char>)
    requires
        !s.contains('%'),
    ensures
        url_decoded(s) == Ok::<Seq<char>, Seq<char>>(s),
{
    broadcast use vstd::utf8::encode_utf8_valid_utf8, vstd::utf8::encode_utf8_decode_utf8;

    lemma_encode_no_percent(s);
    lemma_pct_decode_plain(encode_utf8(s));
}

/// The bytes of ASCII characters.
pub open spec fn ascii_bytes(s: Seq<char>) -> Seq<u8> {
    s.map_values(|c: char| c as u8)
}

/// Percent-encoding gives ASCII text without `&`, `=`, `?` or `/`.
pub proof fn lemma_pct_encode_plain(b: Seq<u8>)
    ensures
        is_ascii_chars(pct_encode(b)),
        !pct_encode(b).contains('&'),
        !pct_encode(b).contains('='),
        !pct_encode(b).contains('?'),
    decreases b.len(),
{
    if b.len() > 0 {
        lemma_pct_encode_plain(b.skip(1));
        let c = b[0];
        let head = if url_safe(c) {
            seq![c as char]
        } else {
            seq!['%', upper_hex(c / 16), upper_hex(c % 16)]
        };
        let t = pct_encode(b.skip(1));
        assert(pct_encode(b) == head + t);
        assert forall|i: int| 0 <= i < (head + t).len() implies '\0' <= #[trigger] (head + t)[i]
            <= '\u{7f}' && (head + t)[i] != '&' && (head + t)[i] != '=' && (head + t)[i] != '?' by {
            if i >= head.len() {
                assert((head + t)[i] == t[i - head.len()]);
                assert(t.contains(t[i - head.len()]));
            }
        }
    }
}

/// Percent-decoding the bytes of percent-encoded bytes gives them back.
pub proof fn lemma_pct_roundtrip(b: Seq<u8>)
    ensures
        pct_decode(ascii_bytes(pct_encode(b))) == b,
    decreases b.len(),
{
    if b.len() > 0 {
        lemma_pct_roundtrip(b.skip(1));
        let c = b[0];
        let t = pct_encode(b.skip(1));
        let tb = ascii_bytes(t);
        if url_safe(c) {
            let hb = ascii_bytes(seq![c as char] + t);
            assert(pct_encode(b) == seq![c as char] + t);
            assert((c as char) as u8 == c);
            assert(hb[0] == c);
            assert(c != 0x25u8);
            assert(hb.skip(1) =~= tb);
            assert(seq![c] + b.skip(1) =~= b);
        } else {
            let h = seq!['%', upper_hex(c / 16), upper_hex(c % 16)];
            let hb = ascii_bytes(h + t);
            assert(pct_encode(b) == h + t);
            assert(hb[0] == 0x25u8);
            assert(hb[1] == (upper_hex(c / 16)) as u8);
            assert(hb[2] == (upper_hex(c % 16)) as u8);
            assert(hex_value(hb[1]) == Some((c / 16) as u8));
            assert(hex_value(hb[2]) == Some((c % 16) as u8));
            assert(hb.skip(3) =~= tb);
            assert(((c / 16) as u8 * 16 + (c % 16) as u8) as u8 == c);
            assert(seq![c] + b.skip(1) =~= b);
        }
    }
}

/// Percent-encoded text percent-decodes to the text it encodes.
pub proof fn lemma_url_decoded_encoded(s: Seq<char>)
    ensures
        url_decoded(pct_encode(encode_utf8(s))) == Ok::<Seq<char>, Seq<char>>(s),
{
    broadcast use vstd::utf8::encode_utf8_valid_utf8, vstd::utf8::encode_utf8_decode_utf8;

    let p = pct_encode(encode_utf8(s));
    lemma_pct_encode_plain(encode_utf8(s));
    vstd::utf8::is_ascii_chars_encode_utf8(p);
    assert(encode_utf8(p) =~= ascii_bytes(p));
    lemma_pct_roundtrip(encode_utf8(s));
}

/// A URI made of the scheme, a key expression without `?` and `%`, and an
/// optional query gives back that key expression and query.
pub proof fn lemma_uri_target_of(key: Seq<char>, q: Option<Seq<char>>)
    requires
        key.len() > 0,
        !key.contains('?'),
        !key.contains('%'),
    ensures
        uri_target(
            URI_SCHEME@ + key + match q {
                Some(q) => "?"@ + q,
                None => Seq::<char>::empty(),
            },
        ) == Ok::<(Seq<char>, Option<Seq<char>>), (UriErrorKind, Seq<char>)>((key, q)),
{
    reveal_strlit("zenoh:");
    reveal_strlit("?");
    let rest = match q {
        Some(q) => "?"@ + q,
        None => Seq::<char>::empty(),
    };
    let uri = URI_SCHEME@ + key + rest;
    assert(uri.take(6) =~= URI_SCHEME@);
    assert(uri.skip(6) =~= key + rest);
    lemma_url_decoded_plain(key);
    match q {
        Some(q) => {
            assert(key + rest =~= key + seq!['?'] + q);
            lemma_first_index_after(key, q, '?');
            assert((key + rest).take(key.len() as int) =~= key);
            assert((key + rest).skip(key.len() + 1int) =~= q);
        },
        None => {
            assert(key + rest =~= key);
            lemma_first_index(key, '?');
        },
    }
}

/// A query made of `&`-free parameters joined with `&` splits back into them.
pub proof fn lemma_query_of_params(ps: Seq<Seq<char>>)
    requires
        ps.len() >= 1,
        forall|i: int| 0 <= i < ps.len() ==> !(#[trigger] ps[i]).contains('&'),
    ensures
        query_params(join(ps, "&"@)) == pairs_of(ps),
{
    reveal_strlit("&");
    assert("&"@ =~= seq!['&']);
    lemma_split_join(ps, '&');
}

/// One more `name=value` piece adds that pair.
pub proof fn lemma_pairs_push(ps: Seq<Seq<char>>, k: Seq<char>, v: Seq<char>)
    requires
        !k.contains('='),
    ensures
        pairs_of(ps.push(k + seq!['='] + v)) == pairs_of(ps).push((k, v)),
{
    let p = k + seq!['='] + v;
    lemma_first_index_after(k, v, '=');
    assert(ps.push(p).drop_last() =~= ps);
    assert(p.take(k.len() as int) =~= k);
    assert(p.skip(k.len() + 1int) =~= v);
}

} // verus!
