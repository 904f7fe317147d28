//! Reading `application/x-www-form-urlencoded` text back: the inverse of the
//! encodings a token is built with, and the fields of a token.

use vstd::prelude::*;
use vstd::utf8::*;
use crate::sas::{
    escaped_in_resource_uri, form_encoding, form_unreserved, hex_upper,
    law_form_encoding_has_no_separators, percent_escape, resource_uri, resource_uri_encoding,
    sas_token, signature, encoded_resource_uri,
};
use crate::text::{decimal, find_from, has_prefix, law_decimal_digits, lemma_find_from_first, nat_digits};

verus! {

/// A hexadecimal digit, either case.
pub open spec fn is_hex_digit(c: char) -> bool {
    let v = c as u32;
    (0x30 <= v <= 0x39) || (0x41 <= v <= 0x46) || (0x61 <= v <= 0x66)
}

/// The value of a hexadecimal digit.
pub open spec fn hex_value(c: char) -> int {
    let v = c as u32;
    if v <= 0x39 {
        v - 0x30
    } else if v <= 0x46 {
        v - 0x37
    } else {
        v - 0x57
    }
}

/// Percent-decoding of form text: `%XY` with two hexadecimal digits is the
/// byte `XY`, `+` is a space, any other character stands for its UTF-8 bytes.
pub open spec fn form_decoding(s: Seq<char>) -> Seq<u8>
    decreases s.len(),
{
    if s.len() == 0 {
        Seq::empty()
    } else if s[0] == '%' && s.len() >= 3 && is_hex_digit(s[1]) && is_hex_digit(s[2]) {
        seq![(hex_value(s[1]) * 16 + hex_value(s[2])) as u8] + form_decoding(s.skip(3))
    } else if s[0] == '+' {
        seq![0x20u8] + form_decoding(s.skip(1))
    } else {
        encode_utf8(seq![s[0]]) + form_decoding(s.skip(1))
    }
}

/// The fields of form text: the pieces between the `&` separators.
pub open spec fn form_fields(s: Seq<char>) -> Seq<Seq<char>>
    decreases s.len(),
{
    let i = find_from(s, 0, '&');
    if i < 0 || i >= s.len() {
        seq![s]
    } else {
        seq![s.take(i)] + form_fields(s.skip(i + 1))
    }
}

/// A field read as a name and a value, split at its first `=`, both decoded.
pub open spec fn form_pair(field: Seq<char>) -> (Seq<u8>, Seq<u8>) {
    let j = find_from(field, 0, '=');
    if j < 0 || j >= field.len() {
        (form_decoding(field), Seq::empty())
    } else {
        (form_decoding(field.take(j)), form_decoding(field.skip(j + 1)))
    }
}

/// Form text read as a list of name/value pairs.
pub open spec fn form_data(s: Seq<char>) -> Seq<(Seq<u8>, Seq<u8>)> {
    form_fields(s).map_values(|f: Seq<char>| form_pair(f))
}

/// A byte that, left unescaped in a token field, would change how the token
/// reads as form data: `%`, `+`, `&` or `=`.
pub open spec fn form_special_byte(b: u8) -> bool {
    b == 0x25 || b == 0x2b || b == 0x26 || b == 0x3d
}

proof fn lemma_hex_upper_round_trip(d: int)
    requires
        0 <= d < 16,
    ensures
        is_hex_digit(hex_upper(d)),
        hex_value(hex_upper(d)) == d,
{
    if d < 10 {
        assert(hex_upper(d) as u32 == d + 48);
    } else {
        assert(hex_upper(d) as u32 == d + 55);
    }
}

/// An upper-case hexadecimal digit: `0`–`9` or `A`–`F`.
pub open spec fn is_upper_hex_digit(c: char) -> bool {
    let v = c as u32;
    (0x30 <= v <= 0x39) || (0x41 <= v <= 0x46)
}

/// The escape of a byte is `%` and two upper-case hexadecimal digits whose
/// value is the byte, the high digit first.
pub proof fn law_percent_escape_is_upper_hex(b: u8)
    ensures
        percent_escape(b).len() == 3,
        percent_escape(b)[0] == '%',
        is_upper_hex_digit(percent_escape(b)[1]),
        is_upper_hex_digit(percent_escape(b)[2]),
        hex_value(percent_escape(b)[1]) * 16 + hex_value(percent_escape(b)[2]) == b,
{
    lemma_hex_upper_round_trip(b as int / 16);
    lemma_hex_upper_round_trip(b as int % 16);
    let hi = b as int / 16;
    let lo = b as int % 16;
    if hi < 10 {
        assert(hex_upper(hi) as u32 == hi + 48);
    } else {
        assert(hex_upper(hi) as u32 == hi + 55);
    }
    if lo < 10 {
        assert(hex_upper(lo) as u32 == lo + 48);
    } else {
        assert(hex_upper(lo) as u32 == lo + 55);
    }
    assert(hi * 16 + lo == b as int);
}

proof fn lemma_decode_escape(b: u8, t: Seq<char>)
    ensures
        form_decoding(percent_escape(b) + t) == seq![b] + form_decoding(t),
{
    lemma_hex_upper_round_trip(b as int / 16);
    lemma_hex_upper_round_trip(b as int % 16);
    let s = percent_escape(b) + t;
    assert(s[0] == '%' && s[1] == hex_upper(b as int / 16) && s[2] == hex_upper(b as int % 16));
    assert(s.skip(3) =~= t);
    assert((b as int / 16) * 16 + b as int % 16 == b as int);
}

proof fn lemma_decode_plain(c: char, t: Seq<char>)
    requires
        c != '%',
        c != '+',
    ensures
        form_decoding(seq![c] + t) == encode_utf8(seq![c]) + form_decoding(t),
{
    let s = seq![c] + t;
    assert(s[0] == c);
    assert(s.skip(1) =~= t);
}

proof fn lemma_ascii_byte_char(b: u8)
    requires
        b < 0x80,
    ensures
        encode_utf8(seq![b as char]) == seq![b],
{
    let cs = seq![b as char];
    assert(is_ascii_chars(cs));
    is_ascii_chars_encode_utf8(cs);
    assert(encode_utf8(cs) =~= seq![b]);
}

/// Decoding undoes form encoding.
pub proof fn law_form_decoding_inverts_encoding(bytes: Seq<u8>, t: Seq<char>)
    ensures
        form_decoding(form_encoding(bytes) + t) == bytes + form_decoding(t),
    decreases bytes.len(),
{
    if bytes.len() == 0 {
        assert(form_encoding(bytes) + t =~= t);
        assert(bytes + form_decoding(t) =~= form_decoding(t));
    } else {
        let b = bytes.last();
        let init = bytes.drop_last();
        let piece = if form_unreserved(b) {
            seq![b as char]
        } else if b == 0x20 {
            seq!['+']
        } else {
            percent_escape(b)
        };
        assert(form_encoding(bytes) + t =~= form_encoding(init) + (piece + t));
        law_form_decoding_inverts_encoding(init, piece + t);
        if form_unreserved(b) {
            lemma_decode_plain(b as char, t);
            lemma_ascii_byte_char(b);
        } else if b == 0x20 {
            let s = piece + t;
            assert(s[0] == '+');
            assert(s.skip(1) =~= t);
        } else {
            lemma_decode_escape(b, t);
        }
        assert(init + (seq![b] + form_decoding(t)) =~= bytes + form_decoding(t));
    }
}

/// Decoding undoes the resource-URI encoding of bytes with no unescaped `%` or `+`.
pub proof fn law_form_decoding_inverts_uri_encoding(bytes: Seq<u8>, t: Seq<char>)
    requires
        forall|i: int| 0 <= i < bytes.len() ==> #[trigger] bytes[i] != 0x25 && bytes[i] != 0x2b,
    ensures
        form_decoding(resource_uri_encoding(bytes) + t) == bytes + form_decoding(t),
    decreases bytes.len(),
{
    if bytes.len() == 0 {
        assert(resource_uri_encoding(bytes) + t =~= t);
        assert(bytes + form_decoding(t) =~= form_decoding(t));
    } else {
        let b = bytes.last();
        let init = bytes.drop_last();
        let piece = if escaped_in_resource_uri(b) {
            percent_escape(b)
        } else {
            seq![b as char]
        };
        assert(resource_uri_encoding(bytes) + t =~= resource_uri_encoding(init) + (piece + t));
        assert(forall|i: int| 0 <= i < init.len() ==> #[trigger] init[i] == bytes[i]);
        law_form_decoding_inverts_uri_encoding(init, piece + t);
        if escaped_in_resource_uri(b) {
            lemma_decode_escape(b, t);
        } else {
            assert(bytes[bytes.len() - 1] == b);
            lemma_decode_plain(b as char, t);
            lemma_ascii_byte_char(b);
        }
        assert(init + (seq![b] + form_decoding(t)) =~= bytes + form_decoding(t));
    }
}

/// Characters other than `%` and `+` decode to their own UTF-8 bytes.
pub proof fn law_form_decoding_of_plain_text(s: Seq<char>, t: Seq<char>)
    requires
        !s.contains('%'),
        !s.contains('+'),
    ensures
        form_decoding(s + t) == encode_utf8(s) + form_decoding(t),
    decreases s.len(),
{
    if s.len() == 0 {
        assert(s + t =~= t);
        assert(encode_utf8(s) + form_decoding(t) =~= form_decoding(t));
    } else {
        let rest = s.drop_first();
        assert(!rest.contains('%')) by {
            if rest.contains('%') {
                let i = choose|i: int| 0 <= i < rest.len() && rest[i] == '%';
                assert(s[i + 1] == '%');
            }
        }
        assert(!rest.contains('+')) by {
            if rest.contains('+') {
                let i = choose|i: int| 0 <= i < rest.len() && rest[i] == '+';
                assert(s[i + 1] == '+');
            }
        }
        assert(s[0] != '%' && s[0] != '+') by {
            if s[0] == '%' || s[0] == '+' {
                assert(s.contains(s[0]));
            }
        }
        law_form_decoding_of_plain_text(rest, t);
        assert(s + t =~= seq![s[0]] + (rest + t));
        lemma_decode_plain(s[0], rest + t);
        assert(encode_utf8(seq![s[0]]) =~= encode_scalar(s[0] as u32)) by {
            reveal_with_fuel(encode_utf8, 2);
            assert(seq![s[0]][0] == s[0]);
            assert(seq![s[0]].drop_first() =~= Seq::<char>::empty());
        }
        assert(encode_utf8(s) == encode_scalar(s[0] as u32) + encode_utf8(rest));
    }
}

proof fn lemma_concat_lacks(x: Seq<char>, y: Seq<char>, c: char)
    requires
        !x.contains(c),
        !y.contains(c),
    ensures
        !(x + y).contains(c),
{
    if (x + y).contains(c) {
        let i = choose|i: int| 0 <= i < (x + y).len() && (x + y)[i] == c;
        if i < x.len() {
            assert(x[i] == c);
        } else {
            assert(y[i - x.len()] == c);
        }
    }
}

proof fn lemma_fields_cons(a: Seq<char>, x: Seq<char>)
    requires
        !a.contains('&'),
    ensures
        form_fields(a + seq!['&'] + x) == seq![a] + form_fields(x),
{
    let s = a + seq!['&'] + x;
    assert forall|j: int| 0 <= j < a.len() implies s[j] != '&' by {
        assert(s[j] == a[j]);
        if a[j] == '&' {
            assert(a.contains('&'));
        }
    }
    assert(s[a.len() as int] == '&');
    lemma_find_from_first(s, 0, a.len() as int, '&');
    assert(s.take(a.len() as int) =~= a);
    assert(s.skip(a.len() as int + 1) =~= x);
}

proof fn lemma_fields_single(c: Seq<char>)
    requires
        !c.contains('&'),
    ensures
        form_fields(c) == seq![c],
{
    assert forall|j: int| 0 <= j < c.len() implies c[j] != '&' by {
        if c[j] == '&' {
            assert(c.contains('&'));
        }
    }
    lemma_find_from_first(c, 0, c.len() as int, '&');
}

proof fn lemma_pair_split(n: Seq<char>, v: Seq<char>)
    requires
        !n.contains('='),
    ensures
        form_pair(n + seq!['='] + v) == (form_decoding(n), form_decoding(v)),
{
    let s = n + seq!['='] + v;
    assert forall|j: int| 0 <= j < n.len() implies s[j] != '=' by {
        assert(s[j] == n[j]);
        if n[j] == '=' {
            assert(n.contains('='));
        }
    }
    assert(s[n.len() as int] == '=');
    lemma_find_from_first(s, 0, n.len() as int, '=');
    assert(s.take(n.len() as int) =~= n);
    assert(s.skip(n.len() as int + 1) =~= v);
}

proof fn lemma_uri_encoding_has_no_ampersand(bytes: Seq<u8>)
    requires
        forall|i: int| 0 <= i < bytes.len() ==> #[trigger] bytes[i] != 0x26,
    ensures
        !resource_uri_encoding(bytes).contains('&'),
    decreases bytes.len(),
{
    if bytes.len() > 0 {
        let b = bytes.last();
        let init = bytes.drop_last();
        assert(forall|i: int| 0 <= i < init.len() ==> #[trigger] init[i] == bytes[i]);
        lemma_uri_encoding_has_no_ampersand(init);
        assert(bytes[bytes.len() - 1] == b);
        let piece = if escaped_in_resource_uri(b) {
            percent_escape(b)
        } else {
            seq![b as char]
        };
        lemma_hex_upper_round_trip(b as int / 16);
        lemma_hex_upper_round_trip(b as int % 16);
        assert(!piece.contains('&')) by {
            if piece.contains('&') {
                let i = choose|i: int| 0 <= i < piece.len() && piece[i] == '&';
                assert((piece[i] as u32) == 0x26);
            }
        }
        lemma_concat_lacks(resource_uri_encoding(init), piece, '&');
    }
}

proof fn lemma_form_encoding_has_no_ampersand(bytes: Seq<u8>)
    ensures
        !form_encoding(bytes).contains('&'),
{
    law_form_encoding_has_no_separators(bytes);
    if form_encoding(bytes).contains('&') {
        let i = choose|i: int| 0 <= i < form_encoding(bytes).len() && form_encoding(bytes)[i] == '&';
        assert(form_encoding(bytes)[i] != '&');
    }
}

proof fn lemma_decimal_plain(n: int)
    ensures
        !decimal(n).contains('&'),
        !decimal(n).contains('%'),
        !decimal(n).contains('+'),
{
    let m: nat = if n < 0 { (-n) as nat } else { n as nat };
    law_decimal_digits(m);
    let d = decimal(n);
    assert forall|c: char| c == '&' || c == '%' || c == '+' implies !d.contains(c) by {
        if d.contains(c) {
            let i = choose|i: int| 0 <= i < d.len() && d[i] == c;
            if n < 0 {
                if i > 0 {
                    assert(d[i] == nat_digits(m)[i - 1]);
                }
            } else {
                assert(d[i] == nat_digits(m)[i]);
            }
        }
    }
}

/// With a resource `{hub}/devices/{device id}` whose bytes hold no `%`, `+`,
/// `&` or `=`, a token reads back as form data after its
/// `SharedAccessSignature ` prefix: the fields `sr`, `sig` and `se` hold the
/// UTF-8 bytes of the whole hub name, `/devices/` and the whole device id,
/// then the signature and the expiry, in that order.
pub proof fn law_token_reads_back_as_form_data(
    key: Seq<u8>,
    hub: Seq<char>,
    device_id: Seq<char>,
    expiry: int,
)
    requires
        forall|i: int|
            0 <= i < encode_utf8(hub + "/devices/"@ + device_id).len() ==> !form_special_byte(
                #[trigger] encode_utf8(hub + "/devices/"@ + device_id)[i],
            ),
    ensures
        has_prefix(sas_token(key, hub, device_id, expiry), "SharedAccessSignature "@),
        form_data(sas_token(key, hub, device_id, expiry).skip("SharedAccessSignature "@.len() as int))
            == seq![
            (encode_utf8("sr"@), encode_utf8(hub + "/devices/"@ + device_id)),
            (encode_utf8("sig"@), encode_utf8(signature(key, hub, device_id, expiry))),
            (encode_utf8("se"@), encode_utf8(decimal(expiry))),
        ],
{
    reveal_strlit("SharedAccessSignature sr=");
    reveal_strlit("SharedAccessSignature ");
    reveal_strlit("&sig=");
    reveal_strlit("&se=");
    reveal_strlit("sr");
    reveal_strlit("sig");
    reveal_strlit("se");
    let bytes = encode_utf8(resource_uri(hub, device_id));
    let r = resource_uri_encoding(bytes);
    let sig = signature(key, hub, device_id, expiry);
    let f = form_encoding(encode_utf8(sig));
    let d = decimal(expiry);
    let p = "SharedAccessSignature "@;
    let a = "sr"@ + seq!['='] + r;
    let b = "sig"@ + seq!['='] + f;
    let c = "se"@ + seq!['='] + d;
    let rest = a + seq!['&'] + (b + seq!['&'] + c);
    let token = sas_token(key, hub, device_id, expiry);
    assert(encoded_resource_uri(hub, device_id) == r);
    assert(token =~= p + rest);
    assert(token.subrange(0, p.len() as int) =~= p);
    assert(token.skip(p.len() as int) =~= rest);

    assert forall|i: int| 0 <= i < bytes.len() implies #[trigger] bytes[i] != 0x26 && bytes[i]
        != 0x25 && bytes[i] != 0x2b by {
        assert(!form_special_byte(bytes[i]));
    }
    lemma_uri_encoding_has_no_ampersand(bytes);
    lemma_form_encoding_has_no_ampersand(encode_utf8(sig));
    lemma_decimal_plain(expiry);

    assert(!"sr"@.contains('&') && !"sr"@.contains('=') && !"sr"@.contains('%') && !"sr"@.contains('+'));
    assert(!"sig"@.contains('&') && !"sig"@.contains('=') && !"sig"@.contains('%') && !"sig"@.contains('+'));
    assert(!"se"@.contains('&') && !"se"@.contains('=') && !"se"@.contains('%') && !"se"@.contains('+'));
    assert(!seq!['='].contains('&'));
    lemma_concat_lacks("sr"@, seq!['='], '&');
    lemma_concat_lacks("sr"@ + seq!['='], r, '&');
    lemma_concat_lacks("sig"@, seq!['='], '&');
    lemma_concat_lacks("sig"@ + seq!['='], f, '&');
    lemma_concat_lacks("se"@, seq!['='], '&');
    lemma_concat_lacks("se"@ + seq!['='], d, '&');

    lemma_fields_cons(a, b + seq!['&'] + c);
    lemma_fields_cons(b, c);
    lemma_fields_single(c);
    assert(form_fields(rest) =~= seq![a, b, c]);

    lemma_pair_split("sr"@, r);
    lemma_pair_split("sig"@, f);
    lemma_pair_split("se"@, d);
    law_form_decoding_of_plain_text("sr"@, Seq::empty());
    law_form_decoding_of_plain_text("sig"@, Seq::empty());
    law_form_decoding_of_plain_text("se"@, Seq::empty());
    law_form_decoding_of_plain_text(d, Seq::empty());
    law_form_decoding_inverts_uri_encoding(bytes, Seq::empty());
    law_form_decoding_inverts_encoding(encode_utf8(sig), Seq::empty());
    assert("sr"@ + Seq::<char>::empty() =~= "sr"@);
    assert("sig"@ + Seq::<char>::empty() =~= "sig"@);
    assert("se"@ + Seq::<char>::empty() =~= "se"@);
    assert(d + Seq::<char>::empty() =~= d);
    assert(r + Seq::<char>::empty() =~= r);
    assert(f + Seq::<char>::empty() =~= f);
    assert(form_decoding(Seq::<char>::empty()) =~= Seq::<u8>::empty());
    assert(form_data(rest) =~= seq![form_pair(a), form_pair(b), form_pair(c)]);
}

} // verus!
