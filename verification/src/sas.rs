//! Shared access signatures for a device identity.
//!
//! A token reads
//! `SharedAccessSignature sr={uri}&sig={signature}&se={expiry}` where `uri`
//! is the percent-encoded `{hub}/devices/{device}` and the signature is the
//! base64 text of the HMAC-SHA256 of `"{uri}\n{expiry}"` under the device key.

use vstd::prelude::*;
use vstd::string::*;
use vstd::utf8::*;
use crate::text::{decimal, push_char, push_decimal};
use hmac::{Hmac, KeyInit, Mac};
use sha2::Sha256;

verus! {

/// Upper-case hexadecimal digit of a value below sixteen.
pub open spec fn hex_upper(d: int) -> char {
    if d < 10 {
        ((d + 48) as u8) as char
    } else {
        ((d + 55) as u8) as char
    }
}

/// `%XY`, the percent escape of one byte.
pub open spec fn percent_escape(b: u8) -> Seq<char> {
    seq!['%', hex_upper(b as int / 16), hex_upper(b as int % 16)]
}

/// Bytes the resource URI escapes: control characters, `/`, and every byte
/// outside ASCII.
pub open spec fn escaped_in_resource_uri(b: u8) -> bool {
    b < 0x20 || b == 0x2f || b >= 0x7f
}

/// Percent-encoding of a byte string with the resource-URI escape set.
pub open spec fn resource_uri_encoding(bytes: Seq<u8>) -> Seq<char>
    decreases bytes.len(),
{
    if bytes.len() == 0 {
        Seq::empty()
    } else {
        let b: u8 = bytes.last();
        resource_uri_encoding(bytes.drop_last()) + if escaped_in_resource_uri(b) {
            percent_escape(b)
        } else {
            seq![b as char]
        }
    }
}

/// Bytes that `application/x-www-form-urlencoded` serialisation keeps as they are.
pub open spec fn form_unreserved(b: u8) -> bool {
    b == 0x2a || b == 0x2d || b == 0x2e || b == 0x5f || (0x30 <= b <= 0x39) || (0x41 <= b
        <= 0x5a) || (0x61 <= b <= 0x7a)
}

/// `application/x-www-form-urlencoded` serialisation of a byte string:
/// unreserved bytes stay, a space becomes `+`, every other byte `%XY`.
pub open spec fn form_encoding(bytes: Seq<u8>) -> Seq<char>
    decreases bytes.len(),
{
    if bytes.len() == 0 {
        Seq::empty()
    } else {
        let b: u8 = bytes.last();
        form_encoding(bytes.drop_last()) + if form_unreserved(b) {
            seq![b as char]
        } else if b == 0x20 {
            seq!['+']
        } else {
            percent_escape(b)
        }
    }
}

/// The character of a six-bit value in the standard base64 alphabet.
pub open spec fn base64_char(v: int) -> char {
    if v < 26 {
        ((v + 65) as u8) as char
    } else if v < 52 {
        ((v + 71) as u8) as char
    } else if v < 62 {
        ((v - 4) as u8) as char
    } else if v == 62 {
        '+'
    } else {
        '/'
    }
}

/// Standard base64 (RFC 4648, section 4) with `=` padding.
pub open spec fn base64_text(bytes: Seq<u8>) -> Seq<char>
    decreases bytes.len(),
{
    if bytes.len() == 0 {
        Seq::empty()
    } else if bytes.len() == 1 {
        let b0 = bytes[0] as int;
        seq![base64_char(b0 / 4), base64_char((b0 % 4) * 16), '=', '=']
    } else if bytes.len() == 2 {
        let b0 = bytes[0] as int;
        let b1 = bytes[1] as int;
        seq![
            base64_char(b0 / 4),
            base64_char((b0 % 4) * 16 + b1 / 16),
            base64_char((b1 % 16) * 4),
            '=',
        ]
    } else {
        let b0 = bytes[0] as int;
        let b1 = bytes[1] as int;
        let b2 = bytes[2] as int;
        seq![
            base64_char(b0 / 4),
            base64_char((b0 % 4) * 16 + b1 / 16),
            base64_char((b1 % 16) * 4 + b2 / 64),
            base64_char(b2 % 64),
        ] + base64_text(bytes.skip(3))
    }
}

/// The bytes whose standard base64 text `text` is, or nothing when it is no
/// such text. (No two byte strings share a text: `law_base64_injective`.)
pub open spec fn base64_decoded(text: Seq<char>) -> Option<Seq<u8>> {
    if exists|b: Seq<u8>| base64_text(b) == text {
        Some(choose|b: Seq<u8>| base64_text(b) == text)
    } else {
        None
    }
}

/// The HMAC-SHA256 tag of `message` under `key`.
pub uninterp spec fn hmac_sha256_tag(key: Seq<u8>, message: Seq<u8>) -> Seq<u8>;

/// `base64::decode` (standard alphabet, canonical `=` padding, no stray
/// trailing bits): the bytes whose base64 text `text` is, `None` (the crate's
/// error) when there are none.
#[verifier::external_body]
fn decode_base64(text: &str) -> (res: Option<Vec<u8>>)
    ensures
        match res {
            Some(v) => base64_text(v@) == text@,
            None => forall|b: Seq<u8>| base64_text(b) != text@,
        },
{
    #[allow(deprecated)]
    base64::decode(text).ok()
}

/// `base64::encode`: standard alphabet, padded with `=`.
#[verifier::external_body]
fn encode_base64(bytes: &[u8]) -> (res: String)
    ensures
        res@ == base64_text(bytes@),
{
    #[allow(deprecated)]
    base64::encode(bytes)
}

/// HMAC over SHA-256 (`hmac::Hmac<sha2::Sha256>`: keyed with any key length,
/// fed the message, finalised). The tag is taken by name; its length is the
/// SHA-256 output size.
#[verifier::external_body]
fn hmac_sha256(key: &[u8], message: &[u8]) -> (res: Vec<u8>)
    ensures
        res@ == hmac_sha256_tag(key@, message@),
        res@.len() == 32,
{
    let mut mac = <Hmac<Sha256> as KeyInit>::new_from_slice(key).expect("HMAC takes keys of any length");
    mac.update(message);
    mac.finalize().into_bytes().to_vec()
}

/// The upper-case hexadecimal digit of a value below sixteen.
fn hex_digit(d: u8) -> (c: char)
    requires
        d < 16,
    ensures
        c == hex_upper(d as int),
{
    if d < 10 {
        (d + 48) as char
    } else {
        (d + 55) as char
    }
}

/// Appends `%XY`, the percent escape of a byte.
fn push_percent_escape(out: &mut String, b: u8)
    ensures
        final(out)@ == old(out)@ + percent_escape(b),
{
    push_char(out, '%');
    push_char(out, hex_digit(b / 16));
    push_char(out, hex_digit(b % 16));
    assert(out@ =~= old(out)@ + percent_escape(b));
}

/// `serde_urlencoded::to_string` on a single name/value pair: both sides
/// form-encoded, joined by `=`.
#[verifier::external_body]
fn urlencode_pair(name: &str, value: &str) -> (res: Option<String>)
    ensures
        res is Some,
        res is Some ==> res->0@ == form_encoding(encode_utf8(name@)) + seq!['='] + form_encoding(
            encode_utf8(value@),
        ),
{
    serde_urlencoded::to_string([(name, value)]).ok()
}

} // verus!

verus! {

/// `{hub}/devices/{device_id}`, the resource a device token grants access to.
pub open spec fn resource_uri(hub: Seq<char>, device_id: Seq<char>) -> Seq<char> {
    hub + "/devices/"@ + device_id
}

/// The resource URI as it stands in a token: percent-encoded over its UTF-8 bytes.
pub open spec fn encoded_resource_uri(hub: Seq<char>, device_id: Seq<char>) -> Seq<char> {
    resource_uri_encoding(encode_utf8(resource_uri(hub, device_id)))
}

/// The text that is signed: the encoded resource URI, a line feed, the expiry.
pub open spec fn string_to_sign(hub: Seq<char>, device_id: Seq<char>, expiry: int) -> Seq<char> {
    encoded_resource_uri(hub, device_id) + seq!['\n'] + decimal(expiry)
}

/// The base64 text of the HMAC-SHA256 of the string to sign under `key`.
pub open spec fn signature(key: Seq<u8>, hub: Seq<char>, device_id: Seq<char>, expiry: int) -> Seq<
    char,
> {
    base64_text(hmac_sha256_tag(key, encode_utf8(string_to_sign(hub, device_id, expiry))))
}

/// The whole token for a raw key.
pub open spec fn sas_token(key: Seq<u8>, hub: Seq<char>, device_id: Seq<char>, expiry: int) -> Seq<
    char,
> {
    "SharedAccessSignature sr="@ + encoded_resource_uri(hub, device_id) + "&sig="@ + form_encoding(
        encode_utf8(signature(key, hub, device_id, expiry)),
    ) + "&se="@ + decimal(expiry)
}

fn push_resource_uri_encoding(out: &mut String, bytes: &[u8])
    ensures
        final(out)@ == old(out)@ + resource_uri_encoding(bytes@),
{
    let ghost start = out@;
    let n: usize = bytes.len();
    let mut i: usize = 0;
    while i < n
        invariant
            i <= n,
            n == bytes@.len(),
            out@ == start + resource_uri_encoding(bytes@.take(i as int)),
        decreases n - i,
    {
        let b: u8 = bytes[i];
        assert(bytes@.take(i + 1).drop_last() =~= bytes@.take(i as int));
        if b < 0x20 || b == 0x2f || b >= 0x7f {
            push_percent_escape(out, b);
        } else {
            push_char(out, b as char);
        }
        i += 1;
    }
    assert(bytes@.take(n as int) =~= bytes@);
}

/// The percent-encoded resource URI `{hub}/devices/{device_id}`: control
/// characters, `/` and non-ASCII bytes become `%XY`.
pub fn encode_resource_uri(hub: &str, device_id: &str) -> (res: String)
    ensures
        res@ == encoded_resource_uri(hub@, device_id@),
{
    let mut uri = hub.to_owned();
    uri.append("/devices/");
    uri.append(device_id);
    let mut res = String::new();
    push_resource_uri_encoding(&mut res, uri.as_str().as_bytes());
    res
}

proof fn lemma_sig_field_name()
    ensures
        form_encoding(encode_utf8("sig"@)) + seq!['='] == "sig="@,
{
    reveal_strlit("sig");
    reveal_strlit("sig=");
    assert((115u32 & 0x7F) as u8 == 115u8) by (bit_vector);
    assert((105u32 & 0x7F) as u8 == 105u8) by (bit_vector);
    assert((103u32 & 0x7F) as u8 == 103u8) by (bit_vector);
    reveal_with_fuel(encode_utf8, 4);
    assert(encode_utf8("sig"@) =~= seq![115u8, 105u8, 103u8]);
    reveal_with_fuel(form_encoding, 4);
    let b = seq![115u8, 105u8, 103u8];
    assert(b.drop_last() =~= seq![115u8, 105u8]);
    assert(b.drop_last().drop_last() =~= seq![115u8]);
    assert(b.drop_last().drop_last().drop_last() =~= Seq::<u8>::empty());
    assert(form_encoding(b) + seq!['='] =~= "sig="@);
}

/// The token for a raw key: `SharedAccessSignature sr={uri}&sig={sig}&se={expiry}`.
fn sas_for_key(hub: &str, device_id: &str, key: &[u8], expiry_timestamp: i64) -> (sas: String)
    ensures
        sas@ == sas_token(key@, hub@, device_id@, expiry_timestamp as int),
        hmac_sha256_tag(key@, encode_utf8(string_to_sign(hub@, device_id@, expiry_timestamp as int))).len()
            == 32,
{
    let uri = encode_resource_uri(hub, device_id);
    let mut to_sign = uri.clone();
    push_char(&mut to_sign, '\n');
    push_decimal(&mut to_sign, expiry_timestamp);
    let mac = hmac_sha256(key, to_sign.as_str().as_bytes());
    let sig = encode_base64(mac.as_slice());
    let token = urlencode_pair("sig", sig.as_str()).unwrap();
    proof {
        lemma_sig_field_name();
    }
    let mut sas = "SharedAccessSignature sr=".to_owned();
    sas.append(uri.as_str());
    push_char(&mut sas, '&');
    sas.append(token.as_str());
    sas.append("&se=");
    push_decimal(&mut sas, expiry_timestamp);
    proof {
        reveal_strlit("&sig=");
        reveal_strlit("sig=");
        let k = key@;
        assert(to_sign@ == string_to_sign(hub@, device_id@, expiry_timestamp as int));
        assert(sig@ == signature(k, hub@, device_id@, expiry_timestamp as int));
        assert("&sig="@ =~= seq!['&'] + "sig="@);
        let f = form_encoding(encode_utf8(sig@));
        assert(token@ == form_encoding(encode_utf8("sig"@)) + seq!['='] + f);
        assert(token@ =~= "sig="@ + f);
        assert(sas@ =~= sas_token(key@, hub@, device_id@, expiry_timestamp as int));
    }
    sas
}

/// The signed HMAC-SHA256 tag has 32 bytes, so the signature is 44 base64
/// characters, the last of them the one padding `=`, and it decodes back to
/// the tag.
pub open spec fn signature_has_tag_shape(
    key: Seq<u8>,
    hub: Seq<char>,
    device_id: Seq<char>,
    expiry: int,
) -> bool {
    let tag = hmac_sha256_tag(key, encode_utf8(string_to_sign(hub, device_id, expiry)));
    let sig = signature(key, hub, device_id, expiry);
    &&& tag.len() == 32
    &&& sig.len() == 44
    &&& sig[43] == '='
    &&& sig[42] != '='
    &&& base64_decoded(sig) == Some(tag)
}

proof fn lemma_base64_char_not_padding(v: int)
    requires
        0 <= v < 64,
    ensures
        base64_char(v) != '=',
{
    if v < 26 {
        assert(base64_char(v) as u32 == v + 65);
    } else if v < 52 {
        assert(base64_char(v) as u32 == v + 71);
    } else if v < 62 {
        assert(base64_char(v) as u32 == v - 4);
    }
}

proof fn lemma_base64_char_injective(v: int, w: int)
    requires
        0 <= v < 64,
        0 <= w < 64,
        base64_char(v) == base64_char(w),
    ensures
        v == w,
{
    assert(base64_char(v) as u32 == base64_char(w) as u32);
    if v < 26 {
        assert(base64_char(v) as u32 == v + 65);
    } else if v < 52 {
        assert(base64_char(v) as u32 == v + 71);
    } else if v < 62 {
        assert(base64_char(v) as u32 == v - 4);
    }
    if w < 26 {
        assert(base64_char(w) as u32 == w + 65);
    } else if w < 52 {
        assert(base64_char(w) as u32 == w + 71);
    } else if w < 62 {
        assert(base64_char(w) as u32 == w - 4);
    }
}

/// Two bytes whose leading base64 characters agree are equal up to the bits
/// the next character carries.
proof fn lemma_base64_split(x: int, y: int, p: int, q: int, k: int)
    requires
        0 <= x < 256,
        0 <= y < 256,
        0 <= p < k,
        0 <= q < k,
        k == 16 || k == 4 || k == 1,
        x / 4 == y / 4,
        (x % 4) * k + p == (y % 4) * k + q,
    ensures
        x == y,
        p == q,
{
}

proof fn lemma_base64_head(a: Seq<u8>)
    requires
        a.len() >= 2,
    ensures
        base64_text(a).len() >= 4,
        base64_text(a)[0] == base64_char(a[0] as int / 4),
        base64_text(a)[1] == base64_char((a[0] as int % 4) * 16 + a[1] as int / 16),
        a.len() >= 3 ==> base64_text(a)[2] == base64_char(
            (a[1] as int % 16) * 4 + a[2] as int / 64,
        ),
        a.len() >= 3 ==> base64_text(a)[3] == base64_char(a[2] as int % 64),
        a.len() >= 3 ==> base64_text(a).skip(4) == base64_text(a.skip(3)),
{
    law_base64_length(a);
    if a.len() >= 3 {
        let a0 = a[0] as int;
        let a1 = a[1] as int;
        let a2 = a[2] as int;
        let head = seq![
            base64_char(a0 / 4),
            base64_char((a0 % 4) * 16 + a1 / 16),
            base64_char((a1 % 16) * 4 + a2 / 64),
            base64_char(a2 % 64),
        ];
        assert(base64_text(a) == head + base64_text(a.skip(3)));
        assert((head + base64_text(a.skip(3)))[0] == head[0]);
        assert((head + base64_text(a.skip(3)))[1] == head[1]);
        assert((head + base64_text(a.skip(3)))[2] == head[2]);
        assert((head + base64_text(a.skip(3)))[3] == head[3]);
        assert((head + base64_text(a.skip(3))).skip(4) =~= base64_text(a.skip(3)));
    }
}

/// Different bytes have different base64 texts.
pub proof fn law_base64_injective(a: Seq<u8>, b: Seq<u8>)
    requires
        base64_text(a) == base64_text(b),
    ensures
        a == b,
    decreases a.len(),
{
    let t = base64_text(a);
    law_base64_length(a);
    law_base64_length(b);
    if a.len() == 0 || b.len() == 0 {
        assert(a.len() == 0 && b.len() == 0);
        assert(a =~= b);
        return;
    }
    let a0 = a[0] as int;
    let b0 = b[0] as int;
    if a.len() == 1 {
        if b.len() >= 2 {
            let b1 = b[1] as int;
            lemma_base64_char_not_padding((b1 % 16) * 4 + if b.len() >= 3 { b[2] as int / 64 } else { 0 });
            assert(false);
        }
        lemma_base64_char_injective(a0 / 4, b0 / 4);
        lemma_base64_char_injective((a0 % 4) * 16, (b0 % 4) * 16);
        lemma_base64_split(a0, b0, 0, 0, 16);
        assert(a =~= b);
        return;
    }
    let a1 = a[1] as int;
    if b.len() == 1 {
        lemma_base64_char_not_padding((a1 % 16) * 4 + if a.len() >= 3 { a[2] as int / 64 } else { 0 });
        assert(false);
    }
    let b1 = b[1] as int;
    lemma_base64_head(a);
    lemma_base64_head(b);
    lemma_base64_char_injective(a0 / 4, b0 / 4);
    lemma_base64_char_injective((a0 % 4) * 16 + a1 / 16, (b0 % 4) * 16 + b1 / 16);
    lemma_base64_split(a0, b0, a1 / 16, b1 / 16, 16);
    if a.len() == 2 {
        if b.len() >= 3 {
            lemma_base64_char_not_padding(b[2] as int % 64);
            assert(false);
        }
        lemma_base64_char_injective((a1 % 16) * 4, (b1 % 16) * 4);
        assert(a =~= b);
        return;
    }
    if b.len() == 2 {
        lemma_base64_char_not_padding(a[2] as int % 64);
        assert(false);
    }
    let a2 = a[2] as int;
    let b2 = b[2] as int;
    lemma_base64_char_injective((a1 % 16) * 4 + a2 / 64, (b1 % 16) * 4 + b2 / 64);
    lemma_base64_char_injective(a2 % 64, b2 % 64);
    assert(a1 == b1 && a2 == b2) by {
        assert(a1 / 16 == b1 / 16);
        assert((a1 % 16) * 4 + a2 / 64 == (b1 % 16) * 4 + b2 / 64);
        assert(a2 % 64 == b2 % 64);
    }
    law_base64_injective(a.skip(3), b.skip(3));
    assert(a =~= b) by {
        assert forall|i: int| 0 <= i < a.len() implies a[i] == b[i] by {
            if i >= 3 {
                assert(a[i] == a.skip(3)[i - 3]);
                assert(b[i] == b.skip(3)[i - 3]);
            }
        }
    }
}

/// Decoding the base64 text of some bytes gives back exactly those bytes.
pub proof fn law_base64_decodes_its_text(bytes: Seq<u8>)
    ensures
        base64_decoded(base64_text(bytes)) == Some(bytes),
{
    let text = base64_text(bytes);
    let c = choose|b: Seq<u8>| base64_text(b) == text;
    assert(base64_text(c) == text);
    law_base64_injective(c, bytes);
}

/// The resource a token names and signs is the whole hub name, `/devices/`,
/// then the whole device id: the token's `sr` field and the first line of the
/// signed text are the resource-URI encoding of the UTF-8 bytes of exactly
/// that concatenation.
pub proof fn law_token_resource_is_whole_device(
    key: Seq<u8>,
    hub: Seq<char>,
    device_id: Seq<char>,
    expiry: int,
)
    ensures
        encoded_resource_uri(hub, device_id) == resource_uri_encoding(
            encode_utf8(hub + "/devices/"@ + device_id),
        ),
        string_to_sign(hub, device_id, expiry) == resource_uri_encoding(
            encode_utf8(hub + "/devices/"@ + device_id),
        ) + seq!['\n'] + decimal(expiry),
        sas_token(key, hub, device_id, expiry) == "SharedAccessSignature sr="@
            + resource_uri_encoding(encode_utf8(hub + "/devices/"@ + device_id)) + "&sig="@
            + form_encoding(encode_utf8(signature(key, hub, device_id, expiry))) + "&se="@ + decimal(
            expiry,
        ),
{
}

/// Base64 text has four characters for every started group of three bytes.
pub proof fn law_base64_length(bytes: Seq<u8>)
    ensures
        base64_text(bytes).len() == 4 * ((bytes.len() + 2) / 3),
    decreases bytes.len(),
{
    if bytes.len() >= 3 {
        law_base64_length(bytes.skip(3));
    }
}

/// When the byte count leaves two over a multiple of three, the base64 text
/// ends in exactly one `=`.
pub proof fn law_base64_single_padding(bytes: Seq<u8>)
    requires
        bytes.len() % 3 == 2,
    ensures
        base64_text(bytes).len() >= 4,
        base64_text(bytes).last() == '=',
        base64_text(bytes)[base64_text(bytes).len() - 2] != '=',
    decreases bytes.len(),
{
    if bytes.len() == 2 {
        let b1 = bytes[1] as int;
        lemma_base64_char_not_padding((b1 % 16) * 4);
    } else {
        law_base64_single_padding(bytes.skip(3));
        let rest = base64_text(bytes.skip(3));
        let t = base64_text(bytes);
        assert(t.len() == 4 + rest.len());
        assert(t[t.len() - 1] == rest[rest.len() - 1]);
        assert(t[t.len() - 2] == rest[rest.len() - 2]);
    }
}

/// A 32-byte tag has a 44-character base64 text ending in a single `=`.
pub proof fn law_signature_of_tag_shape(tag: Seq<u8>)
    requires
        tag.len() == 32,
    ensures
        base64_text(tag).len() == 44,
        base64_text(tag)[43] == '=',
        base64_text(tag)[42] != '=',
{
    law_base64_length(tag);
    law_base64_single_padding(tag);
}

/// The shared access signature of a device, for a base64 key that decodes.
pub fn generate_sas(hub: &str, device_id: &str, key: &str, expiry_timestamp: i64) -> (sas: String)
    requires
        base64_decoded(key@) is Some,
    ensures
        sas@ == sas_token(base64_decoded(key@)->0, hub@, device_id@, expiry_timestamp as int),
        signature_has_tag_shape(
            base64_decoded(key@)->0,
            hub@,
            device_id@,
            expiry_timestamp as int,
        ),
{
    let decoded = decode_base64(key);
    proof {
        if decoded is None {
            let k = choose|b: Seq<u8>| base64_text(b) == key@;
            assert(base64_text(k) == key@);
        }
    }
    let key_bytes = decoded.unwrap();
    proof {
        law_base64_decodes_its_text(key_bytes@);
    }
    let sas = sas_for_key(hub, device_id, key_bytes.as_slice(), expiry_timestamp);
    proof {
        let tag = hmac_sha256_tag(
            key_bytes@,
            encode_utf8(string_to_sign(hub@, device_id@, expiry_timestamp as int)),
        );
        law_signature_of_tag_shape(tag);
        law_base64_decodes_its_text(tag);
    }
    sas
}

/// The shared access signature of a device, or `None` when the key is not
/// valid base64.
pub fn try_generate_sas(hub: &str, device_id: &str, key: &str, expiry_timestamp: i64) -> (res:
    Option<String>)
    ensures
        match base64_decoded(key@) {
            Some(k) => res is Some && res->0@ == sas_token(k, hub@, device_id@, expiry_timestamp as int)
                && signature_has_tag_shape(k, hub@, device_id@, expiry_timestamp as int),
            None => res is None,
        },
{
    match decode_base64(key) {
        Some(bytes) => {
            proof {
                law_base64_decodes_its_text(bytes@);
            }
            Some(generate_sas(hub, device_id, key, expiry_timestamp))
        },
        None => None,
    }
}

} // verus!

verus! {

/// A character that may stand in a single URI path segment as it is.
pub open spec fn segment_safe(c: char) -> bool {
    0x20 <= (c as u32) < 0x7f && c != '/'
}

proof fn lemma_hex_upper_safe(d: int)
    requires
        0 <= d < 16,
    ensures
        segment_safe(hex_upper(d)),
{
}

/// The encoded resource URI is one path segment of printable ASCII: no `/`,
/// no control character, nothing outside ASCII.
pub proof fn law_encoded_resource_uri_is_one_segment(bytes: Seq<u8>)
    ensures
        forall|i: int| 0 <= i < resource_uri_encoding(bytes).len() ==> segment_safe(
            #[trigger] resource_uri_encoding(bytes)[i],
        ),
    decreases bytes.len(),
{
    if bytes.len() > 0 {
        law_encoded_resource_uri_is_one_segment(bytes.drop_last());
        let b: u8 = bytes.last();
        lemma_hex_upper_safe(b as int / 16);
        lemma_hex_upper_safe(b as int % 16);
        let head = resource_uri_encoding(bytes.drop_last());
        let tail = if escaped_in_resource_uri(b) {
            percent_escape(b)
        } else {
            seq![b as char]
        };
        assert forall|i: int| 0 <= i < resource_uri_encoding(bytes).len() implies segment_safe(
            #[trigger] resource_uri_encoding(bytes)[i],
        ) by {
            if i >= head.len() {
                assert(resource_uri_encoding(bytes)[i] == tail[i - head.len()]);
            } else {
                assert(resource_uri_encoding(bytes)[i] == head[i]);
            }
        }
    }
}

/// Form encoding leaves no `&` and no `=`, so the `sig` field of a token ends
/// at the next `&`.
pub proof fn law_form_encoding_has_no_separators(bytes: Seq<u8>)
    ensures
        forall|i: int| 0 <= i < form_encoding(bytes).len() ==> #[trigger] form_encoding(bytes)[i]
            != '&' && form_encoding(bytes)[i] != '=',
    decreases bytes.len(),
{
    if bytes.len() > 0 {
        law_form_encoding_has_no_separators(bytes.drop_last());
        let b: u8 = bytes.last();
        lemma_hex_upper_safe(b as int / 16);
        lemma_hex_upper_safe(b as int % 16);
        let head = form_encoding(bytes.drop_last());
        let tail = if form_unreserved(b) {
            seq![b as char]
        } else if b == 0x20 {
            seq!['+']
        } else {
            percent_escape(b)
        };
        assert forall|i: int| 0 <= i < form_encoding(bytes).len() implies #[trigger] form_encoding(
            bytes,
        )[i] != '&' && form_encoding(bytes)[i] != '=' by {
            if i >= head.len() {
                assert(form_encoding(bytes)[i] == tail[i - head.len()]);
            } else {
                assert(form_encoding(bytes)[i] == head[i]);
            }
        }
    }
}

} // verus!
