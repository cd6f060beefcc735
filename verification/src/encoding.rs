//! Byte encodings the sign-in flow needs: base64url without padding
//! (RFC 4648 §5) and percent-encoding of form and URI components.

use vstd::prelude::*;
use crate::text::{push_char, push_str};
use vstd::string::StringSliceAdditionalSpecFns;

verus! {

/// The base64url alphabet: `A-Z`, `a-z`, `0-9`, `-`, `_`.
pub open spec fn b64_char(i: nat) -> char {
    if i < 26 {
        (('A' as u32) + i) as char
    } else if i < 52 {
        (('a' as u32) + i - 26) as char
    } else if i < 62 {
        (('0' as u32) + i - 52) as char
    } else if i == 62 {
        '-'
    } else {
        '_'
    }
}

/// The characters base64url may produce.
pub open spec fn is_b64url_char(c: char) -> bool {
    ('A' <= c && c <= 'Z') || ('a' <= c && c <= 'z') || ('0' <= c && c <= '9') || c == '-' || c
        == '_'
}

/// The encoding of a final group of one or two bytes (no padding).
pub open spec fn b64_tail(b: Seq<u8>) -> Seq<char> {
    if b.len() == 1 {
        seq![b64_char((b[0] / 4) as nat), b64_char(((b[0] % 4) * 16) as nat)]
    } else {
        seq![
            b64_char((b[0] / 4) as nat),
            b64_char(((b[0] % 4) * 16 + b[1] / 16) as nat),
            b64_char(((b[1] % 16) * 4) as nat),
        ]
    }
}

/// The encoding of one full group of three bytes.
pub open spec fn b64_group(b0: u8, b1: u8, b2: u8) -> Seq<char> {
    seq![
        b64_char((b0 / 4) as nat),
        b64_char(((b0 % 4) * 16 + b1 / 16) as nat),
        b64_char(((b1 % 16) * 4 + b2 / 64) as nat),
        b64_char((b2 % 64) as nat),
    ]
}

/// Base64url without padding: each group of three bytes becomes four
/// characters; a final group of one or two bytes becomes two or three.
pub open spec fn b64url(b: Seq<u8>) -> Seq<char>
    decreases b.len(),
{
    if b.len() == 0 {
        Seq::empty()
    } else if b.len() < 3 {
        b64_tail(b)
    } else {
        b64_group(b[0], b[1], b[2]) + b64url(b.skip(3))
    }
}

/// The alphabet character for `i < 64`.
fn alphabet(i: u32) -> (c: char)
    requires
        i < 64,
    ensures
        c == b64_char(i as nat),
{
    if i < 26 {
        char_from(65 + i)
    } else if i < 52 {
        char_from(97 + i - 26)
    } else if i < 62 {
        char_from(48 + i - 52)
    } else if i == 62 {
        '-'
    } else {
        '_'
    }
}

/// The ASCII character with code `n < 128`.
fn char_from(n: u32) -> (c: char)
    requires
        n < 128,
    ensures
        c as u32 == n,
{
    let b: u8 = n as u8;
    b as char
}

/// Base64url without padding (RFC 4648 §5).
pub fn base64url(bytes: &[u8]) -> (out: String)
    ensures
        out@ == b64url(bytes@),
{
    let mut out = String::new();
    let mut i: usize = 0;
    assert(bytes@.skip(0) =~= bytes@);
    while bytes.len() - i >= 3
        invariant
            i <= bytes@.len(),
            out@ + b64url(bytes@.skip(i as int)) == b64url(bytes@),
        decreases bytes@.len() - i,
    {
        let b0 = bytes[i];
        let b1 = bytes[i + 1];
        let b2 = bytes[i + 2];
        let n: u32 = ((b0 as u32) << 16) | ((b1 as u32) << 8) | (b2 as u32);
        let c0 = (n >> 18) & 63;
        let c1 = (n >> 12) & 63;
        let c2 = (n >> 6) & 63;
        let c3 = n & 63;
        assert(c0 == b0 / 4 && c1 == (b0 % 4) * 16 + b1 / 16 && c2 == (b1 % 16) * 4 + b2 / 64 && c3
            == b2 % 64) by (bit_vector)
            requires
                n == ((b0 as u32) << 16) | ((b1 as u32) << 8) | (b2 as u32),
                c0 == (n >> 18) & 63,
                c1 == (n >> 12) & 63,
                c2 == (n >> 6) & 63,
                c3 == n & 63,
        ;
        let ghost before = out@;
        push_char(&mut out, alphabet(c0));
        push_char(&mut out, alphabet(c1));
        push_char(&mut out, alphabet(c2));
        push_char(&mut out, alphabet(c3));
        proof {
            let rest = bytes@.skip(i as int);
            assert(rest[0] == b0 && rest[1] == b1 && rest[2] == b2);
            assert(rest.skip(3) =~= bytes@.skip(i + 3));
            assert(out@ =~= before + b64_group(b0, b1, b2));
        }
        i = i + 3;
    }
    let left = bytes.len() - i;
    if left == 1 {
        let b0 = bytes[i];
        let n: u32 = (b0 as u32) << 16;
        let c0 = (n >> 18) & 63;
        let c1 = (n >> 12) & 63;
        assert(c0 == b0 / 4 && c1 == (b0 % 4) * 16) by (bit_vector)
            requires
                n == (b0 as u32) << 16,
                c0 == (n >> 18) & 63,
                c1 == (n >> 12) & 63,
        ;
        let ghost before = out@;
        push_char(&mut out, alphabet(c0));
        push_char(&mut out, alphabet(c1));
        proof {
            let rest = bytes@.skip(i as int);
            assert(rest.len() == 1 && rest[0] == b0);
            assert(out@ =~= before + b64_tail(rest));
        }
    } else if left == 2 {
        let b0 = bytes[i];
        let b1 = bytes[i + 1];
        let n: u32 = ((b0 as u32) << 16) | ((b1 as u32) << 8);
        let c0 = (n >> 18) & 63;
        let c1 = (n >> 12) & 63;
        let c2 = (n >> 6) & 63;
        assert(c0 == b0 / 4 && c1 == (b0 % 4) * 16 + b1 / 16 && c2 == (b1 % 16) * 4) by (
        bit_vector)
            requires
                n == ((b0 as u32) << 16) | ((b1 as u32) << 8),
                c0 == (n >> 18) & 63,
                c1 == (n >> 12) & 63,
                c2 == (n >> 6) & 63,
        ;
        let ghost before = out@;
        push_char(&mut out, alphabet(c0));
        push_char(&mut out, alphabet(c1));
        push_char(&mut out, alphabet(c2));
        proof {
            let rest = bytes@.skip(i as int);
            assert(rest.len() == 2 && rest[0] == b0 && rest[1] == b1);
            assert(out@ =~= before + b64_tail(rest));
        }
    } else {
        assert(bytes@.skip(i as int).len() == 0);
        assert(out@ =~= out@ + b64url(bytes@.skip(i as int)));
    }
    out
}

proof fn lemma_b64_char(i: nat)
    requires
        i < 64,
    ensures
        is_b64url_char(b64_char(i)),
{
}

/// Base64url output only ever uses the URL-safe alphabet (never `+`, `/`
/// or `=`), and has `4⌊n/3⌋` characters plus two or three for a final
/// group of one or two bytes.
pub proof fn law_base64url_is_url_safe(b: Seq<u8>)
    ensures
        forall|i: int| 0 <= i < b64url(b).len() ==> is_b64url_char(#[trigger] b64url(b)[i]),
        b64url(b).len() == 4 * (b.len() / 3) + if b.len() % 3 == 0 {
            0
        } else {
            b.len() % 3 + 1
        },
    decreases b.len(),
{
    if b.len() == 0 {
    } else if b.len() < 3 {
        lemma_b64_char((b[0] / 4) as nat);
        if b.len() == 1 {
            lemma_b64_char(((b[0] % 4) * 16) as nat);
        } else {
            lemma_b64_char(((b[0] % 4) * 16 + b[1] / 16) as nat);
            lemma_b64_char(((b[1] % 16) * 4) as nat);
        }
    } else {
        law_base64url_is_url_safe(b.skip(3));
        lemma_b64_char((b[0] / 4) as nat);
        lemma_b64_char(((b[0] % 4) * 16 + b[1] / 16) as nat);
        lemma_b64_char(((b[1] % 16) * 4 + b[2] / 64) as nat);
        lemma_b64_char((b[2] % 64) as nat);
        let g = b64_group(b[0], b[1], b[2]);
        let r = b64url(b.skip(3));
        assert forall|i: int| 0 <= i < b64url(b).len() implies is_b64url_char(
            #[trigger] b64url(b)[i],
        ) by {
            if i < 4 {
                assert(b64url(b)[i] == g[i]);
            } else {
                assert(b64url(b)[i] == r[i - 4]);
            }
        }
    }
}

/// Bytes that travel unescaped in a form value: `A-Z a-z 0-9 - . _ ~`.
pub open spec fn form_unreserved(b: u8) -> bool {
    (65 <= b <= 90) || (97 <= b <= 122) || (48 <= b <= 57) || b == 45 || b == 46 || b == 95 || b
        == 126
}

/// Bytes that travel unescaped in a URI component (`encodeURIComponent`):
/// the form set plus `! * ' ( )`.
pub open spec fn uri_unreserved(b: u8) -> bool {
    form_unreserved(b) || b == 33 || b == 42 || b == 39 || b == 40 || b == 41
}

/// The upper-case hexadecimal digit of `d < 16`.
pub open spec fn hex_upper(d: nat) -> char {
    if d < 10 {
        (('0' as u32) + d) as char
    } else {
        (('A' as u32) + d - 10) as char
    }
}

/// One byte, percent-encoded unless `keep` says it travels as itself.
pub open spec fn pct_byte(b: u8, keep: bool) -> Seq<char> {
    if keep {
        seq![b as char]
    } else {
        seq!['%', hex_upper((b / 16) as nat), hex_upper((b % 16) as nat)]
    }
}

/// Percent-encoding of `bytes`, keeping the form-unreserved bytes
/// (`uri == false`) or the URI-unreserved bytes (`uri == true`).
pub open spec fn pct_encoded(bytes: Seq<u8>, uri: bool) -> Seq<char>
    decreases bytes.len(),
{
    if bytes.len() == 0 {
        Seq::empty()
    } else {
        let b = bytes.last();
        pct_encoded(bytes.drop_last(), uri) + pct_byte(
            b,
            if uri {
                uri_unreserved(b)
            } else {
                form_unreserved(b)
            },
        )
    }
}

/// `s` percent-encoded as a form value.
pub open spec fn form_escaped(s: Seq<char>) -> Seq<char> {
    pct_encoded(vstd::utf8::encode_utf8(s), false)
}

/// `s` percent-encoded as a URI component.
pub open spec fn uri_escaped(s: Seq<char>) -> Seq<char> {
    pct_encoded(vstd::utf8::encode_utf8(s), true)
}

/// Characters that structure a form body or a URL: `&`, `=`, `+`, `#`,
/// `?`, `/` and space.
pub open spec fn is_structural(c: char) -> bool {
    c == '&' || c == '=' || c == '+' || c == '#' || c == '?' || c == '/' || c == ' '
}

proof fn lemma_pct_byte_plain(b: u8, keep: bool)
    requires
        keep ==> uri_unreserved(b),
    ensures
        forall|i: int| 0 <= i < pct_byte(b, keep).len() ==> !is_structural(#[trigger] pct_byte(b, keep)[i]),
{
    if !keep {
        let hi = (b / 16) as nat;
        let lo = (b % 16) as nat;
        assert(!is_structural(hex_upper(hi)));
        assert(!is_structural(hex_upper(lo)));
    }
}

/// Percent-encoding leaves no character that could split a form body or
/// a URL: no `&`, `=`, `+`, `#`, `?`, `/` or space survives in an escaped
/// form value or URI component.
pub proof fn law_escaped_values_cannot_split(bytes: Seq<u8>, uri: bool)
    ensures
        forall|i: int|
            0 <= i < pct_encoded(bytes, uri).len() ==> !is_structural(
                #[trigger] pct_encoded(bytes, uri)[i],
            ),
    decreases bytes.len(),
{
    if bytes.len() > 0 {
        let b = bytes.last();
        let head = pct_encoded(bytes.drop_last(), uri);
        let tail = pct_byte(
            b,
            if uri {
                uri_unreserved(b)
            } else {
                form_unreserved(b)
            },
        );
        law_escaped_values_cannot_split(bytes.drop_last(), uri);
        lemma_pct_byte_plain(
            b,
            if uri {
                uri_unreserved(b)
            } else {
                form_unreserved(b)
            },
        );
        assert forall|i: int| 0 <= i < pct_encoded(bytes, uri).len() implies !is_structural(
            #[trigger] pct_encoded(bytes, uri)[i],
        ) by {
            if i < head.len() {
                assert(pct_encoded(bytes, uri)[i] == head[i]);
            } else {
                assert(pct_encoded(bytes, uri)[i] == tail[i - head.len()]);
            }
        }
    }
}

/// The exec form of `hex_upper`.
fn hex_digit_upper(d: u8) -> (c: char)
    requires
        d < 16,
    ensures
        c == hex_upper(d as nat),
{
    if d < 10 {
        char_from(48 + d as u32)
    } else {
        char_from(65 + d as u32 - 10)
    }
}

/// Percent-encode the UTF-8 bytes of `value`, keeping the unreserved set.
fn percent_encode(value: &str, uri: bool) -> (out: String)
    ensures
        out@ == pct_encoded(value.spec_bytes(), uri),
{
    let bytes = value.as_bytes();
    let mut out = String::new();
    let mut i: usize = 0;
    assert(bytes@.take(0) =~= Seq::<u8>::empty());
    while i < bytes.len()
        invariant
            i <= bytes@.len(),
            bytes@ == value.spec_bytes(),
            out@ == pct_encoded(bytes@.take(i as int), uri),
        decreases bytes@.len() - i,
    {
        let b = bytes[i];
        let form_keep = (65 <= b && b <= 90) || (97 <= b && b <= 122) || (48 <= b && b <= 57) || b
            == 45 || b == 46 || b == 95 || b == 126;
        let keep = form_keep || (uri && (b == 33 || b == 42 || b == 39 || b == 40 || b == 41));
        let ghost before = out@;
        if keep {
            push_char(&mut out, char_from(b as u32));
        } else {
            push_char(&mut out, '%');
            push_char(&mut out, hex_digit_upper(b / 16));
            push_char(&mut out, hex_digit_upper(b % 16));
        }
        proof {
            assert(bytes@.take(i + 1).drop_last() =~= bytes@.take(i as int));
            assert(bytes@.take(i + 1).last() == b);
            assert(out@ =~= before + pct_byte(
                b,
                if uri {
                    uri_unreserved(b)
                } else {
                    form_unreserved(b)
                },
            ));
        }
        i = i + 1;
    }
    assert(bytes@.take(bytes@.len() as int) =~= bytes@);
    out
}

/// Percent-encode one form value: every byte but the unreserved set.
pub fn form_component(value: &str) -> (out: String)
    ensures
        out@ == form_escaped(value@),
{
    percent_encode(value, false)
}

/// Percent-encode one URI component, as `encodeURIComponent` does.
pub fn uri_component(value: &str) -> (out: String)
    ensures
        out@ == uri_escaped(value@),
{
    percent_encode(value, true)
}

/// The pairs `key=value` (value form-encoded) joined by `&`.
pub open spec fn form_body(pairs: Seq<(Seq<char>, Seq<char>)>) -> Seq<char>
    decreases pairs.len(),
{
    if pairs.len() == 0 {
        Seq::empty()
    } else if pairs.len() == 1 {
        pairs[0].0 + "="@ + form_escaped(pairs[0].1)
    } else {
        form_body(pairs.drop_last()) + "&"@ + pairs.last().0 + "="@ + form_escaped(pairs.last().1)
    }
}

/// The keys and value bytes of form pairs.
pub open spec fn form_pairs(pairs: Seq<(&str, &str)>) -> Seq<(Seq<char>, Seq<char>)> {
    pairs.map_values(|p: (&str, &str)| (p.0@, p.1@))
}

proof fn lemma_form_step(ps: Seq<(Seq<char>, Seq<char>)>, i: int)
    requires
        0 <= i < ps.len(),
    ensures
        form_body(ps.take(i + 1)) == (if i == 0 {
            Seq::<char>::empty()
        } else {
            form_body(ps.take(i)) + "&"@
        }) + ps[i].0 + "="@ + form_escaped(ps[i].1),
{
    let t = ps.take(i + 1);
    assert(t.drop_last() =~= ps.take(i));
    assert(t.last() == ps[i]);
    if i == 0 {
        assert(t.len() == 1);
        assert(t[0] == ps[0]);
        assert(form_body(t) =~= Seq::<char>::empty() + ps[i].0 + "="@ + form_escaped(ps[i].1));
    } else {
        assert(form_body(t) =~= form_body(ps.take(i)) + "&"@ + ps[i].0 + "="@ + form_escaped(
            ps[i].1,
        ));
    }
}

/// An `application/x-www-form-urlencoded` body from pairs.
pub fn form_encode(pairs: &[(&str, &str)]) -> (out: String)
    ensures
        out@ == form_body(form_pairs(pairs@)),
{
    let ghost ps = form_pairs(pairs@);
    let mut out = String::new();
    let mut i: usize = 0;
    assert(ps.take(0) =~= Seq::<(Seq<char>, Seq<char>)>::empty());
    while i < pairs.len()
        invariant
            i <= pairs@.len(),
            ps == form_pairs(pairs@),
            out@ == form_body(ps.take(i as int)),
        decreases pairs@.len() - i,
    {
        let (k, v) = pairs[i];
        let ghost before = out@;
        if i > 0 {
            push_str(&mut out, "&");
        }
        let ghost sep = out@;
        push_str(&mut out, k);
        push_str(&mut out, "=");
        let enc = form_component(v);
        push_str(&mut out, enc.as_str());
        proof {
            assert(ps[i as int] == (k@, v@));
            lemma_form_step(ps, i as int);
            if i == 0 {
                assert(sep =~= Seq::<char>::empty());
            } else {
                assert(sep == before + "&"@);
            }
            assert(out@ =~= sep + k@ + "="@ + enc@);
        }
        i = i + 1;
    }
    assert(ps.take(pairs@.len() as int) =~= ps);
    out
}

} // verus!
