//! PEM as the certificate generator writes it, and the proof that reading it
//! back gives the DER bytes that were written.
use vstd::prelude::*;

use crate::cert::{
    PemError, base64_decoded, base64_sextets, base64_value, pem_begin_marker, pem_decoded, pem_end_marker,
    pem_markers_in_order, sextets_to_bytes,
};
use crate::text::{find_from, first_occurrence, is_white_space, occurs_at, strip_whitespace};

verus! {

/// The character of a 6-bit value in the standard base64 alphabet.
pub open spec fn base64_char(v: u8) -> char {
    if v < 26 {
        (65 + v) as char
    } else if v < 52 {
        (97 + v - 26) as char
    } else if v < 62 {
        (48 + v - 52) as char
    } else if v == 62 {
        '+'
    } else {
        '/'
    }
}

/// Standard base64 (RFC 4648) with `=` padding: every three bytes become four
/// characters; a last group of one or two bytes is padded to four.
pub open spec fn base64_encoded(b: Seq<u8>) -> Seq<char>
    decreases b.len(),
{
    if b.len() == 0 {
        Seq::empty()
    } else if b.len() == 1 {
        seq![base64_char(b[0] >> 2u8), base64_char((b[0] & 3u8) << 4u8), '=', '=']
    } else if b.len() == 2 {
        seq![
            base64_char(b[0] >> 2u8),
            base64_char(((b[0] & 3u8) << 4u8) | (b[1] >> 4u8)),
            base64_char((b[1] & 15u8) << 2u8),
            '=',
        ]
    } else {
        seq![
            base64_char(b[0] >> 2u8),
            base64_char(((b[0] & 3u8) << 4u8) | (b[1] >> 4u8)),
            base64_char(((b[1] & 15u8) << 2u8) | (b[2] >> 6u8)),
            base64_char(b[2] & 63u8),
        ] + base64_encoded(b.skip(3))
    }
}

/// The line ending: `\r\n` on Windows, `\n` elsewhere.
pub open spec fn line_ending(crlf: bool) -> Seq<char> {
    if crlf {
        seq!['\r', '\n']
    } else {
        seq!['\n']
    }
}

/// The text cut into lines of `width` characters (the last may be shorter),
/// each ended by `le`; with width 0, one line.
pub open spec fn wrapped_lines_at(s: Seq<char>, le: Seq<char>, width: nat) -> Seq<char>
    decreases s.len(),
{
    if s.len() == 0 {
        Seq::empty()
    } else if width == 0 || s.len() <= width {
        s + le
    } else {
        s.subrange(0, width as int) + le + wrapped_lines_at(s.skip(width as int), le, width)
    }
}

/// A PEM block without headers: the begin line, the base64 of the DER in lines
/// of `width` characters, the end line, each line ended the same way.
pub open spec fn pem_encoded_at(label: Seq<char>, der: Seq<u8>, crlf: bool, width: nat) -> Seq<
    char,
> {
    pem_begin_marker(label) + line_ending(crlf) + wrapped_lines_at(
        base64_encoded(der),
        line_ending(crlf),
        width,
    ) + pem_end_marker(label) + line_ending(crlf)
}

/// A PEM block as the certificate generator writes it: base64 lines of 64 characters.
pub open spec fn pem_encoded(label: Seq<char>, der: Seq<u8>, crlf: bool) -> Seq<char> {
    pem_encoded_at(label, der, crlf, 64)
}

// ─── Whitespace ─────────────────────────────────────────────────────────────

proof fn lemma_strip_concat(a: Seq<char>, b: Seq<char>)
    ensures
        strip_whitespace(a + b) == strip_whitespace(a) + strip_whitespace(b),
    decreases b.len(),
{
    if b.len() == 0 {
        assert(a + b =~= a);
        assert(strip_whitespace(a) + strip_whitespace(b) =~= strip_whitespace(a));
    } else {
        assert((a + b).drop_last() =~= a + b.drop_last());
        assert((a + b).last() == b.last());
        lemma_strip_concat(a, b.drop_last());
        if is_white_space(b.last()) {
        } else {
            assert(strip_whitespace(a) + strip_whitespace(b.drop_last()).push(b.last())
                =~= (strip_whitespace(a) + strip_whitespace(b.drop_last())).push(b.last()));
        }
    }
}

proof fn lemma_strip_no_whitespace(s: Seq<char>)
    requires
        forall|k: int| 0 <= k < s.len() ==> !is_white_space(#[trigger] s[k]),
    ensures
        strip_whitespace(s) == s,
    decreases s.len(),
{
    if s.len() > 0 {
        let t = s.drop_last();
        assert forall|k: int| 0 <= k < t.len() implies !is_white_space(#[trigger] t[k]) by {
            assert(t[k] == s[k]);
        }
        lemma_strip_no_whitespace(t);
        assert(!is_white_space(s[s.len() - 1]));
        assert(t.push(s.last()) =~= s);
    }
}

proof fn lemma_strip_line_ending(crlf: bool)
    ensures
        strip_whitespace(line_ending(crlf)) == Seq::<char>::empty(),
{
    let le = line_ending(crlf);
    assert(is_white_space('\n') && is_white_space('\r'));
    if crlf {
        assert(le.last() == '\n');
        assert(le.drop_last() =~= seq!['\r']);
        assert(le.drop_last().last() == '\r');
        assert(le.drop_last().drop_last() =~= Seq::<char>::empty());
        assert(strip_whitespace(le.drop_last().drop_last()) =~= Seq::<char>::empty());
        assert(strip_whitespace(le.drop_last()) =~= Seq::<char>::empty());
    } else {
        assert(le.last() == '\n');
        assert(le.drop_last() =~= Seq::<char>::empty());
        assert(strip_whitespace(le.drop_last()) =~= Seq::<char>::empty());
    }
}

proof fn lemma_strip_wrapped(s: Seq<char>, crlf: bool, width: nat)
    ensures
        strip_whitespace(wrapped_lines_at(s, line_ending(crlf), width)) == strip_whitespace(s),
    decreases s.len(),
{
    let le = line_ending(crlf);
    lemma_strip_line_ending(crlf);
    if s.len() == 0 {
    } else if width == 0 || s.len() <= width {
        lemma_strip_concat(s, le);
        assert(strip_whitespace(s) + Seq::<char>::empty() =~= strip_whitespace(s));
    } else {
        let head = s.subrange(0, width as int);
        let tail = s.skip(width as int);
        lemma_strip_wrapped(tail, crlf, width);
        lemma_strip_concat(head + le, wrapped_lines_at(tail, le, width));
        lemma_strip_concat(head, le);
        lemma_strip_concat(head, tail);
        assert(head + tail =~= s);
        assert(strip_whitespace(head) + Seq::<char>::empty() =~= strip_whitespace(head));
    }
}

// ─── Base64 ─────────────────────────────────────────────────────────────────

proof fn lemma_base64_char_value(v: u8)
    requires
        v < 64,
    ensures
        base64_value(base64_char(v)) == Some(v),
        base64_char(v) != '=',
        !is_white_space(base64_char(v)),
        base64_char(v) != '-',
{
}

/// A character that base64 text holds: one of the alphabet, or `=`.
pub open spec fn base64_text_char(c: char) -> bool {
    base64_value(c) is Some || c == '='
}

/// The four 6-bit values of three bytes are below 64.
proof fn lemma_sextet_bounds(b0: u8, b1: u8, b2: u8)
    by (bit_vector)
    ensures
        b0 >> 2u8 < 64u8,
        (b0 & 3u8) << 4u8 < 64u8,
        ((b0 & 3u8) << 4u8) | (b1 >> 4u8) < 64u8,
        (b1 & 15u8) << 2u8 < 64u8,
        ((b1 & 15u8) << 2u8) | (b2 >> 6u8) < 64u8,
        b2 & 63u8 < 64u8,
{
}

proof fn lemma_base64_encoded_chars(b: Seq<u8>)
    ensures
        forall|k: int|
            0 <= k < base64_encoded(b).len() ==> base64_text_char(#[trigger] base64_encoded(b)[k]),
    decreases b.len(),
{
    let e = base64_encoded(b);
    if b.len() == 0 {
    } else if b.len() == 1 {
        lemma_sextet_bounds(b[0], 0, 0);
        lemma_base64_char_value(b[0] >> 2u8);
        lemma_base64_char_value((b[0] & 3u8) << 4u8);
    } else if b.len() == 2 {
        lemma_sextet_bounds(b[0], b[1], 0);
        lemma_base64_char_value(b[0] >> 2u8);
        lemma_base64_char_value(((b[0] & 3u8) << 4u8) | (b[1] >> 4u8));
        lemma_base64_char_value((b[1] & 15u8) << 2u8);
    } else {
        let (b0, b1, b2) = (b[0], b[1], b[2]);
        lemma_sextet_bounds(b0, b1, b2);
        lemma_base64_char_value(b0 >> 2u8);
        lemma_base64_char_value(((b0 & 3u8) << 4u8) | (b1 >> 4u8));
        lemma_base64_char_value(((b1 & 15u8) << 2u8) | (b2 >> 6u8));
        lemma_base64_char_value(b2 & 63u8);
        lemma_base64_encoded_chars(b.skip(3));
        let g = seq![
            base64_char(b0 >> 2u8),
            base64_char(((b0 & 3u8) << 4u8) | (b1 >> 4u8)),
            base64_char(((b1 & 15u8) << 2u8) | (b2 >> 6u8)),
            base64_char(b2 & 63u8),
        ];
        assert forall|k: int| 0 <= k < e.len() implies base64_text_char(#[trigger] e[k]) by {
            if k >= 4 {
                assert(e[k] == base64_encoded(b.skip(3))[k - 4]);
            } else {
                assert(e[k] == g[k]);
            }
        }
    }
}

proof fn lemma_sextets_concat(a: Seq<char>, b: Seq<char>, x: Seq<u8>, y: Seq<u8>)
    requires
        base64_sextets(a) == Ok::<Seq<u8>, char>(x),
        base64_sextets(b) == Ok::<Seq<u8>, char>(y),
    ensures
        base64_sextets(a + b) == Ok::<Seq<u8>, char>(x + y),
    decreases b.len(),
{
    if b.len() == 0 {
        assert(a + b =~= a);
        assert(y =~= Seq::<u8>::empty());
        assert(x + y =~= x);
    } else {
        assert((a + b).drop_last() =~= a + b.drop_last());
        assert((a + b).last() == b.last());
        let c = b.last();
        match base64_sextets(b.drop_last()) {
            Ok(y0) => {
                lemma_sextets_concat(a, b.drop_last(), x, y0);
                if c == '=' {
                } else {
                    let v = base64_value(c).unwrap();
                    assert(y == y0.push(v));
                    assert(x + y0.push(v) =~= (x + y0).push(v));
                }
            },
            Err(_) => {},
        }
    }
}

proof fn lemma_sextets_to_bytes_concat(v: Seq<u8>, w: Seq<u8>)
    requires
        v.len() % 4 == 0,
    ensures
        sextets_to_bytes(v + w) == sextets_to_bytes(v) + sextets_to_bytes(w),
    decreases w.len(),
{
    if w.len() == 0 {
        assert(v + w =~= v);
        assert(sextets_to_bytes(v) + sextets_to_bytes(w) =~= sextets_to_bytes(v));
    } else {
        let vw = v + w;
        assert(vw.drop_last() =~= v + w.drop_last());
        lemma_sextets_to_bytes_concat(v, w.drop_last());
        let n = vw.len();
        let m = w.len();
        assert((n - 1) % 4 == (m - 1) % 4);
        assert(vw[n - 1] == w[m - 1]);
        if m >= 2 {
            assert(vw[n - 2] == w[m - 2]);
        }
        let p = sextets_to_bytes(v);
        let q = sextets_to_bytes(w.drop_last());
        if (m - 1) % 4 != 0 {
            assert(m >= 2);
            assert((p + q).push(sextets_to_bytes(w).last()) =~= p + sextets_to_bytes(w));
        }
    }
}

/// Three bytes survive their round trip through four 6-bit values.
proof fn lemma_group_bits(b0: u8, b1: u8, b2: u8)
    by (bit_vector)
    ensures
        ((b0 >> 2u8) << 2u8) | ((((b0 & 3u8) << 4u8) | (b1 >> 4u8)) >> 4u8) == b0,
        ((((b0 & 3u8) << 4u8) | (b1 >> 4u8)) << 4u8) | ((((b1 & 15u8) << 2u8) | (b2 >> 6u8))
            >> 2u8) == b1,
        ((((b1 & 15u8) << 2u8) | (b2 >> 6u8)) << 6u8) | (b2 & 63u8) == b2,
        ((b0 >> 2u8) << 2u8) | (((b0 & 3u8) << 4u8) >> 4u8) == b0,
        ((((b0 & 3u8) << 4u8) | (b1 >> 4u8)) << 4u8) | (((b1 & 15u8) << 2u8) >> 2u8) == b1,
{
}

/// The 6-bit values of characters all in the alphabet.
pub open spec fn values_of(cs: Seq<char>) -> Seq<u8> {
    cs.map_values(|c: char| base64_value(c).unwrap())
}

proof fn lemma_sextets_of_alphabet(cs: Seq<char>)
    requires
        forall|k: int| 0 <= k < cs.len() ==> base64_value(#[trigger] cs[k]) is Some,
    ensures
        base64_sextets(cs) == Ok::<Seq<u8>, char>(values_of(cs)),
    decreases cs.len(),
{
    if cs.len() > 0 {
        let t = cs.drop_last();
        assert forall|k: int| 0 <= k < t.len() implies base64_value(#[trigger] t[k]) is Some by {
            assert(t[k] == cs[k]);
        }
        lemma_sextets_of_alphabet(t);
        assert(base64_value(cs[cs.len() - 1]) is Some);
        assert(values_of(t).push(base64_value(cs.last()).unwrap()) =~= values_of(cs));
    } else {
        assert(values_of(cs) =~= Seq::<u8>::empty());
    }
}

proof fn lemma_sextets_skip_padding(cs: Seq<char>)
    ensures
        base64_sextets(cs.push('=')) == base64_sextets(cs),
{
    assert(cs.push('=').drop_last() =~= cs);
}

/// Decoding standard base64 gives back the encoded bytes.
pub proof fn lemma_base64_round_trip(b: Seq<u8>)
    ensures
        base64_decoded(base64_encoded(b)) == Ok::<Seq<u8>, char>(b),
    decreases b.len(),
{
    let e = base64_encoded(b);
    if b.len() == 0 {
        assert(sextets_to_bytes(Seq::<u8>::empty()) =~= b);
    } else if b.len() == 1 {
        let b0 = b[0];
        lemma_sextet_bounds(b0, 0, 0);
        lemma_group_bits(b0, 0, 0);
        let s0 = b0 >> 2u8;
        let s1 = (b0 & 3u8) << 4u8;
        lemma_base64_char_value(s0);
        lemma_base64_char_value(s1);
        let c2 = seq![base64_char(s0), base64_char(s1)];
        assert(e =~= c2.push('=').push('='));
        lemma_sextets_of_alphabet(c2);
        lemma_sextets_skip_padding(c2);
        lemma_sextets_skip_padding(c2.push('='));
        let v = seq![s0, s1];
        assert(values_of(c2) =~= v);
        assert(v.drop_last() =~= seq![s0]);
        assert(seq![s0].drop_last() =~= Seq::<u8>::empty());
        assert(sextets_to_bytes(Seq::<u8>::empty()) =~= Seq::<u8>::empty());
        assert(sextets_to_bytes(seq![s0]) =~= Seq::<u8>::empty());
        assert(sextets_to_bytes(v) =~= b);
    } else if b.len() == 2 {
        let (b0, b1) = (b[0], b[1]);
        lemma_sextet_bounds(b0, b1, 0);
        lemma_group_bits(b0, b1, 0);
        let s0 = b0 >> 2u8;
        let s1 = ((b0 & 3u8) << 4u8) | (b1 >> 4u8);
        let s2 = (b1 & 15u8) << 2u8;
        lemma_base64_char_value(s0);
        lemma_base64_char_value(s1);
        lemma_base64_char_value(s2);
        let c3 = seq![base64_char(s0), base64_char(s1), base64_char(s2)];
        assert(e =~= c3.push('='));
        lemma_sextets_of_alphabet(c3);
        lemma_sextets_skip_padding(c3);
        let v = seq![s0, s1, s2];
        assert(values_of(c3) =~= v);
        assert(v.drop_last() =~= seq![s0, s1]);
        assert(seq![s0, s1].drop_last() =~= seq![s0]);
        assert(seq![s0].drop_last() =~= Seq::<u8>::empty());
        assert(sextets_to_bytes(Seq::<u8>::empty()) =~= Seq::<u8>::empty());
        assert(sextets_to_bytes(seq![s0]) =~= Seq::<u8>::empty());
        assert(sextets_to_bytes(seq![s0, s1]) =~= seq![b0]);
        assert(sextets_to_bytes(v) =~= b);
    } else {
        let (b0, b1, b2) = (b[0], b[1], b[2]);
        lemma_sextet_bounds(b0, b1, b2);
        lemma_group_bits(b0, b1, b2);
        let s0 = b0 >> 2u8;
        let s1 = ((b0 & 3u8) << 4u8) | (b1 >> 4u8);
        let s2 = ((b1 & 15u8) << 2u8) | (b2 >> 6u8);
        let s3 = b2 & 63u8;
        lemma_base64_char_value(s0);
        lemma_base64_char_value(s1);
        lemma_base64_char_value(s2);
        lemma_base64_char_value(s3);
        let g = seq![base64_char(s0), base64_char(s1), base64_char(s2), base64_char(s3)];
        let rest = base64_encoded(b.skip(3));
        assert(e == g + rest);
        lemma_sextets_of_alphabet(g);
        let q = seq![s0, s1, s2, s3];
        assert(values_of(g) =~= q);
        assert(q.drop_last() =~= seq![s0, s1, s2]);
        assert(seq![s0, s1, s2].drop_last() =~= seq![s0, s1]);
        assert(seq![s0, s1].drop_last() =~= seq![s0]);
        assert(seq![s0].drop_last() =~= Seq::<u8>::empty());
        assert(sextets_to_bytes(Seq::<u8>::empty()) =~= Seq::<u8>::empty());
        assert(sextets_to_bytes(seq![s0]) =~= Seq::<u8>::empty());
        assert(sextets_to_bytes(seq![s0, s1]) =~= seq![b0]);
        assert(sextets_to_bytes(seq![s0, s1, s2]) =~= seq![b0, b1]);
        assert(sextets_to_bytes(q) =~= seq![b0, b1, b2]);
        lemma_base64_round_trip(b.skip(3));
        let y = base64_sextets(rest).unwrap();
        lemma_sextets_concat(g, rest, q, y);
        lemma_sextets_to_bytes_concat(q, y);
        assert(seq![b0, b1, b2] + b.skip(3) =~= b);
    }
}

/// The text without its `=` characters.
pub open spec fn without_padding(s: Seq<char>) -> Seq<char>
    decreases s.len(),
{
    if s.len() == 0 {
        s
    } else if s.last() == '=' {
        without_padding(s.drop_last())
    } else {
        without_padding(s.drop_last()).push(s.last())
    }
}

proof fn lemma_sextets_without_padding(s: Seq<char>)
    ensures
        base64_sextets(without_padding(s)) == base64_sextets(s),
    decreases s.len(),
{
    if s.len() > 0 {
        lemma_sextets_without_padding(s.drop_last());
        if s.last() != '=' {
            let w = without_padding(s.drop_last()).push(s.last());
            assert(w.drop_last() =~= without_padding(s.drop_last()));
        }
    }
}

/// `=` counts for nothing wherever it stands: a text decodes as it does with
/// its `=` characters left out. So standard base64 with its padding left off
/// decodes to the encoded bytes as well.
pub proof fn law_padding_is_optional(s: Seq<char>, b: Seq<u8>)
    ensures
        base64_decoded(without_padding(s)) == base64_decoded(s),
        base64_decoded(without_padding(base64_encoded(b))) == Ok::<Seq<u8>, char>(b),
{
    lemma_sextets_without_padding(s);
    lemma_sextets_without_padding(base64_encoded(b));
    lemma_base64_round_trip(b);
}

// ─── Markers ────────────────────────────────────────────────────────────────

proof fn lemma_find_from_first(s: Seq<char>, pat: Seq<char>, k: int, p: int)
    requires
        0 <= k <= p,
        occurs_at(s, pat, p),
        forall|i: int| k <= i < p ==> !occurs_at(s, pat, i),
    ensures
        find_from(s, pat, k) == Some(p),
    decreases p - k,
{
    if k < p {
        assert(!occurs_at(s, pat, k));
        lemma_find_from_first(s, pat, k + 1, p);
    }
}

proof fn lemma_base64_text_char_facts(c: char)
    requires
        base64_text_char(c),
    ensures
        !is_white_space(c),
        c != '-',
{
}

proof fn lemma_wrapped_chars(s: Seq<char>, le: Seq<char>, width: nat)
    ensures
        forall|k: int|
            0 <= k < wrapped_lines_at(s, le, width).len() ==> s.contains(
                #[trigger] wrapped_lines_at(s, le, width)[k],
            ) || le.contains(wrapped_lines_at(s, le, width)[k]),
    decreases s.len(),
{
    let w = wrapped_lines_at(s, le, width);
    if s.len() == 0 {
    } else if width == 0 || s.len() <= width {
        assert forall|k: int| 0 <= k < w.len() implies s.contains(#[trigger] w[k]) || le.contains(
            w[k],
        ) by {
            if k < s.len() {
                assert(w[k] == s[k]);
            } else {
                assert(w[k] == le[k - s.len()]);
            }
        }
    } else {
        let n = width as int;
        let tail = s.skip(n);
        lemma_wrapped_chars(tail, le, width);
        let wt = wrapped_lines_at(tail, le, width);
        assert forall|k: int| 0 <= k < w.len() implies s.contains(#[trigger] w[k]) || le.contains(
            w[k],
        ) by {
            if k < n {
                assert(w[k] == s[k]);
            } else if k < n + le.len() {
                assert(w[k] == le[k - n]);
            } else {
                assert(w[k] == wt[k - n - le.len()]);
                if tail.contains(wt[k - n - le.len()]) {
                    let j = choose|j: int| 0 <= j < tail.len() && tail[j] == wt[k - n - le.len()];
                    assert(s[j + n] == tail[j]);
                }
            }
        }
    }
}

proof fn lemma_white_space_not_e(c: char)
    requires
        is_white_space(c),
    ensures
        c != 'E',
        c != '-',
{
}

/// A PEM text reads back as the DER bytes whose base64 its body holds, however
/// the body is laid out: the begin marker, then a body that starts on a new
/// line (with whitespace) and holds lines of any width, empty ones too, with
/// any line endings or other whitespace, and no `-`; then the end marker, then
/// anything. Its markers stand in order, and
/// it decodes to those bytes. An empty DER written with an empty body line
/// (`-----BEGIN L-----\n\n-----END L-----\n`) reads back as no bytes. The
/// label must not hold `-` (else an end marker could hide inside the begin line).
pub proof fn law_pem_text_round_trip(
    label: Seq<char>,
    der: Seq<u8>,
    body: Seq<char>,
    rest: Seq<char>,
)
    requires
        forall|k: int| 0 <= k < label.len() ==> label[k] != '-',
        body.len() > 0,
        is_white_space(body[0]),
        forall|k: int| 0 <= k < body.len() ==> body[k] != '-',
        strip_whitespace(body) == base64_encoded(der),
    ensures
        pem_markers_in_order(
            pem_begin_marker(label) + body + pem_end_marker(label) + rest,
            label,
        ),
        pem_decoded(pem_begin_marker(label) + body + pem_end_marker(label) + rest, label)
            == Ok::<Seq<u8>, PemError>(der),
{
    reveal_strlit("-----BEGIN ");
    reveal_strlit("-----END ");
    reveal_strlit("-----");
    let b = pem_begin_marker(label);
    let e = pem_end_marker(label);
    let pem = b + body + e + rest;
    let lb = b.len() as int;
    let p = lb + body.len();
    assert(lb == 16 + label.len());
    assert forall|k: int| lb <= k < p implies #[trigger] pem[k] != '-' by {
        assert(pem[k] == body[k - lb]);
    }
    assert(pem[lb] == body[0]);
    assert(body[0] != 'E') by {
        lemma_white_space_not_e(body[0]);
    }
    assert(forall|k: int| 0 <= k < lb ==> #[trigger] pem[k] == b[k]);
    assert forall|k: int| 5 <= k < lb - 5 implies #[trigger] b[k] != '-' by {
        if k >= 11 {
            assert(b[k] == label[k - 11]);
        }
    }
    // the begin marker stands first
    assert(pem.subrange(0, lb) =~= b);
    assert(occurs_at(pem, b, 0));
    assert(first_occurrence(pem, b) == Some(0int));
    // the end marker stands first right after the body
    assert(pem.subrange(p, p + e.len()) =~= e);
    assert(occurs_at(pem, e, p));
    assert forall|i: int| 0 <= i < p implies !occurs_at(pem, e, i) by {
        if occurs_at(pem, e, i) {
            let sub = pem.subrange(i, i + e.len());
            assert(sub == e);
            assert(forall|j: int| 0 <= j < e.len() ==> #[trigger] pem[i + j] == sub[j]);
            assert(pem[i] == e[0]);
            assert(pem[i + 4] == e[4]);
            assert(pem[i + 5] == e[5]);
            if i >= lb {
            } else if i + 5 >= lb {
                assert(pem[lb] == e[lb - i]);
                assert(e[lb - i] == '-' || e[lb - i] == 'E');
            } else {
                // inside the begin marker only its first five characters are
                // followed by four more `-`, and there `B` stands, not `E`
                assert(b[i] == '-');
                assert(b[i + 4] == '-');
                assert(i == 0);
                assert(b[5] == 'B');
            }
        }
    }
    lemma_find_from_first(pem, e, 0, p);
    assert(first_occurrence(pem, e) == Some(p));
    // the body is the base64 text once whitespace is dropped
    assert(pem.subrange(lb, p) =~= body);
    lemma_base64_round_trip(der);
}

/// A PEM block reads back as the DER bytes written, whatever the width of its
/// base64 lines (64 as the certificate generator writes them, or any other) and
/// whichever line ending: its markers stand in order, and the body decodes to
/// those bytes. The label must not hold `-`.
pub proof fn law_pem_round_trip(label: Seq<char>, der: Seq<u8>, crlf: bool, width: nat)
    requires
        forall|k: int| 0 <= k < label.len() ==> label[k] != '-',
    ensures
        pem_markers_in_order(pem_encoded_at(label, der, crlf, width), label),
        pem_decoded(pem_encoded_at(label, der, crlf, width), label) == Ok::<Seq<u8>, PemError>(
            der,
        ),
{
    let le = line_ending(crlf);
    let text = base64_encoded(der);
    let w = wrapped_lines_at(text, le, width);
    let body = le + w;
    // the characters of the body
    lemma_base64_encoded_chars(der);
    lemma_wrapped_chars(text, le, width);
    assert forall|k: int| 0 <= k < body.len() implies #[trigger] body[k] != '-' by {
        if k < le.len() {
            assert(body[k] == le[k]);
        } else {
            assert(body[k] == w[k - le.len()]);
            let c = w[k - le.len()];
            if text.contains(c) {
                let j = choose|j: int| 0 <= j < text.len() && text[j] == c;
                assert(base64_text_char(text[j]));
                lemma_base64_text_char_facts(c);
            } else {
                let j = choose|j: int| 0 <= j < le.len() && le[j] == c;
            }
        }
    }
    // the body is the base64 text once whitespace is dropped
    lemma_strip_concat(le, w);
    lemma_strip_line_ending(crlf);
    lemma_strip_wrapped(text, crlf, width);
    assert forall|k: int| 0 <= k < text.len() implies !is_white_space(#[trigger] text[k]) by {
        lemma_base64_text_char_facts(text[k]);
    }
    lemma_strip_no_whitespace(text);
    assert(strip_whitespace(body) =~= text);
    law_pem_text_round_trip(label, der, body, le);
    assert(is_white_space(body[0]));
    assert(pem_encoded_at(label, der, crlf, width) =~= pem_begin_marker(label) + body
        + pem_end_marker(label) + le);
}

} // verus!
