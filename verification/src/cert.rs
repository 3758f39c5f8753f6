use vstd::prelude::*;
use vstd::string::*;
use vstd::utf8::*;

use crate::pem_encoding::{law_pem_round_trip, pem_encoded};
use crate::text::{
    char_is_whitespace, chars_of, find_chars, first_occurrence, lemma_find_from_occurs,
    string_from_chars, strip_whitespace, str_to_uppercase, to_uppercase, colon_joined,
    join_with_colons, push_char, all_ascii, ascii_upper,
};

verus! {

/// Why a PEM block could not be turned into DER bytes.
#[derive(Debug, Clone, Copy, PartialEq, Eq, Structural)]
pub enum PemError {
    /// The `-----BEGIN <label>-----` line is missing.
    BeginMarkerNotFound,
    /// The `-----END <label>-----` line is missing.
    EndMarkerNotFound,
    /// A character of the body is neither whitespace, `=`, nor in the base64 alphabet.
    InvalidBase64Character(char),
}

// ─── Base64 (standard alphabet) ─────────────────────────────────────────────

/// The 6-bit value of a character of the standard base64 alphabet.
pub open spec fn base64_value(c: char) -> Option<u8> {
    if 'A' <= c && c <= 'Z' {
        Some((c as u32 - 'A' as u32) as u8)
    } else if 'a' <= c && c <= 'z' {
        Some((c as u32 - 'a' as u32 + 26) as u8)
    } else if '0' <= c && c <= '9' {
        Some((c as u32 - '0' as u32 + 52) as u8)
    } else if c == '+' {
        Some(62u8)
    } else if c == '/' {
        Some(63u8)
    } else {
        None
    }
}

/// The 6-bit values that a base64 text carries: every `=` is skipped, and the
/// first character outside the alphabet makes the whole text invalid.
pub open spec fn base64_sextets(s: Seq<char>) -> Result<Seq<u8>, char>
    decreases s.len(),
{
    if s.len() == 0 {
        Ok(Seq::empty())
    } else {
        match base64_sextets(s.drop_last()) {
            Err(c) => Err(c),
            Ok(v) => if s.last() == '=' {
                Ok(v)
            } else {
                match base64_value(s.last()) {
                    Some(x) => Ok(v.push(x)),
                    None => Err(s.last()),
                }
            },
        }
    }
}

/// Bytes of a stream of 6-bit values read as one big-endian bit string:
/// in each group of four values, the second, third and fourth each complete
/// one byte together with the value before them; bits that do not fill a
/// whole byte at the end are dropped.
pub open spec fn sextets_to_bytes(v: Seq<u8>) -> Seq<u8>
    decreases v.len(),
{
    if v.len() == 0 {
        Seq::empty()
    } else {
        let prev = sextets_to_bytes(v.drop_last());
        let n = v.len();
        let pos = (n - 1) % 4;
        if pos == 0 {
            prev
        } else if pos == 1 {
            prev.push(((v[n - 2] << 2u8) | (v[n - 1] >> 4u8)) as u8)
        } else if pos == 2 {
            prev.push(((v[n - 2] << 4u8) | (v[n - 1] >> 2u8)) as u8)
        } else {
            prev.push(((v[n - 2] << 6u8) | v[n - 1]) as u8)
        }
    }
}

/// What decoding a base64 text gives: its bytes, or the first offending character.
pub open spec fn base64_decoded(s: Seq<char>) -> Result<Seq<u8>, char> {
    match base64_sextets(s) {
        Ok(v) => Ok(sextets_to_bytes(v)),
        Err(c) => Err(c),
    }
}

/// Once a prefix of a text holds an invalid character, so does the text,
/// and it is that same character that is reported.
proof fn lemma_sextets_error_persists(s: Seq<char>, i: int)
    requires
        0 <= i <= s.len(),
        base64_sextets(s.subrange(0, i)) is Err,
    ensures
        base64_sextets(s) == base64_sextets(s.subrange(0, i)),
    decreases s.len() - i,
{
    if i < s.len() {
        assert(s.drop_last().subrange(0, i) =~= s.subrange(0, i));
        lemma_sextets_error_persists(s.drop_last(), i);
    } else {
        assert(s.subrange(0, i) =~= s);
    }
}

/// Skipping whitespace never makes a text longer.
pub proof fn lemma_strip_whitespace_len(s: Seq<char>)
    ensures
        strip_whitespace(s).len() <= s.len(),
    decreases s.len(),
{
    if s.len() > 0 {
        lemma_strip_whitespace_len(s.drop_last());
    }
}

/// A text carries at most one 6-bit value per character, and those values give
/// at most one byte each.
pub proof fn lemma_base64_decoded_len(s: Seq<char>)
    ensures
        base64_decoded(s) matches Ok(bytes) ==> bytes.len() <= s.len(),
    decreases s.len(),
{
    lemma_sextets_len(s);
    if let Ok(v) = base64_sextets(s) {
        lemma_sextets_to_bytes_len(v);
    }
}

proof fn lemma_sextets_len(s: Seq<char>)
    ensures
        base64_sextets(s) matches Ok(v) ==> v.len() <= s.len(),
    decreases s.len(),
{
    if s.len() > 0 {
        lemma_sextets_len(s.drop_last());
    }
}

proof fn lemma_sextets_to_bytes_len(v: Seq<u8>)
    ensures
        sextets_to_bytes(v).len() <= v.len(),
    decreases v.len(),
{
    if v.len() > 0 {
        lemma_sextets_to_bytes_len(v.drop_last());
    }
}

/// The DER of a PEM block is never longer than the PEM text.
pub proof fn lemma_pem_decoded_len(pem: Seq<char>, label: Seq<char>)
    requires
        pem_markers_in_order(pem, label),
    ensures
        pem_decoded(pem, label) matches Ok(der) ==> der.len() <= pem.len(),
{
    lemma_find_from_occurs(pem, pem_begin_marker(label), 0);
    lemma_find_from_occurs(pem, pem_end_marker(label), 0);
    if let (Some(b), Some(e)) = (
        first_occurrence(pem, pem_begin_marker(label)),
        first_occurrence(pem, pem_end_marker(label)),
    ) {
        let body = pem.subrange(b + pem_begin_marker(label).len(), e);
        lemma_strip_whitespace_len(body);
        lemma_base64_decoded_len(strip_whitespace(body));
    }
}

fn base64_value_of(c: char) -> (r: Option<u8>)
    ensures
        r == base64_value(c),
{
    if 'A' <= c && c <= 'Z' {
        Some((c as u32 - 'A' as u32) as u8)
    } else if 'a' <= c && c <= 'z' {
        Some((c as u32 - 'a' as u32 + 26) as u8)
    } else if '0' <= c && c <= '9' {
        Some((c as u32 - '0' as u32 + 52) as u8)
    } else if c == '+' {
        Some(62u8)
    } else if c == '/' {
        Some(63u8)
    } else {
        None
    }
}

/// Decodes standard base64; `=` is skipped wherever it stands, and leftover
/// bits that do not make a whole byte are dropped.
pub fn base64_decode(input: &str) -> (r: Result<Vec<u8>, PemError>)
    ensures
        match base64_decoded(input@) {
            Ok(bytes) => r matches Ok(out) && out@ == bytes,
            Err(c) => r == Err::<Vec<u8>, PemError>(PemError::InvalidBase64Character(c)),
        },
{
    let chars = chars_of(input);
    let mut out: Vec<u8> = Vec::new();
    let mut buf: u32 = 0;
    let mut bits: u32 = 0;
    let ghost mut vals: Seq<u8> = Seq::empty();
    let mut i: usize = 0;
    while i < chars.len()
        invariant
            i <= chars@.len(),
            chars@ == input@,
            base64_sextets(input@.subrange(0, i as int)) == Ok::<Seq<u8>, char>(vals),
            out@ == sextets_to_bytes(vals),
            forall|k: int| 0 <= k < vals.len() ==> vals[k] < 64,
            vals.len() % 4 == 0 ==> bits == 0 && buf == 0,
            vals.len() % 4 == 1 ==> bits == 6 && buf == vals.last() as u32,
            vals.len() % 4 == 2 ==> bits == 4 && buf == (vals.last() & 15u8) as u32,
            vals.len() % 4 == 3 ==> bits == 2 && buf == (vals.last() & 3u8) as u32,
        decreases chars@.len() - i,
    {
        let c = chars[i];
        let ghost prefix = input@.subrange(0, i as int);
        assert(input@.subrange(0, i + 1).drop_last() =~= prefix);
        if c == '=' {
            i = i + 1;
            continue;
        }
        let x = match base64_value_of(c) {
            Some(x) => x,
            None => {
                proof {
                    lemma_sextets_error_persists(input@, i + 1);
                }
                return Err(PemError::InvalidBase64Character(c));
            },
        };
        assert(x < 64);
        let ghost old_vals = vals;
        proof {
            vals = vals.push(x);
        }
        assert(vals.drop_last() =~= old_vals);
        let xv = x as u32;
        if bits == 0 {
            buf = xv;
            bits = 6;
        } else if bits == 6 {
            let ghost a = old_vals.last();
            assert(buf == a as u32);
            let nb = (buf << 6u32) | xv;
            let byte = #[verifier::truncate] ((nb >> 4u32) as u8);
            assert(byte == ((a << 2u8) | (x >> 4u8)) as u8 && (nb & 15u32) == (x & 15u8) as u32)
                by (bit_vector)
                requires
                    a < 64u8,
                    x < 64u8,
                    buf == a as u32,
                    xv == x as u32,
                    nb == (buf << 6u32) | xv,
                    byte == (nb >> 4u32) as u8,
            ;
            out.push(byte);
            buf = nb & 15u32;
            bits = 4;
        } else if bits == 4 {
            let ghost a = old_vals.last();
            let nb = (buf << 6u32) | xv;
            let byte = #[verifier::truncate] ((nb >> 2u32) as u8);
            assert(byte == ((a << 4u8) | (x >> 2u8)) as u8 && (nb & 3u32) == (x & 3u8) as u32)
                by (bit_vector)
                requires
                    a < 64u8,
                    x < 64u8,
                    buf == (a & 15u8) as u32,
                    xv == x as u32,
                    nb == (buf << 6u32) | xv,
                    byte == (nb >> 2u32) as u8,
            ;
            out.push(byte);
            buf = nb & 3u32;
            bits = 2;
        } else {
            let ghost a = old_vals.last();
            let nb = (buf << 6u32) | xv;
            let byte = #[verifier::truncate] (nb as u8);
            assert(byte == ((a << 6u8) | x) as u8)
                by (bit_vector)
                requires
                    a < 64u8,
                    x < 64u8,
                    buf == (a & 3u8) as u32,
                    xv == x as u32,
                    nb == (buf << 6u32) | xv,
                    byte == nb as u8,
            ;
            out.push(byte);
            buf = 0;
            bits = 0;
        }
        i = i + 1;
    }
    assert(input@.subrange(0, i as int) =~= input@);
    Ok(out)
}

// ─── PEM ────────────────────────────────────────────────────────────────────

/// `-----BEGIN <label>-----`
pub open spec fn pem_begin_marker(label: Seq<char>) -> Seq<char> {
    "-----BEGIN "@ + label + "-----"@
}

/// `-----END <label>-----`
pub open spec fn pem_end_marker(label: Seq<char>) -> Seq<char> {
    "-----END "@ + label + "-----"@
}

/// Where both markers stand, the first end marker does not start before the
/// first begin marker is over (else the body cannot be cut out of the text).
pub open spec fn pem_markers_in_order(pem: Seq<char>, label: Seq<char>) -> bool {
    match (
        first_occurrence(pem, pem_begin_marker(label)),
        first_occurrence(pem, pem_end_marker(label)),
    ) {
        (Some(b), Some(e)) => b + pem_begin_marker(label).len() <= e,
        _ => true,
    }
}

/// Whether the PEM text can be cut at its markers for the label (the condition
/// under which `pem_to_der` reads it).
pub fn pem_markers_ordered(pem: &str, label: &str) -> (b: bool)
    ensures
        b == pem_markers_in_order(pem@, label@),
{
    let mut begin = String::from_str("-----BEGIN ");
    begin.append(label);
    begin.append("-----");
    let mut end = String::from_str("-----END ");
    end.append(label);
    end.append("-----");
    let text = chars_of(pem);
    let begin_chars = chars_of(begin.as_str());
    let end_chars = chars_of(end.as_str());
    assert(begin_chars@ == pem_begin_marker(label@));
    assert(end_chars@ == pem_end_marker(label@));
    let b = match find_chars(text.as_slice(), begin_chars.as_slice()) {
        Some(b) => b,
        None => return true,
    };
    let n = text.len();
    assert(b + begin_chars@.len() <= n);
    match find_chars(text.as_slice(), end_chars.as_slice()) {
        Some(e) => b + begin_chars.len() <= e,
        None => true,
    }
}

/// The DER bytes of the block with the given label: the text between the first
/// begin marker and the first end marker, without whitespace, base64-decoded.
pub open spec fn pem_decoded(pem: Seq<char>, label: Seq<char>) -> Result<Seq<u8>, PemError> {
    match first_occurrence(pem, pem_begin_marker(label)) {
        None => Err(PemError::BeginMarkerNotFound),
        Some(b) => match first_occurrence(pem, pem_end_marker(label)) {
            None => Err(PemError::EndMarkerNotFound),
            Some(e) => match base64_decoded(
                strip_whitespace(pem.subrange(b + pem_begin_marker(label).len(), e)),
            ) {
                Ok(der) => Ok(der),
                Err(c) => Err(PemError::InvalidBase64Character(c)),
            },
        },
    }
}

/// Parses a PEM block with the given label to raw DER bytes.
pub fn pem_to_der(pem: &str, label: &str) -> (r: Result<Vec<u8>, PemError>)
    requires
        pem_markers_in_order(pem@, label@),
    ensures
        match pem_decoded(pem@, label@) {
            Ok(der) => r matches Ok(v) && v@ == der,
            Err(e) => r == Err::<Vec<u8>, PemError>(e),
        },
{
    let mut begin = String::from_str("-----BEGIN ");
    begin.append(label);
    begin.append("-----");
    let mut end = String::from_str("-----END ");
    end.append(label);
    end.append("-----");
    let text = chars_of(pem);
    let begin_chars = chars_of(begin.as_str());
    let end_chars = chars_of(end.as_str());
    assert(begin_chars@ == pem_begin_marker(label@));
    assert(end_chars@ == pem_end_marker(label@));
    let b = match find_chars(text.as_slice(), begin_chars.as_slice()) {
        Some(b) => b,
        None => return Err(PemError::BeginMarkerNotFound),
    };
    let n = text.len();
    assert(b + begin_chars@.len() <= n);
    let start = b + begin_chars.len();
    let finish = match find_chars(text.as_slice(), end_chars.as_slice()) {
        Some(e) => e,
        None => return Err(PemError::EndMarkerNotFound),
    };
    assert(finish + end_chars@.len() <= n);
    assert(first_occurrence(pem@, pem_begin_marker(label@)) == Some(b as int));
    assert(first_occurrence(pem@, pem_end_marker(label@)) == Some(finish as int));
    assert(start <= finish);
    let mut body: Vec<char> = Vec::new();
    let mut k: usize = start;
    while k < finish
        invariant
            start <= k <= finish <= text@.len(),
            body@ == strip_whitespace(text@.subrange(start as int, k as int)),
        decreases finish - k,
    {
        let c = text[k];
        assert(text@.subrange(start as int, k + 1).drop_last() =~= text@.subrange(
            start as int,
            k as int,
        ));
        if !char_is_whitespace(c) {
            body.push(c);
        }
        k = k + 1;
    }
    let b64 = string_from_chars(body.as_slice());
    base64_decode(b64.as_str())
}

// ─── Digest and hex ─────────────────────────────────────────────────────────

/// The SHA-256 digest of `data`, as `ring::digest` computes it.
pub uninterp spec fn sha256(data: Seq<u8>) -> Seq<u8>;

/// Inputs of at least 2^61 bytes have no SHA-256 bit length, and `ring` panics on them.
pub open spec fn sha256_input_ok(data: Seq<u8>) -> bool {
    data.len() < 0x2000_0000_0000_0000
}

/// `ring::digest::digest(&SHA256, data)`: the result is named by `sha256` and
/// has the 32 bytes of a SHA-256 output.
#[verifier::external_body]
fn sha256_digest(data: &[u8]) -> (d: Vec<u8>)
    requires
        sha256_input_ok(data@),
    ensures
        d@ == sha256(data@),
        d@.len() == 32,
{
    ring::digest::digest(&ring::digest::SHA256, data).as_ref().to_vec()
}

/// The lowercase hexadecimal digit for a value below 16.
pub open spec fn hex_digit(n: u8) -> char {
    if n < 10 {
        (48 + n) as char
    } else {
        (87 + n) as char
    }
}

/// Lowercase hexadecimal text of bytes: two digits per byte, high nibble first.
pub open spec fn hex_lower(bytes: Seq<u8>) -> Seq<char>
    decreases bytes.len(),
{
    if bytes.len() == 0 {
        Seq::empty()
    } else {
        hex_lower(bytes.drop_last()) + seq![
            hex_digit(bytes.last() >> 4u8),
            hex_digit(bytes.last() & 15u8),
        ]
    }
}

/// A lowercase hexadecimal digit.
pub open spec fn is_lower_hex(c: char) -> bool {
    ('0' <= c && c <= '9') || ('a' <= c && c <= 'f')
}

/// Hex text is made of lowercase hex digits, two per byte.
pub proof fn lemma_hex_lower_digits(bytes: Seq<u8>)
    ensures
        forall|i: int| 0 <= i < hex_lower(bytes).len() ==> is_lower_hex(#[trigger] hex_lower(bytes)[i]),
        hex_lower(bytes).len() == 2 * bytes.len(),
    decreases bytes.len(),
{
    if bytes.len() > 0 {
        lemma_hex_lower_digits(bytes.drop_last());
        let b = bytes.last();
        let hi = b >> 4u8;
        let lo = b & 15u8;
        assert(hi < 16) by (bit_vector)
            requires
                hi == b >> 4u8,
        ;
        assert(lo < 16) by (bit_vector)
            requires
                lo == b & 15u8,
        ;
        let front = hex_lower(bytes.drop_last());
        let h = hex_lower(bytes);
        assert forall|i: int| 0 <= i < h.len() implies is_lower_hex(#[trigger] h[i]) by {
            if i < front.len() {
                assert(h[i] == front[i]);
            }
        }
    }
}


/// `hex::encode`: two lowercase hexadecimal digits per byte, high nibble first.
#[verifier::external_body]
fn hex_encode(data: &[u8]) -> (s: String)
    ensures
        s@ == hex_lower(data@),
{
    hex::encode(data)
}

// ─── Certificate ────────────────────────────────────────────────────────────

#[verifier::external_type_specification]
#[verifier::external_body]
pub struct ExRcgenKeyPair(rcgen::KeyPair);

#[verifier::external_type_specification]
#[verifier::external_body]
pub struct ExRcgenCertificateParams(rcgen::CertificateParams);

#[verifier::external_type_specification]
#[verifier::external_body]
pub struct ExRcgenCertificate(rcgen::Certificate);

#[verifier::external_type_specification]
#[verifier::external_body]
pub struct ExRcgenError(rcgen::Error);

/// `rcgen::KeyPair::generate`: a fresh random ECDSA P-256 key pair.
#[verifier::external_body]
fn generate_key_pair() -> (r: Result<rcgen::KeyPair, rcgen::Error>) {
    rcgen::KeyPair::generate()
}

/// `rcgen::CertificateParams::new`: default parameters for the given subject alt names.
#[verifier::external_body]
fn certificate_params(names: Vec<String>) -> (r: Result<rcgen::CertificateParams, rcgen::Error>) {
    rcgen::CertificateParams::new(names)
}

/// `rcgen::CertificateParams::self_signed`: signs the parameters with the key (the
/// ECDSA signature draws a random nonce).
#[verifier::external_body]
fn self_sign(params: rcgen::CertificateParams, key: &rcgen::KeyPair) -> (r: Result<
    rcgen::Certificate,
    rcgen::Error,
>) {
    params.self_signed(key)
}

/// `rcgen::Certificate::der` (copied out) and `rcgen::Certificate::pem` of the
/// same certificate. rcgen writes the PEM with `pem::encode_config` of
/// `Pem::new("CERTIFICATE", der)`: no headers, standard base64 in lines of 64
/// characters, `\n` line endings (`\r\n` on Windows).
#[verifier::external_body]
fn certificate_der_and_pem(cert: &rcgen::Certificate) -> (r: (Vec<u8>, String))
    ensures
        exists|crlf: bool| r.1@ == pem_encoded("CERTIFICATE"@, r.0@, crlf),
{
    (cert.der().to_vec(), cert.pem())
}

/// `rcgen::KeyPair::serialize_pem`: the PKCS#8 DER of the key written as by
/// `pem::encode_config` of `Pem::new("PRIVATE KEY", der)` (the same layout as
/// the certificate). rcgen panics here only for remote key pairs, which
/// `KeyPair::generate` never makes; this is called on generated keys only.
#[verifier::external_body]
fn key_pair_pem(key: &rcgen::KeyPair) -> (pem: String)
    ensures
        exists|der: Seq<u8>, crlf: bool| pem@ == pem_encoded("PRIVATE KEY"@, der, crlf),
{
    key.serialize_pem()
}

/// Why a server certificate could not be made, read or used.
#[derive(Debug, Clone, Copy, PartialEq, Eq, Structural)]
pub enum CertError {
    /// The random key pair could not be generated.
    KeyGeneration,
    /// The certificate parameters were refused.
    Parameters,
    /// The certificate could not be self-signed.
    SelfSigning,
    /// The certificate PEM did not decode.
    CertificatePem(PemError),
    /// The private key PEM did not decode (under either label).
    KeyPem(PemError),
}

/// The fingerprint the server shows and the client checks: lowercase hex of the
/// SHA-256 digest of the certificate's DER bytes.
pub open spec fn fingerprint_of(der: Seq<u8>) -> Seq<char> {
    hex_lower(sha256(der))
}

/// What a freshly generated certificate is like: both texts are PEM blocks as
/// rcgen writes them, the certificate block holding `cert_der`, and the
/// fingerprint is that of `cert_der`.
pub open spec fn is_generated_certificate(c: ServerCert) -> bool {
    &&& exists|crlf: bool| c.cert_pem@ == pem_encoded("CERTIFICATE"@, c.cert_der@, crlf)
    &&& exists|der: Seq<u8>, crlf: bool| c.key_pem@ == pem_encoded("PRIVATE KEY"@, der, crlf)
    &&& c.cert_hash@ == fingerprint_of(c.cert_der@)
    &&& sha256(c.cert_der@).len() == 32
    &&& c.cert_hash@.len() == 64
}

/// The server's TLS identity.
pub struct ServerCert {
    pub cert_pem: String,
    pub key_pem: String,
    /// SHA-256 hex of `cert_der`, shown in the UI and typed in the client.
    pub cert_hash: String,
    pub cert_der: Vec<u8>,
}

/// The subject alternative names of the server certificate: `syber-server`,
/// the name the client dials.
pub fn server_names() -> (v: Vec<String>)
    ensures
        v@.len() == 1,
        v@[0]@ == "syber-server"@,
{
    let mut names: Vec<String> = Vec::new();
    names.push(String::from_str("syber-server"));
    names
}

impl ServerCert {
    /// The certificate with its fingerprint computed from its DER bytes.
    pub fn assemble(cert_pem: String, key_pem: String, cert_der: Vec<u8>) -> (c: ServerCert)
        requires
            sha256_input_ok(cert_der@),
        ensures
            c.cert_pem@ == cert_pem@,
            c.key_pem@ == key_pem@,
            c.cert_der@ == cert_der@,
            c.cert_hash@ == fingerprint_of(cert_der@),
            sha256(c.cert_der@).len() == 32,
            c.cert_hash@.len() == 64,
    {
        let digest = sha256_digest(cert_der.as_slice());
        let cert_hash = hex_encode(digest.as_slice());
        proof {
            lemma_hex_lower_digits(digest@);
        }
        ServerCert { cert_pem, key_pem, cert_hash, cert_der }
    }

    /// Generates a fresh self-signed ECDSA P-256 certificate for `syber-server`.
    pub fn generate() -> (r: Result<ServerCert, CertError>)
        ensures
            r matches Ok(c) ==> is_generated_certificate(c),
    {
        let key_pair = match generate_key_pair() {
            Ok(k) => k,
            Err(_) => return Err(CertError::KeyGeneration),
        };
        let params = match certificate_params(server_names()) {
            Ok(p) => p,
            Err(_) => return Err(CertError::Parameters),
        };
        let cert = match self_sign(params, &key_pair) {
            Ok(c) => c,
            Err(_) => return Err(CertError::SelfSigning),
        };
        let (cert_der, cert_pem) = certificate_der_and_pem(&cert);
        let key_pem = key_pair_pem(&key_pair);
        // A DER of 2^61 bytes or more has no SHA-256 digest; rcgen never signs one.
        if cert_der.len() as u64 >= 0x2000_0000_0000_0000u64 {
            return Err(CertError::SelfSigning);
        }
        Ok(ServerCert::assemble(cert_pem, key_pem, cert_der))
    }

    /// Loads a previously generated certificate from its PEM texts; the
    /// fingerprint is recomputed from the DER bytes of the certificate block.
    pub fn from_pem(cert_pem: &str, key_pem: &str) -> (r: Result<ServerCert, CertError>)
        requires
            pem_markers_in_order(cert_pem@, "CERTIFICATE"@),
            sha256_input_ok_len(cert_pem@.len()),
        ensures
            match pem_decoded(cert_pem@, "CERTIFICATE"@) {
                Ok(der) => r matches Ok(c) && c.cert_der@ == der && c.cert_hash@ == fingerprint_of(
                    der,
                ) && c.cert_pem@ == cert_pem@ && c.key_pem@ == key_pem@ && c.cert_hash@.len()
                    == 64,
                Err(e) => r == Err::<ServerCert, CertError>(CertError::CertificatePem(e)),
            },
    {
        let cert_der = match pem_to_der(cert_pem, "CERTIFICATE") {
            Ok(d) => d,
            Err(e) => return Err(CertError::CertificatePem(e)),
        };
        proof {
            lemma_pem_decoded_len(cert_pem@, "CERTIFICATE"@);
        }
        Ok(ServerCert::assemble(String::from_str(cert_pem), String::from_str(key_pem), cert_der))
    }

    /// The DER bytes of the private key: the `PRIVATE KEY` block, or else the
    /// `EC PRIVATE KEY` block.
    pub fn private_key_der(&self) -> (r: Result<Vec<u8>, CertError>)
        requires
            pem_markers_in_order(self.key_pem@, "PRIVATE KEY"@),
            pem_decoded(self.key_pem@, "PRIVATE KEY"@) is Err ==> pem_markers_in_order(
                self.key_pem@,
                "EC PRIVATE KEY"@,
            ),
        ensures
            match pem_decoded(self.key_pem@, "PRIVATE KEY"@) {
                Ok(der) => r matches Ok(v) && v@ == der,
                Err(_) => match pem_decoded(self.key_pem@, "EC PRIVATE KEY"@) {
                    Ok(der) => r matches Ok(v) && v@ == der,
                    Err(e) => r == Err::<Vec<u8>, CertError>(CertError::KeyPem(e)),
                },
            },
    {
        match pem_to_der(self.key_pem.as_str(), "PRIVATE KEY") {
            Ok(der) => Ok(der),
            Err(_) => match pem_to_der(self.key_pem.as_str(), "EC PRIVATE KEY") {
                Ok(der) => Ok(der),
                Err(e) => Err(CertError::KeyPem(e)),
            },
        }
    }
}

/// A text of this many characters decodes to few enough bytes for SHA-256.
pub open spec fn sha256_input_ok_len(n: nat) -> bool {
    n < 0x2000_0000_0000_0000
}

/// The text cut into groups of two characters (the last may hold one).
pub open spec fn pairs_of(s: Seq<char>) -> Seq<Seq<char>> {
    Seq::new(
        ((s.len() + 1) / 2) as nat,
        |k: int| s.subrange(2 * k, if 2 * k + 2 <= s.len() { 2 * k + 2 } else { s.len() as int }),
    )
}

/// A fingerprint for display: `A3:4F:2E:...`, each pair of hex digits uppercased.
pub open spec fn fingerprint_display(hex_hash: Seq<char>) -> Seq<char> {
    colon_joined(pairs_of(hex_hash).map_values(|g: Seq<char>| to_uppercase(g)))
}

/// The display of an ASCII fingerprint: each pair uppercased `a`..`z` to `A`..`Z`.
pub open spec fn fingerprint_display_ascii(hex_hash: Seq<char>) -> Seq<char> {
    colon_joined(pairs_of(hex_hash).map_values(|g: Seq<char>| ascii_upper(g)))
}

impl ServerCert {
    /// Formats a fingerprint for display: colon-separated uppercase pairs.
    pub fn format_fingerprint(hex_hash: &str) -> (r: String)
        ensures
            r@ == fingerprint_display(hex_hash@),
            all_ascii(hex_hash@) ==> r@ == fingerprint_display_ascii(hex_hash@),
    {
        let chars = chars_of(hex_hash);
        let n = chars.len();
        let mut groups: Vec<String> = Vec::new();
        let mut i: usize = 0;
        while i < n
            invariant
                n == chars@.len(),
                chars@ == hex_hash@,
                i <= n,
                i % 2 == 0 || i == n,
                groups@.len() == (i + 1) / 2,
                forall|k: int|
                    0 <= k < groups@.len() ==> #[trigger] groups@[k]@ == to_uppercase(
                        pairs_of(hex_hash@)[k],
                    ),
                all_ascii(hex_hash@) ==> forall|k: int|
                    0 <= k < groups@.len() ==> #[trigger] groups@[k]@ == ascii_upper(
                        pairs_of(hex_hash@)[k],
                    ),
            decreases n - i,
        {
            let mut chunk = String::new();
            push_char(&mut chunk, chars[i]);
            if i + 1 < n {
                push_char(&mut chunk, chars[i + 1]);
            }
            let ghost k = (i / 2) as int;
            assert(chunk@ =~= pairs_of(hex_hash@)[k]);
            assert(all_ascii(hex_hash@) ==> all_ascii(chunk@));
            groups.push(str_to_uppercase(chunk.as_str()));
            i = if i + 1 < n { i + 2 } else { i + 1 };
        }
        assert(groups@.map_values(|g: String| g@) =~= pairs_of(hex_hash@).map_values(
            |g: Seq<char>| to_uppercase(g),
        ));
        proof {
            if all_ascii(hex_hash@) {
                assert(groups@.map_values(|g: String| g@) =~= pairs_of(hex_hash@).map_values(
                    |g: Seq<char>| ascii_upper(g),
                ));
            }
        }
        join_with_colons(groups.as_slice())
    }
}

/// The fingerprint as the info panel shows it: texts longer than 29 bytes
/// (`str::len`) are cut after their 29th byte and end in `…`; shorter ones are
/// shown whole.
pub open spec fn shortened_display(fp: &str) -> Seq<char> {
    if fp.len() > 29 {
        decode_utf8(fp.spec_bytes().subrange(0, 29)) + seq!['…']
    } else {
        fp@
    }
}

/// Shortens a displayed fingerprint for the info panel. A cut inside a
/// character would make the slice panic, so it must fall on a character boundary.
pub fn shortened_fingerprint(fp: &str) -> (r: String)
    requires
        fp.len() > 29 ==> is_char_boundary(fp.spec_bytes(), 29),
    ensures
        r@ == shortened_display(fp),
{
    if fp.len() > 29 {
        let (head, _) = fp.split_at(29);
        let mut r = String::from_str(head);
        push_char(&mut r, '…');
        proof {
            encode_utf8_decode_utf8(head@);
        }
        assert(r@ =~= head@ + seq!['…']);
        r
    } else {
        String::from_str(fp)
    }
}

/// A generated certificate, saved as its PEM texts, loads back as itself:
/// `from_pem` finds the same DER bytes and so the same fingerprint that was
/// shown to the user, and the private key block decodes (under its first label).
pub proof fn law_generated_certificate_reloads(c: ServerCert)
    requires
        is_generated_certificate(c),
    ensures
        pem_markers_in_order(c.cert_pem@, "CERTIFICATE"@),
        pem_decoded(c.cert_pem@, "CERTIFICATE"@) == Ok::<Seq<u8>, PemError>(c.cert_der@),
        fingerprint_of(c.cert_der@) == c.cert_hash@,
        pem_markers_in_order(c.key_pem@, "PRIVATE KEY"@),
        pem_decoded(c.key_pem@, "PRIVATE KEY"@) is Ok,
{
    reveal_strlit("CERTIFICATE");
    reveal_strlit("PRIVATE KEY");
    let crlf = choose|crlf: bool| c.cert_pem@ == pem_encoded("CERTIFICATE"@, c.cert_der@, crlf);
    law_pem_round_trip("CERTIFICATE"@, c.cert_der@, crlf, 64);
    let (der, kcrlf) = choose|der: Seq<u8>, crlf: bool|
        c.key_pem@ == pem_encoded("PRIVATE KEY"@, der, crlf);
    law_pem_round_trip("PRIVATE KEY"@, der, kcrlf, 64);
}

} // verus!
