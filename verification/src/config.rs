//! Shared configuration of the server and the client.
use vstd::prelude::*;
use vstd::string::*;

use crate::cert::{is_generated_certificate, ServerCert};
use crate::text::{
    chars_of, decimal, parse_u16, parse_u32, parsed_unsigned, push_char, unsigned_text,
};

verus! {

// ─── Video options ──────────────────────────────────────────────────────────

/// The video codec that the server announces to the client.
#[derive(Debug, Clone, Copy, PartialEq, Eq, Structural)]
pub enum VideoCodec {
    H264,
    H265,
}

impl Default for VideoCodec {
    fn default() -> (c: Self)
        ensures
            c == VideoCodec::H264,
    {
        VideoCodec::H264
    }
}

impl VideoCodec {
    /// The identifier that the codec packet carries (libavcodec numbering).
    pub open spec fn spec_codec_id(self) -> u32 {
        match self {
            VideoCodec::H264 => 27,
            VideoCodec::H265 => 173,
        }
    }

    /// Human-readable name shown in the codec selector.
    pub fn label(&self) -> (s: &'static str)
        ensures
            *self == VideoCodec::H264 ==> s@ == "H.264"@,
            *self == VideoCodec::H265 ==> s@ == "H.265 (HEVC)"@,
    {
        match self {
            VideoCodec::H264 => "H.264",
            VideoCodec::H265 => "H.265 (HEVC)",
        }
    }

    /// The identifier used in the codec packet header.
    pub fn codec_id(&self) -> (id: u32)
        ensures
            id == self.spec_codec_id(),
    {
        match self {
            VideoCodec::H264 => 27,
            VideoCodec::H265 => 173,
        }
    }
}

/// The encoder backend the user asks for.
#[derive(Debug, Clone, Copy, PartialEq, Eq, Structural)]
pub enum VideoEncoder {
    Auto,
    Software,
    Nvenc,
    Qsv,
    Amf,
    Vaapi,
}

impl Default for VideoEncoder {
    fn default() -> (e: Self)
        ensures
            e == VideoEncoder::Auto,
    {
        VideoEncoder::Auto
    }
}

impl VideoEncoder {
    /// Human-readable name shown in the encoder selector.
    pub fn label(&self) -> (s: &'static str)
        ensures
            *self == VideoEncoder::Auto ==> s@ == "Auto (recommandé)"@,
            *self == VideoEncoder::Software ==> s@ == "Logiciel (CPU)"@,
            *self == VideoEncoder::Nvenc ==> s@ == "NVENC (NVIDIA)"@,
            *self == VideoEncoder::Qsv ==> s@ == "QuickSync (Intel)"@,
            *self == VideoEncoder::Amf ==> s@ == "AMF (AMD)"@,
            *self == VideoEncoder::Vaapi ==> s@ == "VA-API (Linux GPU)"@,
    {
        match self {
            VideoEncoder::Auto => "Auto (recommandé)",
            VideoEncoder::Software => "Logiciel (CPU)",
            VideoEncoder::Nvenc => "NVENC (NVIDIA)",
            VideoEncoder::Qsv => "QuickSync (Intel)",
            VideoEncoder::Amf => "AMF (AMD)",
            VideoEncoder::Vaapi => "VA-API (Linux GPU)",
        }
    }
}

/// How the video stream is carried over QUIC.
#[derive(Debug, Clone, Copy, PartialEq, Eq, Structural)]
pub enum VideoProtocolChoice {
    Reliable,
    GopStream,
    UnreliableFec,
}

impl Default for VideoProtocolChoice {
    fn default() -> (p: Self)
        ensures
            p == VideoProtocolChoice::Reliable,
    {
        VideoProtocolChoice::Reliable
    }
}

impl VideoProtocolChoice {
    /// Human-readable name shown in the protocol selector.
    pub fn label(&self) -> (s: &'static str)
        ensures
            *self == VideoProtocolChoice::Reliable ==> s@ == "Fiable (réseau parfait)"@,
            *self == VideoProtocolChoice::GopStream ==> s@ == "GOP Stream (recommandé)"@,
            *self == VideoProtocolChoice::UnreliableFec ==> s@ == "Non-fiable + FEC (LAN rapide)"@,
    {
        match self {
            VideoProtocolChoice::Reliable => "Fiable (réseau parfait)",
            VideoProtocolChoice::GopStream => "GOP Stream (recommandé)",
            VideoProtocolChoice::UnreliableFec => "Non-fiable + FEC (LAN rapide)",
        }
    }
}

/// One-click quality levels.
#[derive(Debug, Clone, Copy, PartialEq, Eq, Structural)]
pub enum QualityPreset {
    /// Low bitrate, performance.
    Fast,
    /// Balanced.
    Good,
    /// High quality.
    Best,
}

impl Default for QualityPreset {
    fn default() -> (p: Self)
        ensures
            p == QualityPreset::Good,
    {
        QualityPreset::Good
    }
}

/// The IEEE-754 single-precision bit pattern of 60.0 frames per second.
pub const FPS_60_BITS: u32 = 0x4270_0000u32;

/// The IEEE-754 single-precision bit pattern of 1.0 (full resolution).
pub const SCALE_ONE_BITS: u32 = 0x3F80_0000u32;

impl QualityPreset {
    /// The bitrate of each preset, in kbps.
    pub open spec fn spec_bitrate_kbps(self) -> u32 {
        match self {
            QualityPreset::Fast => 5_000,
            QualityPreset::Good => 10_000,
            QualityPreset::Best => 20_000,
        }
    }

    /// Human-readable name shown on the preset buttons.
    pub fn label(&self) -> (s: &'static str)
        ensures
            *self == QualityPreset::Fast ==> s@ == "Rapide (faible latence)"@,
            *self == QualityPreset::Good ==> s@ == "Équilibré"@,
            *self == QualityPreset::Best ==> s@ == "Qualité maximale"@,
    {
        match self {
            QualityPreset::Fast => "Rapide (faible latence)",
            QualityPreset::Good => "Équilibré",
            QualityPreset::Best => "Qualité maximale",
        }
    }

    /// The bitrate of the preset, in kbps.
    pub fn bitrate_kbps(&self) -> (kbps: u32)
        ensures
            kbps == self.spec_bitrate_kbps(),
    {
        match self {
            QualityPreset::Fast => 5_000,
            QualityPreset::Good => 10_000,
            QualityPreset::Best => 20_000,
        }
    }

    /// The frame rate of the preset (60 fps for every preset), as the bit
    /// pattern of an `f32`.
    pub fn fps_bits(&self) -> (bits: u32)
        ensures
            bits == FPS_60_BITS,
    {
        match self {
            QualityPreset::Fast => FPS_60_BITS,
            QualityPreset::Good => FPS_60_BITS,
            QualityPreset::Best => FPS_60_BITS,
        }
    }
}

// ─── Server password ────────────────────────────────────────────────────────

/// The characters a generated password is drawn from (no `I`, `L`, `O`, `i`,
/// `l`, `o`, `0` or `1`, which read alike).
pub const PASSWORD_ALPHABET: &'static str = "ABCDEFGHJKMNPQRSTUVWXYZabcdefghjkmnpqrstuvwxyz23456789";

/// How many characters a generated password has.
pub const PASSWORD_LEN: usize = 12;

#[verifier::external_type_specification]
#[verifier::external_body]
pub struct ExThreadRng(rand::rngs::ThreadRng);

/// `rand::thread_rng`: the thread-local random generator.
#[verifier::external_body]
fn thread_rng() -> (rng: rand::rngs::ThreadRng) {
    rand::thread_rng()
}

/// `Rng::gen_range(0..n)`: a random index below `n` (it panics when `n` is 0).
#[verifier::external_body]
fn random_below(rng: &mut rand::rngs::ThreadRng, n: usize) -> (i: usize)
    requires
        n > 0,
    ensures
        i < n,
{
    rand::Rng::gen_range(rng, 0..n)
}

/// The password that the given indices pick from the alphabet, in order.
pub open spec fn password_for(indices: Seq<usize>) -> Seq<char> {
    indices.map_values(|i: usize| PASSWORD_ALPHABET@[i as int])
}

/// The alphabet holds 54 characters.
pub proof fn lemma_password_alphabet_len()
    ensures
        PASSWORD_ALPHABET@.len() == 54,
{
    reveal_strlit("ABCDEFGHJKMNPQRSTUVWXYZabcdefghjkmnpqrstuvwxyz23456789");
}

/// The password whose characters the indices select from the alphabet.
pub fn password_from_indices(indices: &[usize]) -> (pw: String)
    requires
        forall|k: int| 0 <= k < indices@.len() ==> indices@[k] < 54,
    ensures
        pw@ == password_for(indices@),
{
    proof {
        lemma_password_alphabet_len();
    }
    let alphabet = chars_of(PASSWORD_ALPHABET);
    let mut pw = String::new();
    let mut k: usize = 0;
    while k < indices.len()
        invariant
            alphabet@ == PASSWORD_ALPHABET@,
            alphabet@.len() == 54,
            k <= indices@.len(),
            forall|j: int| 0 <= j < indices@.len() ==> indices@[j] < 54,
            pw@ == password_for(indices@.subrange(0, k as int)),
        decreases indices@.len() - k,
    {
        crate::text::push_char(&mut pw, alphabet[indices[k]]);
        assert(password_for(indices@.subrange(0, k + 1)) =~= password_for(
            indices@.subrange(0, k as int),
        ).push(PASSWORD_ALPHABET@[indices@[k as int] as int]));
        k = k + 1;
    }
    assert(indices@.subrange(0, k as int) =~= indices@);
    pw
}

/// A password is twelve characters of the alphabet.
pub open spec fn is_generated_password(pw: Seq<char>) -> bool {
    &&& pw.len() == PASSWORD_LEN
    &&& forall|k: int| 0 <= k < pw.len() ==> PASSWORD_ALPHABET@.contains(#[trigger] pw[k])
}

// ─── Server Config ──────────────────────────────────────────────────────────

/// Everything the server remembers between runs.
///
/// The frame rate and the resolution scale are `f32` values that the library
/// only stores and hands on; they are kept as their IEEE-754 bit patterns.
#[derive(Debug, Clone)]
pub struct ServerConfig {
    pub port: u16,
    pub password: String,
    pub preset: QualityPreset,
    pub codec: VideoCodec,
    pub encoder: VideoEncoder,
    pub bitrate_kbps: u32,
    /// Frames per second, as the bits of an `f32`.
    pub fps_bits: u32,
    /// Capture scale from 0.25 to 1.0, as the bits of an `f32`.
    pub resolution_scale_bits: u32,
    pub video_protocol: VideoProtocolChoice,
    pub display_index: usize,
    pub cert_pem: String,
    pub key_pem: String,
    /// SHA-256 hex of the certificate, shown to the user.
    pub cert_hash: String,
}

impl Default for ServerConfig {
    fn default() -> (c: Self)
        ensures
            c.port == 8080,
            is_generated_password(c.password@),
            c.preset == QualityPreset::Good,
            c.codec == VideoCodec::H264,
            c.encoder == VideoEncoder::Auto,
            c.bitrate_kbps == 10_000,
            c.fps_bits == FPS_60_BITS,
            c.resolution_scale_bits == SCALE_ONE_BITS,
            c.video_protocol == VideoProtocolChoice::Reliable,
            c.display_index == 0,
            c.cert_pem@.len() == 0,
            c.key_pem@.len() == 0,
            c.cert_hash@.len() == 0,
    {
        ServerConfig {
            port: 8080,
            password: ServerConfig::generate_password(),
            preset: QualityPreset::default(),
            codec: VideoCodec::default(),
            encoder: VideoEncoder::default(),
            bitrate_kbps: 10_000,
            fps_bits: FPS_60_BITS,
            resolution_scale_bits: SCALE_ONE_BITS,
            video_protocol: VideoProtocolChoice::default(),
            display_index: 0,
            cert_pem: String::new(),
            key_pem: String::new(),
            cert_hash: String::new(),
        }
    }
}

impl ServerConfig {
    /// A fresh random password: twelve characters drawn from the alphabet.
    pub fn generate_password() -> (pw: String)
        ensures
            is_generated_password(pw@),
    {
        proof {
            lemma_password_alphabet_len();
        }
        let mut rng = thread_rng();
        let mut indices: Vec<usize> = Vec::new();
        let mut k: usize = 0;
        while k < PASSWORD_LEN
            invariant
                k <= PASSWORD_LEN,
                indices@.len() == k,
                forall|j: int| 0 <= j < indices@.len() ==> indices@[j] < 54,
            decreases PASSWORD_LEN - k,
        {
            indices.push(random_below(&mut rng, 54));
            k = k + 1;
        }
        let pw = password_from_indices(indices.as_slice());
        assert forall|j: int| 0 <= j < pw@.len() implies PASSWORD_ALPHABET@.contains(
            #[trigger] pw@[j],
        ) by {
            assert(pw@[j] == PASSWORD_ALPHABET@[indices@[j] as int]);
        }
        pw
    }

    /// Takes the port and bitrate typed in the settings, each only when its
    /// text is a number that fits; otherwise the setting stays.
    pub fn apply_text_fields(&mut self, port_text: &str, bitrate_text: &str)
        ensures
            final(self).port == (match parsed_unsigned(port_text@) {
                Some(v) => if v <= u16::MAX {
                    v as u16
                } else {
                    old(self).port
                },
                None => old(self).port,
            }),
            final(self).bitrate_kbps == (match parsed_unsigned(bitrate_text@) {
                Some(v) => if v <= u32::MAX {
                    v as u32
                } else {
                    old(self).bitrate_kbps
                },
                None => old(self).bitrate_kbps,
            }),
            final(self).password == old(self).password,
            final(self).preset == old(self).preset,
            final(self).codec == old(self).codec,
            final(self).encoder == old(self).encoder,
            final(self).fps_bits == old(self).fps_bits,
            final(self).resolution_scale_bits == old(self).resolution_scale_bits,
            final(self).video_protocol == old(self).video_protocol,
            final(self).display_index == old(self).display_index,
            final(self).cert_pem == old(self).cert_pem,
            final(self).key_pem == old(self).key_pem,
            final(self).cert_hash == old(self).cert_hash,
    {
        if let Some(port) = parse_u16(port_text) {
            self.port = port;
        }
        if let Some(kbps) = parse_u32(bitrate_text) {
            self.bitrate_kbps = kbps;
        }
    }

    /// Stores a certificate (PEM texts and fingerprint) as the server's identity.
    pub fn install_certificate(&mut self, cert: ServerCert)
        ensures
            final(self).cert_pem == cert.cert_pem,
            final(self).key_pem == cert.key_pem,
            final(self).cert_hash == cert.cert_hash,
            final(self).port == old(self).port,
            final(self).password == old(self).password,
            final(self).preset == old(self).preset,
            final(self).codec == old(self).codec,
            final(self).encoder == old(self).encoder,
            final(self).bitrate_kbps == old(self).bitrate_kbps,
            final(self).fps_bits == old(self).fps_bits,
            final(self).resolution_scale_bits == old(self).resolution_scale_bits,
            final(self).video_protocol == old(self).video_protocol,
            final(self).display_index == old(self).display_index,
    {
        self.cert_pem = cert.cert_pem;
        self.key_pem = cert.key_pem;
        self.cert_hash = cert.cert_hash;
    }

    /// Generates a certificate when the configuration has none yet; true when
    /// one was generated and stored (so the configuration should be saved).
    pub fn ensure_certificate(&mut self) -> (generated: bool)
        ensures
            old(self).cert_pem@.len() > 0 ==> !generated && *final(self) == *old(self),
            !generated ==> *final(self) == *old(self),
            generated ==> old(self).cert_pem@.len() == 0 && exists|c: ServerCert|
                #[trigger] is_generated_certificate(c) && final(self).cert_pem == c.cert_pem
                    && final(self).key_pem == c.key_pem && final(self).cert_hash == c.cert_hash,
            final(self).port == old(self).port,
            final(self).password == old(self).password,
            final(self).preset == old(self).preset,
            final(self).bitrate_kbps == old(self).bitrate_kbps,
            final(self).display_index == old(self).display_index,
    {
        if !self.cert_pem.as_str().is_empty() {
            return false;
        }
        match ServerCert::generate() {
            Ok(cert) => {
                let ghost c = cert;
                self.install_certificate(cert);
                assert(is_generated_certificate(c));
                true
            },
            Err(_) => false,
        }
    }

    /// Copies the preset's bitrate and frame rate into the advanced settings.
    pub fn apply_preset(&mut self)
        ensures
            final(self).bitrate_kbps == old(self).preset.spec_bitrate_kbps(),
            final(self).fps_bits == FPS_60_BITS,
            final(self).port == old(self).port,
            final(self).password == old(self).password,
            final(self).preset == old(self).preset,
            final(self).codec == old(self).codec,
            final(self).encoder == old(self).encoder,
            final(self).resolution_scale_bits == old(self).resolution_scale_bits,
            final(self).video_protocol == old(self).video_protocol,
            final(self).display_index == old(self).display_index,
            final(self).cert_pem == old(self).cert_pem,
            final(self).key_pem == old(self).key_pem,
            final(self).cert_hash == old(self).cert_hash,
    {
        self.bitrate_kbps = self.preset.bitrate_kbps();
        self.fps_bits = self.preset.fps_bits();
    }
}

// ─── Client Config ──────────────────────────────────────────────────────────

/// How many recent connections the client keeps.
pub const MAX_RECENTS: usize = 5;

/// A server the client connected to.
#[derive(Debug, Clone)]
pub struct RecentConnection {
    pub host: String,
    pub port: u16,
    pub cert_hash: String,
    /// Unix timestamp, in seconds.
    pub last_used: u64,
}

/// `host:port`, as the client lists a recent server and dials it.
pub open spec fn endpoint_display(host: Seq<char>, port: u16) -> Seq<char> {
    host + seq![':'] + decimal(port as int)
}

/// Writes `host:port`.
pub fn endpoint_text(host: &str, port: u16) -> (r: String)
    ensures
        r@ == endpoint_display(host@, port),
{
    let mut r = String::from_str(host);
    push_char(&mut r, ':');
    let digits = unsigned_text(port as u32);
    r.append(digits.as_str());
    r
}

/// A recent connection as plain values.
pub struct RecentView {
    pub host: Seq<char>,
    pub port: u16,
    pub cert_hash: Seq<char>,
    pub last_used: u64,
}

impl View for RecentConnection {
    type V = RecentView;

    open spec fn view(&self) -> RecentView {
        RecentView {
            host: self.host@,
            port: self.port,
            cert_hash: self.cert_hash@,
            last_used: self.last_used,
        }
    }
}

/// The views of a list of recent connections.
pub open spec fn recents_view(v: Seq<RecentConnection>) -> Seq<RecentView> {
    v.map_values(|r: RecentConnection| r@)
}

/// The entry is for the server at `host:port`.
pub open spec fn same_endpoint(r: RecentView, host: Seq<char>, port: u16) -> bool {
    r.host == host && r.port == port
}

/// The list without the entries for `host:port`, the rest in their order.
pub open spec fn without_endpoint(s: Seq<RecentView>, host: Seq<char>, port: u16) -> Seq<RecentView>
    decreases s.len(),
{
    if s.len() == 0 {
        s
    } else if same_endpoint(s.last(), host, port) {
        without_endpoint(s.drop_last(), host, port)
    } else {
        without_endpoint(s.drop_last(), host, port).push(s.last())
    }
}

/// The list after a connection to the entry's server: that entry first, then
/// the other servers in their previous order, cut to `MAX_RECENTS`.
pub open spec fn recents_after_use(s: Seq<RecentView>, entry: RecentView) -> Seq<RecentView> {
    let kept = seq![entry] + without_endpoint(s, entry.host, entry.port);
    if kept.len() > MAX_RECENTS {
        kept.subrange(0, MAX_RECENTS as int)
    } else {
        kept
    }
}

/// No two entries are for the same server.
pub open spec fn distinct_endpoints(s: Seq<RecentView>) -> bool {
    forall|i: int, j: int|
        0 <= i < s.len() && 0 <= j < s.len() && i != j ==> !same_endpoint(
            s[i],
            s[j].host,
            s[j].port,
        )
}

/// Everything the client remembers between runs.
#[derive(Debug, Clone)]
pub struct ClientConfig {
    pub last_host: String,
    pub last_port: u16,
    pub last_cert_hash: String,
    pub recents: Vec<RecentConnection>,
    // Input settings
    pub capture_keyboard: bool,
    pub capture_mouse: bool,
    pub capture_gamepad: bool,
    pub grab_cursor: bool,
    /// For example `ctrl+shift+q`.
    pub hotkey_disconnect: String,
    // Display
    pub fullscreen_on_connect: bool,
    pub show_stats_overlay: bool,
}

impl Default for ClientConfig {
    fn default() -> (c: Self)
        ensures
            c.last_host@.len() == 0,
            c.last_port == 8080,
            c.last_cert_hash@.len() == 0,
            c.recents@.len() == 0,
            c.capture_keyboard,
            c.capture_mouse,
            !c.capture_gamepad,
            c.grab_cursor,
            c.hotkey_disconnect@ == "ctrl+shift+q"@,
            !c.fullscreen_on_connect,
            c.show_stats_overlay,
    {
        ClientConfig {
            last_host: String::new(),
            last_port: 8080,
            last_cert_hash: String::new(),
            recents: Vec::new(),
            capture_keyboard: true,
            capture_mouse: true,
            capture_gamepad: false,
            grab_cursor: true,
            hotkey_disconnect: String::from_str("ctrl+shift+q"),
            fullscreen_on_connect: false,
            show_stats_overlay: true,
        }
    }
}

#[verifier::external_type_specification]
#[verifier::external_body]
pub struct ExSystemTime(std::time::SystemTime);

#[verifier::external_type_specification]
#[verifier::external_body]
pub struct ExSystemTimeError(std::time::SystemTimeError);

/// `SystemTime::now`: the current wall-clock time.
#[verifier::external_body]
fn system_time_now() -> (t: std::time::SystemTime) {
    std::time::SystemTime::now()
}

/// `SystemTime::duration_since(UNIX_EPOCH)`: an error when the clock is before 1970.
#[verifier::external_body]
fn since_unix_epoch(t: std::time::SystemTime) -> (d: Result<
    std::time::Duration,
    std::time::SystemTimeError,
>) {
    t.duration_since(std::time::UNIX_EPOCH)
}

/// `Duration::as_secs`: the whole seconds of a duration.
#[verifier::external_body]
fn duration_secs(d: &std::time::Duration) -> (s: u64) {
    d.as_secs()
}

impl ClientConfig {
    /// Records a connection to `host:port` made at the given Unix time: it
    /// becomes the first entry, replaces any older entry for the same server,
    /// and only the `MAX_RECENTS` most recent entries stay.
    pub fn add_recent_at(&mut self, host: &str, port: u16, cert_hash: &str, timestamp: u64)
        ensures
            recents_view(final(self).recents@) == recents_after_use(
                recents_view(old(self).recents@),
                RecentView { host: host@, port, cert_hash: cert_hash@, last_used: timestamp },
            ),
            final(self).last_host == old(self).last_host,
            final(self).last_port == old(self).last_port,
            final(self).last_cert_hash == old(self).last_cert_hash,
            final(self).capture_keyboard == old(self).capture_keyboard,
            final(self).capture_mouse == old(self).capture_mouse,
            final(self).capture_gamepad == old(self).capture_gamepad,
            final(self).grab_cursor == old(self).grab_cursor,
            final(self).hotkey_disconnect == old(self).hotkey_disconnect,
            final(self).fullscreen_on_connect == old(self).fullscreen_on_connect,
            final(self).show_stats_overlay == old(self).show_stats_overlay,
    {
        let ghost old_view = recents_view(self.recents@);
        let key = String::from_str(host);
        let mut kept: Vec<RecentConnection> = Vec::new();
        let mut i: usize = 0;
        while i < self.recents.len()
            invariant
                i <= self.recents@.len(),
                old_view == recents_view(self.recents@),
                key@ == host@,
                recents_view(kept@) == without_endpoint(
                    old_view.subrange(0, i as int),
                    host@,
                    port,
                ),
            decreases self.recents@.len() - i,
        {
            let r = &self.recents[i];
            assert(old_view.subrange(0, i + 1).drop_last() =~= old_view.subrange(0, i as int));
            if !(r.host == key && r.port == port) {
                let copy = RecentConnection {
                    host: r.host.clone(),
                    port: r.port,
                    cert_hash: r.cert_hash.clone(),
                    last_used: r.last_used,
                };
                kept.push(copy);
                assert(recents_view(kept@) =~= without_endpoint(
                    old_view.subrange(0, i as int),
                    host@,
                    port,
                ).push(old_view[i as int]));
            }
            i = i + 1;
        }
        assert(old_view.subrange(0, i as int) =~= old_view);
        let entry = RecentConnection {
            host: String::from_str(host),
            port,
            cert_hash: String::from_str(cert_hash),
            last_used: timestamp,
        };
        let ghost filtered = recents_view(kept@);
        kept.insert(0, entry);
        assert(recents_view(kept@) =~= seq![entry@] + filtered);
        kept.truncate(MAX_RECENTS);
        proof {
            let full = seq![entry@] + filtered;
            if full.len() > MAX_RECENTS {
                assert(recents_view(kept@) =~= full.subrange(0, MAX_RECENTS as int));
            } else {
                assert(recents_view(kept@) =~= full);
            }
        }
        self.recents = kept;
    }

    /// Remembers the server just connected to: as the last one, and in the recents.
    pub fn record_connection(&mut self, host: &str, port: u16, cert_hash: &str)
        ensures
            final(self).last_host@ == host@,
            final(self).last_port == port,
            final(self).last_cert_hash@ == cert_hash@,
            exists|t: u64|
                recents_view(final(self).recents@) == recents_after_use(
                    recents_view(old(self).recents@),
                    RecentView { host: host@, port, cert_hash: cert_hash@, last_used: t },
                ),
            final(self).capture_keyboard == old(self).capture_keyboard,
            final(self).capture_mouse == old(self).capture_mouse,
            final(self).capture_gamepad == old(self).capture_gamepad,
            final(self).grab_cursor == old(self).grab_cursor,
            final(self).hotkey_disconnect == old(self).hotkey_disconnect,
            final(self).fullscreen_on_connect == old(self).fullscreen_on_connect,
            final(self).show_stats_overlay == old(self).show_stats_overlay,
    {
        self.last_host = String::from_str(host);
        self.last_port = port;
        self.last_cert_hash = String::from_str(cert_hash);
        self.add_recent(host, port, cert_hash);
    }

    /// Records a connection to `host:port` made now (time 0 if the clock is
    /// before 1970).
    pub fn add_recent(&mut self, host: &str, port: u16, cert_hash: &str)
        ensures
            exists|t: u64|
                recents_view(final(self).recents@) == recents_after_use(
                    recents_view(old(self).recents@),
                    RecentView { host: host@, port, cert_hash: cert_hash@, last_used: t },
                ),
            final(self).last_host == old(self).last_host,
            final(self).last_port == old(self).last_port,
            final(self).last_cert_hash == old(self).last_cert_hash,
            final(self).capture_keyboard == old(self).capture_keyboard,
            final(self).capture_mouse == old(self).capture_mouse,
            final(self).capture_gamepad == old(self).capture_gamepad,
            final(self).grab_cursor == old(self).grab_cursor,
            final(self).hotkey_disconnect == old(self).hotkey_disconnect,
            final(self).fullscreen_on_connect == old(self).fullscreen_on_connect,
            final(self).show_stats_overlay == old(self).show_stats_overlay,
    {
        let ts = match since_unix_epoch(system_time_now()) {
            Ok(d) => duration_secs(&d),
            Err(_) => 0,
        };
        self.add_recent_at(host, port, cert_hash, ts);
    }
}

/// Every entry that survives the removal was an entry of the list, no entry of the
/// removed server survives, and the result is never longer.
pub proof fn lemma_without_endpoint(s: Seq<RecentView>, host: Seq<char>, port: u16)
    ensures
        without_endpoint(s, host, port).len() <= s.len(),
        forall|k: int|
            0 <= k < without_endpoint(s, host, port).len() ==> !same_endpoint(
                #[trigger] without_endpoint(s, host, port)[k],
                host,
                port,
            ),
        forall|k: int|
            0 <= k < without_endpoint(s, host, port).len() ==> s.contains(
                #[trigger] without_endpoint(s, host, port)[k],
            ),
        distinct_endpoints(s) ==> distinct_endpoints(without_endpoint(s, host, port)),
        (forall|k: int| 0 <= k < s.len() ==> !same_endpoint(#[trigger] s[k], host, port))
            ==> without_endpoint(s, host, port) == s,
    decreases s.len(),
{
    if s.len() > 0 {
        let prev = s.drop_last();
        lemma_without_endpoint(prev, host, port);
        let w = without_endpoint(prev, host, port);
        assert forall|k: int| 0 <= k < w.len() implies s.contains(#[trigger] w[k]) by {
            let j = choose|j: int| 0 <= j < prev.len() && prev[j] == w[k];
            assert(s[j] == w[k]);
        }
        if distinct_endpoints(s) {
            assert(distinct_endpoints(prev)) by {
                assert forall|i: int, j: int|
                    0 <= i < prev.len() && 0 <= j < prev.len() && i != j implies !same_endpoint(
                    prev[i],
                    prev[j].host,
                    prev[j].port,
                ) by {
                    assert(prev[i] == s[i] && prev[j] == s[j]);
                }
            }
            if !same_endpoint(s.last(), host, port) {
                let r = w.push(s.last());
                assert forall|i: int, j: int|
                    0 <= i < r.len() && 0 <= j < r.len() && i != j implies !same_endpoint(
                    r[i],
                    r[j].host,
                    r[j].port,
                ) by {
                    if i == w.len() {
                        let jj = choose|jj: int| 0 <= jj < prev.len() && prev[jj] == w[j];
                        assert(s[jj] == w[j]);
                        assert(s[s.len() - 1] == s.last());
                    } else if j == w.len() {
                        let ii = choose|ii: int| 0 <= ii < prev.len() && prev[ii] == w[i];
                        assert(s[ii] == w[i]);
                        assert(s[s.len() - 1] == s.last());
                    }
                }
            }
        }
        if forall|k: int| 0 <= k < s.len() ==> !same_endpoint(#[trigger] s[k], host, port) {
            assert forall|k: int| 0 <= k < prev.len() implies !same_endpoint(
                #[trigger] prev[k],
                host,
                port,
            ) by {
                assert(prev[k] == s[k]);
            }
            assert(s[s.len() - 1] == s.last());
            assert(prev.push(s.last()) =~= s);
        }
    }
}

/// After a connection is recorded, its server comes first with the new data and
/// appears nowhere else, the list holds between one and `MAX_RECENTS` entries,
/// and a list in which no server appeared twice still has none twice.
pub proof fn law_recorded_connection_comes_first(s: Seq<RecentView>, entry: RecentView)
    ensures
        recents_after_use(s, entry).len() >= 1,
        recents_after_use(s, entry).len() <= MAX_RECENTS,
        recents_after_use(s, entry)[0] == entry,
        forall|i: int|
            1 <= i < recents_after_use(s, entry).len() ==> !same_endpoint(
                #[trigger] recents_after_use(s, entry)[i],
                entry.host,
                entry.port,
            ),
        distinct_endpoints(s) ==> distinct_endpoints(recents_after_use(s, entry)),
{
    lemma_without_endpoint(s, entry.host, entry.port);
    let w = without_endpoint(s, entry.host, entry.port);
    let full = seq![entry] + w;
    let r = recents_after_use(s, entry);
    assert forall|i: int| 1 <= i < r.len() implies !same_endpoint(
        #[trigger] r[i],
        entry.host,
        entry.port,
    ) by {
        assert(r[i] == full[i]);
        assert(full[i] == w[i - 1]);
    }
    if distinct_endpoints(s) {
        assert forall|i: int, j: int|
            0 <= i < r.len() && 0 <= j < r.len() && i != j implies !same_endpoint(
            r[i],
            r[j].host,
            r[j].port,
        ) by {
            assert(r[i] == full[i] && r[j] == full[j]);
            if i > 0 && j > 0 {
                assert(full[i] == w[i - 1] && full[j] == w[j - 1]);
            } else if i == 0 {
                assert(full[j] == w[j - 1]);
            } else {
                assert(full[i] == w[i - 1]);
            }
        }
    }
}

/// Recording the same connection twice leaves the list as recording it once.
pub proof fn law_recording_twice_is_recording_once(s: Seq<RecentView>, entry: RecentView)
    ensures
        recents_after_use(recents_after_use(s, entry), entry) == recents_after_use(s, entry),
{
    lemma_without_endpoint(s, entry.host, entry.port);
    let w = without_endpoint(s, entry.host, entry.port);
    let r1 = recents_after_use(s, entry);
    law_recorded_connection_comes_first(s, entry);
    let tail = r1.drop_first();
    assert forall|k: int| 0 <= k < tail.len() implies !same_endpoint(
        #[trigger] tail[k],
        entry.host,
        entry.port,
    ) by {
        assert(tail[k] == r1[k + 1]);
    }
    lemma_without_endpoint(tail, entry.host, entry.port);
    // the first entry is the recorded one and goes; the rest stays as it was
    assert(r1 =~= seq![entry] + tail);
    lemma_without_endpoint_prepend(entry, tail);
    let r2 = recents_after_use(r1, entry);
    assert(r2 =~= r1);
}

proof fn lemma_without_endpoint_prepend(entry: RecentView, tail: Seq<RecentView>)
    ensures
        without_endpoint(seq![entry] + tail, entry.host, entry.port) == without_endpoint(
            tail,
            entry.host,
            entry.port,
        ),
    decreases tail.len(),
{
    let s = seq![entry] + tail;
    if tail.len() == 0 {
        assert(s.drop_last() =~= Seq::<RecentView>::empty());
        assert(s.last() == entry);
        assert(without_endpoint(s.drop_last(), entry.host, entry.port) =~= tail);
    } else {
        assert(s.drop_last() =~= seq![entry] + tail.drop_last());
        assert(s.last() == tail.last());
        lemma_without_endpoint_prepend(entry, tail.drop_last());
    }
}

} // verus!
