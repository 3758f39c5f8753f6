//! The decisions of the server and client sessions: status, authentication,
//! client accounting, the wait for the codec packet and the frame hand-off to the UI.
use vstd::prelude::*;

use crate::capture::{rgb_of_rgba, rgba_to_rgb};
use crate::config::{ServerConfig, VideoProtocolChoice};
use crate::encode::{frame_packets, packets_carry, EncodeError, EncodedPacket, VideoEncoder};
use crate::cert::{
    fingerprint_display_ascii, fingerprint_of, is_generated_certificate, is_lower_hex,
    lemma_hex_lower_digits, pairs_of, sha256, ServerCert,
};
use crate::text::{
    all_ascii, ascii_lower, ascii_upper, colon_joined, parse_u16, parsed_unsigned, push_char, to_lowercase, to_lowercase_text, trim_text, trimmed,
};

verus! {

// ─── Server ─────────────────────────────────────────────────────────────────

/// Where the server listens: an IPv4 address and a port.
#[derive(Debug, Clone, Copy, PartialEq, Eq)]
pub struct ListenAddr {
    pub ip: [u8; 4],
    pub port: u16,
}

/// The server listens on every IPv4 interface (`0.0.0.0`) at the configured port.
pub fn listen_addr(port: u16) -> (a: ListenAddr)
    ensures
        a.ip@ == seq![0u8, 0u8, 0u8, 0u8],
        a.port == port,
{
    let a = ListenAddr { ip: [0u8, 0u8, 0u8, 0u8], port };
    assert(a.ip@ =~= seq![0u8, 0u8, 0u8, 0u8]);
    a
}

/// What the server is doing, as the UI shows it.
#[derive(Debug, Clone)]
pub enum ServerStatus {
    Stopped,
    Starting,
    Running { addr: ListenAddr },
    Error(String),
}

/// Live numbers of the server session. The frame rate and bitrate are `f32`
/// values computed and shown outside the library, kept as their bit patterns.
#[derive(Debug, Clone)]
pub struct SessionStats {
    pub fps_bits: u32,
    pub bitrate_kbps_bits: u32,
    pub client_count: usize,
}

impl Default for SessionStats {
    fn default() -> (s: Self)
        ensures
            s.fps_bits == 0,
            s.bitrate_kbps_bits == 0,
            s.client_count == 0,
    {
        SessionStats { fps_bits: 0, bitrate_kbps_bits: 0, client_count: 0 }
    }
}

/// State shared between the server UI and its session.
pub struct SharedState {
    pub status: ServerStatus,
    pub stats: SessionStats,
    pub config: ServerConfig,
}

/// Commands from the UI to the server session.
#[derive(Debug, Clone, Copy, PartialEq, Eq, Structural)]
pub enum SessionCmd {
    Stop,
}

/// What the server answers a client that presents a token.
#[derive(Debug, Clone, Copy, PartialEq, Eq, Structural)]
pub enum AuthDecision {
    Accept,
    Reject,
}

impl SharedState {
    pub fn new(config: ServerConfig) -> (s: Self)
        ensures
            s.status is Stopped,
            s.stats.client_count == 0,
            s.stats.fps_bits == 0,
            s.stats.bitrate_kbps_bits == 0,
            s.config == config,
    {
        SharedState { status: ServerStatus::Stopped, stats: SessionStats::default(), config }
    }

    /// The session is starting (before the certificate is loaded).
    pub fn mark_starting(&mut self)
        ensures
            final(self).status is Starting,
            final(self).stats == old(self).stats,
            final(self).config == old(self).config,
    {
        self.status = ServerStatus::Starting;
    }

    /// The server listens at `addr`.
    pub fn mark_running(&mut self, addr: ListenAddr)
        ensures
            final(self).status == (ServerStatus::Running { addr }),
            final(self).stats == old(self).stats,
            final(self).config == old(self).config,
    {
        self.status = ServerStatus::Running { addr };
    }

    /// The server was stopped by the UI (or its command channel closed).
    pub fn mark_stopped(&mut self)
        ensures
            final(self).status is Stopped,
            final(self).stats == old(self).stats,
            final(self).config == old(self).config,
    {
        self.status = ServerStatus::Stopped;
    }

    /// The session failed with the given message.
    pub fn mark_failed(&mut self, message: String)
        ensures
            final(self).status == ServerStatus::Error(message),
            final(self).stats == old(self).stats,
            final(self).config == old(self).config,
    {
        self.status = ServerStatus::Error(message);
    }

    /// A client gets in exactly when its token is the configured password.
    pub fn authenticate(&self, token: &str) -> (d: AuthDecision)
        ensures
            d == (if token@ == self.config.password@ {
                AuthDecision::Accept
            } else {
                AuthDecision::Reject
            }),
    {
        if String::from_str(token) == self.config.password {
            AuthDecision::Accept
        } else {
            AuthDecision::Reject
        }
    }

    /// An authenticated client joined.
    pub fn client_joined(&mut self)
        requires
            old(self).stats.client_count < usize::MAX,
        ensures
            final(self).stats.client_count == old(self).stats.client_count + 1,
            final(self).stats.fps_bits == old(self).stats.fps_bits,
            final(self).stats.bitrate_kbps_bits == old(self).stats.bitrate_kbps_bits,
            final(self).status == old(self).status,
            final(self).config == old(self).config,
    {
        self.stats.client_count = self.stats.client_count + 1;
    }

    /// A client's session ended (the count never drops below zero).
    pub fn client_left(&mut self)
        ensures
            final(self).stats.client_count == if old(self).stats.client_count > 0 {
                (old(self).stats.client_count - 1) as usize
            } else {
                0
            },
            final(self).stats.fps_bits == old(self).stats.fps_bits,
            final(self).stats.bitrate_kbps_bits == old(self).stats.bitrate_kbps_bits,
            final(self).status == old(self).status,
            final(self).config == old(self).config,
    {
        self.stats.client_count = self.stats.client_count.saturating_sub(1);
    }

    /// New measured frame rate and bitrate (as `f32` bit patterns).
    pub fn record_rates(&mut self, fps_bits: u32, bitrate_kbps_bits: u32)
        ensures
            final(self).stats.fps_bits == fps_bits,
            final(self).stats.bitrate_kbps_bits == bitrate_kbps_bits,
            final(self).stats.client_count == old(self).stats.client_count,
            final(self).status == old(self).status,
            final(self).config == old(self).config,
    {
        self.stats.fps_bits = fps_bits;
        self.stats.bitrate_kbps_bits = bitrate_kbps_bits;
    }

    /// The UI shows the server as running while it starts or listens.
    pub fn is_running(&self) -> (b: bool)
        ensures
            b == (self.status is Running || self.status is Starting),
    {
        match self.status {
            ServerStatus::Running { .. } | ServerStatus::Starting => true,
            _ => false,
        }
    }
}

/// Frames and bytes counted since the last statistics update (the server
/// counts what it sends, the client what it receives and decodes).
#[derive(Debug, Clone, Copy, PartialEq, Eq, Structural)]
pub struct RateWindow {
    pub frames: u64,
    pub bytes: u64,
}

impl RateWindow {
    pub fn new() -> (w: Self)
        ensures
            w.frames == 0,
            w.bytes == 0,
    {
        RateWindow { frames: 0, bytes: 0 }
    }

    /// One more frame.
    pub fn add_frame(&mut self)
        requires
            old(self).frames < u64::MAX,
        ensures
            final(self).frames == old(self).frames + 1,
            final(self).bytes == old(self).bytes,
    {
        self.frames = self.frames + 1;
    }

    /// `n` more bytes.
    pub fn add_bytes(&mut self, n: u64)
        requires
            old(self).bytes + n <= u64::MAX,
        ensures
            final(self).bytes == old(self).bytes + n,
            final(self).frames == old(self).frames,
    {
        self.bytes = self.bytes + n;
    }

    /// The counts so far, `(frames, bytes)`; counting starts again from zero.
    pub fn take(&mut self) -> (r: (u64, u64))
        ensures
            r == (old(self).frames, old(self).bytes),
            final(self).frames == 0,
            final(self).bytes == 0,
    {
        let r = (self.frames, self.bytes);
        self.frames = 0;
        self.bytes = 0;
        r
    }
}

/// The number of payload bytes in the packets.
pub open spec fn payload_total(pkts: Seq<EncodedPacket>) -> int
    decreases pkts.len(),
{
    if pkts.len() == 0 {
        0
    } else {
        payload_total(pkts.drop_last()) + pkts.last().data@.len()
    }
}

/// Nothing the encoder gives back is lost or made up: packets that carry an
/// encoder output hold exactly its bytes, and there are packets exactly when
/// the output is not empty.
pub proof fn law_packets_carry_the_whole_output(pkts: Seq<EncodedPacket>, out: Seq<u8>, pts: u64)
    requires
        packets_carry(pkts, out, pts),
    ensures
        payload_total(pkts) == out.len(),
        pkts.len() > 0 <==> out.len() > 0,
{
    if pkts.len() == 1 {
        assert(pkts.drop_last() =~= Seq::<EncodedPacket>::empty());
        assert(payload_total(pkts.drop_last()) == 0);
    }
}

/// The work of sending one captured frame, short of the sending: the alpha
/// byte is dropped, the RGB frame is encoded, and the payload bytes are
/// counted. The frame handed to the encoder is `rgb_of_rgba(rgba)`.
pub fn prepare_frame(encoder: &mut VideoEncoder, rgba: &[u8]) -> (r: Result<
    (Vec<EncodedPacket>, usize),
    EncodeError,
>)
    requires
        old(encoder).spec_width() % 2 == 0,
        old(encoder).spec_height() % 2 == 0,
        rgba@.len() == old(encoder).spec_width() * old(encoder).spec_height() * 4,
        old(encoder).spec_pts() < u64::MAX,
    ensures
        final(encoder).spec_pts() == old(encoder).spec_pts() + 1,
        final(encoder).spec_width() == old(encoder).spec_width(),
        final(encoder).spec_height() == old(encoder).spec_height(),
        final(encoder).spec_frames() == old(encoder).spec_frames().push(
            (
                rgb_of_rgba(rgba@),
                old(encoder).spec_width() as usize,
                old(encoder).spec_height() as usize,
            ),
        ),
        r matches Ok((pkts, total)) ==> frame_packets(pkts@, old(encoder).spec_pts()) && total
            == payload_total(pkts@),
        r matches Ok((pkts, total)) ==> final(encoder).spec_outputs().len() == old(
            encoder,
        ).spec_outputs().len() + 1 && final(encoder).spec_outputs().drop_last() == old(
            encoder,
        ).spec_outputs() && packets_carry(
            pkts@,
            final(encoder).spec_outputs().last(),
            old(encoder).spec_pts(),
        ),
        r is Err ==> final(encoder).spec_outputs() == old(encoder).spec_outputs(),
{
    let rgb = rgba_to_rgb(rgba);
    let ghost w = encoder.spec_width() as int;
    let ghost h = encoder.spec_height() as int;
    assert((w * h * 4) / 4 * 3 == w * h * 3) by (nonlinear_arith);
    let pkts = match encoder.encode_rgb(rgb.as_slice()) {
        Ok(p) => p,
        Err(e) => return Err(e),
    };
    // an encoded frame gives at most one packet
    let total: usize = if pkts.len() == 0 {
        0
    } else {
        pkts[0].data.len()
    };
    proof {
        if pkts@.len() == 1 {
            assert(pkts@.drop_last() =~= Seq::<EncodedPacket>::empty());
            assert(payload_total(pkts@.drop_last()) == 0);
            assert(pkts@.last() == pkts@[0]);
        }
    }
    Ok((pkts, total))
}

// ─── Server session steps ───────────────────────────────────────────────────

/// How far a server session has got.
#[derive(Debug, Clone, Copy, PartialEq, Eq, Structural)]
pub enum ServerPhase {
    /// Not started yet.
    Idle,
    /// Loading the certificate and opening the listener.
    Starting,
    /// Listening for clients.
    Running,
    /// Stopped or failed; nothing more happens.
    Ended,
}

/// What happens to a server session.
#[derive(Debug, Clone)]
pub enum ServerEvent {
    /// The session thread started.
    Begin,
    /// The listener is open at this address.
    Listening(ListenAddr),
    /// The UI asked to stop, or its command channel closed.
    StopRequested,
    /// The session ended with this error.
    Failed(String),
}

/// The next phase of a server session, and the status the UI then shows (none
/// when it stays): Starting, then Running at its address, then Stopped; a
/// failure while starting or running shows the error. Other events change nothing.
pub open spec fn server_transition(phase: ServerPhase, ev: ServerEvent) -> (ServerPhase, Option<
    ServerStatus,
>) {
    match ev {
        ServerEvent::Begin => if phase == ServerPhase::Idle {
            (ServerPhase::Starting, Some(ServerStatus::Starting))
        } else {
            (phase, None)
        },
        ServerEvent::Listening(addr) => if phase == ServerPhase::Starting {
            (ServerPhase::Running, Some(ServerStatus::Running { addr }))
        } else {
            (phase, None)
        },
        ServerEvent::StopRequested => if phase == ServerPhase::Running {
            (ServerPhase::Ended, Some(ServerStatus::Stopped))
        } else {
            (phase, None)
        },
        ServerEvent::Failed(m) => if phase == ServerPhase::Starting || phase
            == ServerPhase::Running {
            (ServerPhase::Ended, Some(ServerStatus::Error(m)))
        } else {
            (phase, None)
        },
    }
}

impl SharedState {
    /// Applies a session event: the status becomes the one the step shows (or
    /// stays), and the next phase is returned.
    pub fn apply_event(&mut self, phase: ServerPhase, ev: ServerEvent) -> (next: ServerPhase)
        ensures
            next == server_transition(phase, ev).0,
            final(self).status == match server_transition(phase, ev).1 {
                Some(st) => st,
                None => old(self).status,
            },
            final(self).stats == old(self).stats,
            final(self).config == old(self).config,
    {
        match ev {
            ServerEvent::Begin => if phase == ServerPhase::Idle {
                self.status = ServerStatus::Starting;
                ServerPhase::Starting
            } else {
                phase
            },
            ServerEvent::Listening(addr) => if phase == ServerPhase::Starting {
                self.status = ServerStatus::Running { addr };
                ServerPhase::Running
            } else {
                phase
            },
            ServerEvent::StopRequested => if phase == ServerPhase::Running {
                self.status = ServerStatus::Stopped;
                ServerPhase::Ended
            } else {
                phase
            },
            ServerEvent::Failed(m) => if phase == ServerPhase::Starting || phase
                == ServerPhase::Running {
                self.status = ServerStatus::Error(m);
                ServerPhase::Ended
            } else {
                phase
            },
        }
    }
}

/// The statuses a server session shows, in order, for a run of events.
pub open spec fn server_statuses(phase: ServerPhase, evs: Seq<ServerEvent>) -> Seq<ServerStatus>
    decreases evs.len(),
{
    if evs.len() == 0 {
        Seq::empty()
    } else {
        let (next, shown) = server_transition(phase, evs[0]);
        match shown {
            Some(st) => seq![st] + server_statuses(next, evs.drop_first()),
            None => server_statuses(next, evs.drop_first()),
        }
    }
}

/// The statuses still to come from a phase: at most one more from Running
/// (Stopped or an error), at most Running then that from Starting.
pub open spec fn server_statuses_from(phase: ServerPhase, s: Seq<ServerStatus>) -> bool {
    match phase {
        ServerPhase::Ended => s.len() == 0,
        ServerPhase::Running => s.len() <= 1 && (s.len() == 1 ==> (s[0] is Stopped || s[0] is Error)),
        ServerPhase::Starting => server_statuses_after_start(s),
        ServerPhase::Idle => s.len() >= 1 ==> s[0] is Starting && server_statuses_after_start(
            s.drop_first(),
        ),
    }
}

/// The statuses that may follow Starting.
pub open spec fn server_statuses_after_start(s: Seq<ServerStatus>) -> bool {
    &&& s.len() <= 2
    &&& s.len() >= 1 ==> (s[0] is Running || s[0] is Error)
    &&& s.len() == 2 ==> s[0] is Running && (s[1] is Stopped || s[1] is Error)
}

proof fn lemma_server_statuses(phase: ServerPhase, evs: Seq<ServerEvent>)
    ensures
        server_statuses_from(phase, server_statuses(phase, evs)),
    decreases evs.len(),
{
    let s = server_statuses(phase, evs);
    if evs.len() > 0 {
        let (next, shown) = server_transition(phase, evs[0]);
        lemma_server_statuses(next, evs.drop_first());
        let t = server_statuses(next, evs.drop_first());
        match shown {
            Some(st) => {
                assert(s == seq![st] + t);
                assert(s[0] == st);
                assert(s.drop_first() =~= t);
                if t.len() >= 1 {
                    assert(s[1] == t[0]);
                }
                if t.len() >= 2 {
                    assert(s[2] == t[1]);
                }
            },
            None => {
                assert(next == phase);
            },
        }
    }
}

/// A server session shows its statuses in order: Starting first, then Running
/// at its address or an error, and after Running, Stopped or an error; nothing
/// after that.
pub proof fn law_server_status_order(evs: Seq<ServerEvent>)
    ensures
        ({
            let s = server_statuses(ServerPhase::Idle, evs);
            &&& s.len() <= 3
            &&& s.len() >= 1 ==> s[0] is Starting
            &&& s.len() >= 2 ==> (s[1] is Running || s[1] is Error)
            &&& s.len() == 3 ==> s[1] is Running && (s[2] is Stopped || s[2] is Error)
        }),
{
    lemma_server_statuses(ServerPhase::Idle, evs);
    let s = server_statuses(ServerPhase::Idle, evs);
    if s.len() >= 2 {
        assert(s.drop_first()[0] == s[1]);
    }
    if s.len() == 3 {
        assert(s.drop_first()[1] == s[2]);
    }
}

/// The phase a server session reaches after a run of events.
pub open spec fn server_phase_after(phase: ServerPhase, evs: Seq<ServerEvent>) -> ServerPhase
    decreases evs.len(),
{
    if evs.len() == 0 {
        phase
    } else {
        server_phase_after(server_transition(phase, evs[0]).0, evs.drop_first())
    }
}

proof fn lemma_server_steps_push(phase: ServerPhase, evs: Seq<ServerEvent>, e: ServerEvent)
    ensures
        server_phase_after(phase, evs.push(e)) == server_transition(
            server_phase_after(phase, evs),
            e,
        ).0,
        server_statuses(phase, evs.push(e)) == server_statuses(phase, evs) + match server_transition(
            server_phase_after(phase, evs),
            e,
        ).1 {
            Some(st) => seq![st],
            None => Seq::<ServerStatus>::empty(),
        },
    decreases evs.len(),
{
    let all = evs.push(e);
    let here = server_phase_after(phase, evs);
    let extra = match server_transition(here, e).1 {
        Some(st) => seq![st],
        None => Seq::<ServerStatus>::empty(),
    };
    assert(all.len() > 0);
    if evs.len() == 0 {
        let t = server_transition(phase, e);
        assert(all.drop_first() =~= Seq::<ServerEvent>::empty());
        assert(all[0] == e);
        assert(here == phase);
        assert(server_phase_after(t.0, all.drop_first()) == t.0);
        assert(server_phase_after(phase, all) == server_phase_after(t.0, all.drop_first()));
        assert(server_statuses(t.0, all.drop_first()) == Seq::<ServerStatus>::empty());
        assert(server_statuses(phase, evs) == Seq::<ServerStatus>::empty());
        match t.1 {
            Some(st) => {
                assert(server_statuses(phase, all) == seq![st] + server_statuses(
                    t.0,
                    all.drop_first(),
                ));
                assert(seq![st] + Seq::<ServerStatus>::empty() =~= seq![st]);
                assert(Seq::<ServerStatus>::empty() + seq![st] =~= seq![st]);
            },
            None => {
                assert(server_statuses(phase, all) == server_statuses(t.0, all.drop_first()));
                assert(Seq::<ServerStatus>::empty() + Seq::<ServerStatus>::empty() =~= Seq::<
                    ServerStatus,
                >::empty());
            },
        }
    } else {
        let t = server_transition(phase, evs[0]);
        assert(all[0] == evs[0]);
        assert(all.drop_first() =~= evs.drop_first().push(e));
        lemma_server_steps_push(t.0, evs.drop_first(), e);
        assert(here == server_phase_after(t.0, evs.drop_first()));
        assert(server_phase_after(phase, all) == server_phase_after(t.0, all.drop_first()));
        let tail = server_statuses(t.0, evs.drop_first());
        match t.1 {
            Some(st) => {
                assert(server_statuses(phase, evs) == seq![st] + tail);
                assert(server_statuses(phase, all) == seq![st] + server_statuses(
                    t.0,
                    all.drop_first(),
                ));
                assert(seq![st] + (tail + extra) =~= (seq![st] + tail) + extra);
            },
            None => {
                assert(server_statuses(phase, evs) == tail);
                assert(server_statuses(phase, all) == server_statuses(t.0, all.drop_first()));
            },
        }
    }
}

/// A running server that is asked to stop ends, and the last status it shows
/// is Stopped: the statuses shown are those shown before, then Stopped.
pub proof fn law_server_ends_stopped(evs: Seq<ServerEvent>)
    requires
        server_phase_after(ServerPhase::Idle, evs) == ServerPhase::Running,
    ensures
        server_phase_after(ServerPhase::Idle, evs.push(ServerEvent::StopRequested))
            == ServerPhase::Ended,
        server_statuses(ServerPhase::Idle, evs.push(ServerEvent::StopRequested)) == server_statuses(
            ServerPhase::Idle,
            evs,
        ).push(ServerStatus::Stopped),
{
    lemma_server_steps_push(ServerPhase::Idle, evs, ServerEvent::StopRequested);
    assert(server_statuses(ServerPhase::Idle, evs) + seq![ServerStatus::Stopped]
        =~= server_statuses(ServerPhase::Idle, evs).push(ServerStatus::Stopped));
}

/// A client that joins and then leaves leaves the count as it was.
pub proof fn law_join_then_leave_restores_count(before: usize)
    requires
        before < usize::MAX,
    ensures
        ({
            let joined = (before + 1) as usize;
            (if joined > 0 { (joined - 1) as usize } else { 0usize }) == before
        }),
{
}

// ─── Client ─────────────────────────────────────────────────────────────────

/// What the client is doing, as the UI shows it.
#[derive(Debug, Clone)]
pub enum ClientStatus {
    Disconnected,
    Connecting,
    Connected,
    Error(String),
}

impl Default for ClientStatus {
    fn default() -> (s: Self)
        ensures
            s is Disconnected,
    {
        ClientStatus::Disconnected
    }
}

/// Live numbers of the client session (`f32` values kept as bit patterns).
#[derive(Debug, Clone)]
pub struct ClientStats {
    pub fps_bits: u32,
    pub bitrate_kbps_bits: u32,
    pub rtt_ms_bits: u32,
}

impl Default for ClientStats {
    fn default() -> (s: Self)
        ensures
            s.fps_bits == 0,
            s.bitrate_kbps_bits == 0,
            s.rtt_ms_bits == 0,
    {
        ClientStats { fps_bits: 0, bitrate_kbps_bits: 0, rtt_ms_bits: 0 }
    }
}

/// A decoded frame handed to the UI.
pub struct VideoFrame {
    pub width: u32,
    pub height: u32,
    pub rgba: Vec<u8>,
}

/// A frame as plain values.
pub struct FrameView {
    pub width: u32,
    pub height: u32,
    pub rgba: Seq<u8>,
}

impl View for VideoFrame {
    type V = FrameView;

    open spec fn view(&self) -> FrameView {
        FrameView { width: self.width, height: self.height, rgba: self.rgba@ }
    }
}

/// State shared between the client UI and its session.
pub struct SharedClientState {
    pub status: ClientStatus,
    pub stats: ClientStats,
    pub latest_frame: Option<VideoFrame>,
    /// A frame arrived that the UI has not taken yet.
    pub frame_dirty: bool,
}

impl SharedClientState {
    pub fn new() -> (s: Self)
        ensures
            s.status is Disconnected,
            s.latest_frame is None,
            !s.frame_dirty,
            s.stats.fps_bits == 0,
            s.stats.bitrate_kbps_bits == 0,
            s.stats.rtt_ms_bits == 0,
    {
        SharedClientState {
            status: ClientStatus::Disconnected,
            stats: ClientStats::default(),
            latest_frame: None,
            frame_dirty: false,
        }
    }

    /// The session is connecting.
    pub fn mark_connecting(&mut self)
        ensures
            final(self).status is Connecting,
            final(self).stats == old(self).stats,
            final(self).latest_frame == old(self).latest_frame,
            final(self).frame_dirty == old(self).frame_dirty,
    {
        self.status = ClientStatus::Connecting;
    }

    /// The session is connected.
    pub fn mark_connected(&mut self)
        ensures
            final(self).status is Connected,
            final(self).stats == old(self).stats,
            final(self).latest_frame == old(self).latest_frame,
            final(self).frame_dirty == old(self).frame_dirty,
    {
        self.status = ClientStatus::Connected;
    }

    /// The session ended (the stream closed or the user disconnected).
    pub fn mark_disconnected(&mut self)
        ensures
            final(self).status is Disconnected,
            final(self).stats == old(self).stats,
            final(self).latest_frame == old(self).latest_frame,
            final(self).frame_dirty == old(self).frame_dirty,
    {
        self.status = ClientStatus::Disconnected;
    }

    /// The session failed with the given message.
    pub fn mark_failed(&mut self, message: String)
        ensures
            final(self).status == ClientStatus::Error(message),
            final(self).stats == old(self).stats,
            final(self).latest_frame == old(self).latest_frame,
            final(self).frame_dirty == old(self).frame_dirty,
    {
        self.status = ClientStatus::Error(message);
    }

    /// The session stores a freshly decoded frame for the UI.
    pub fn publish_frame(&mut self, frame: VideoFrame)
        ensures
            final(self).latest_frame == Some(frame),
            final(self).frame_dirty,
            final(self).status == old(self).status,
            final(self).stats == old(self).stats,
    {
        self.latest_frame = Some(frame);
        self.frame_dirty = true;
    }

    /// The UI takes the newest frame if it has not taken it yet: a copy of
    /// it, and the frame stays stored; nothing when no new frame arrived.
    pub fn take_new_frame(&mut self) -> (f: Option<VideoFrame>)
        ensures
            !final(self).frame_dirty,
            final(self).latest_frame == old(self).latest_frame,
            final(self).status == old(self).status,
            final(self).stats == old(self).stats,
            match fresh_frame(*old(self)) {
                Some(v) => f matches Some(c) && c@ == v,
                None => f is None,
            },
    {
        if self.frame_dirty {
            self.frame_dirty = false;
            match &self.latest_frame {
                Some(l) => {
                    let rgba = l.rgba.clone();
                    assert(rgba@ =~= l.rgba@);
                    Some(VideoFrame { width: l.width, height: l.height, rgba })
                },
                None => None,
            }
        } else {
            None
        }
    }
}

/// The frame the UI would take now: the stored one if it is new, else none.
pub open spec fn fresh_frame(s: SharedClientState) -> Option<FrameView> {
    if s.frame_dirty {
        match s.latest_frame {
            Some(f) => Some(f@),
            None => None,
        }
    } else {
        None
    }
}

/// Each published frame reaches the UI once: in a state where a frame was just
/// published the UI takes that frame, and in the state a take leaves behind it
/// takes nothing until the next frame is published.
pub proof fn law_published_frame_is_taken_once(s: SharedClientState, frame: VideoFrame)
    ensures
        s.latest_frame == Some(frame) && s.frame_dirty ==> fresh_frame(s) == Some(frame@),
        !s.frame_dirty ==> fresh_frame(s) is None,
{
}

// ─── Client session steps ───────────────────────────────────────────────────

/// How far a client session has got.
#[derive(Debug, Clone, Copy, PartialEq, Eq, Structural)]
pub enum ClientPhase {
    /// Not started yet.
    Idle,
    /// Dialling the server.
    Connecting,
    /// Connected and streaming.
    Connected,
    /// Disconnected or failed; nothing more happens.
    Ended,
}

/// What happens to a client session.
#[derive(Debug, Clone)]
pub enum ClientEvent {
    /// The session thread started.
    Begin,
    /// The authenticated connection is up.
    ConnectSucceeded,
    /// The video stream ended.
    StreamEnded,
    /// The user disconnected, or the command channel closed.
    DisconnectRequested,
    /// The session ended with this error.
    Failed(String),
}

/// The next phase of a client session, and the status the UI then shows (none
/// when it stays): Connecting, then Connected, then Disconnected when the
/// stream ends or the user leaves; a failure while connecting or connected
/// shows the error. Other events change nothing.
pub open spec fn client_transition(phase: ClientPhase, ev: ClientEvent) -> (ClientPhase, Option<
    ClientStatus,
>) {
    match ev {
        ClientEvent::Begin => if phase == ClientPhase::Idle {
            (ClientPhase::Connecting, Some(ClientStatus::Connecting))
        } else {
            (phase, None)
        },
        ClientEvent::ConnectSucceeded => if phase == ClientPhase::Connecting {
            (ClientPhase::Connected, Some(ClientStatus::Connected))
        } else {
            (phase, None)
        },
        ClientEvent::StreamEnded | ClientEvent::DisconnectRequested => if phase
            == ClientPhase::Connected {
            (ClientPhase::Ended, Some(ClientStatus::Disconnected))
        } else {
            (phase, None)
        },
        ClientEvent::Failed(m) => if phase == ClientPhase::Connecting || phase
            == ClientPhase::Connected {
            (ClientPhase::Ended, Some(ClientStatus::Error(m)))
        } else {
            (phase, None)
        },
    }
}

impl SharedClientState {
    /// Applies a session event: the status becomes the one the step shows (or
    /// stays), and the next phase is returned.
    pub fn apply_event(&mut self, phase: ClientPhase, ev: ClientEvent) -> (next: ClientPhase)
        ensures
            next == client_transition(phase, ev).0,
            final(self).status == match client_transition(phase, ev).1 {
                Some(st) => st,
                None => old(self).status,
            },
            final(self).stats == old(self).stats,
            final(self).latest_frame == old(self).latest_frame,
            final(self).frame_dirty == old(self).frame_dirty,
    {
        match ev {
            ClientEvent::Begin => if phase == ClientPhase::Idle {
                self.status = ClientStatus::Connecting;
                ClientPhase::Connecting
            } else {
                phase
            },
            ClientEvent::ConnectSucceeded => if phase == ClientPhase::Connecting {
                self.status = ClientStatus::Connected;
                ClientPhase::Connected
            } else {
                phase
            },
            ClientEvent::StreamEnded | ClientEvent::DisconnectRequested => if phase
                == ClientPhase::Connected {
                self.status = ClientStatus::Disconnected;
                ClientPhase::Ended
            } else {
                phase
            },
            ClientEvent::Failed(m) => if phase == ClientPhase::Connecting || phase
                == ClientPhase::Connected {
                self.status = ClientStatus::Error(m);
                ClientPhase::Ended
            } else {
                phase
            },
        }
    }
}

/// The statuses a client session shows, in order, for a run of events.
pub open spec fn client_statuses(phase: ClientPhase, evs: Seq<ClientEvent>) -> Seq<ClientStatus>
    decreases evs.len(),
{
    if evs.len() == 0 {
        Seq::empty()
    } else {
        let (next, shown) = client_transition(phase, evs[0]);
        match shown {
            Some(st) => seq![st] + client_statuses(next, evs.drop_first()),
            None => client_statuses(next, evs.drop_first()),
        }
    }
}

/// The statuses still to come from a phase.
pub open spec fn client_statuses_from(phase: ClientPhase, s: Seq<ClientStatus>) -> bool {
    match phase {
        ClientPhase::Ended => s.len() == 0,
        ClientPhase::Connected => s.len() <= 1 && (s.len() == 1 ==> (s[0] is Disconnected
            || s[0] is Error)),
        ClientPhase::Connecting => client_statuses_after_connecting(s),
        ClientPhase::Idle => s.len() >= 1 ==> s[0] is Connecting
            && client_statuses_after_connecting(s.drop_first()),
    }
}

/// The statuses that may follow Connecting.
pub open spec fn client_statuses_after_connecting(s: Seq<ClientStatus>) -> bool {
    &&& s.len() <= 2
    &&& s.len() >= 1 ==> (s[0] is Connected || s[0] is Error)
    &&& s.len() == 2 ==> s[0] is Connected && (s[1] is Disconnected || s[1] is Error)
}

proof fn lemma_client_statuses(phase: ClientPhase, evs: Seq<ClientEvent>)
    ensures
        client_statuses_from(phase, client_statuses(phase, evs)),
    decreases evs.len(),
{
    let s = client_statuses(phase, evs);
    if evs.len() > 0 {
        let (next, shown) = client_transition(phase, evs[0]);
        lemma_client_statuses(next, evs.drop_first());
        let t = client_statuses(next, evs.drop_first());
        match shown {
            Some(st) => {
                assert(s == seq![st] + t);
                assert(s[0] == st);
                assert(s.drop_first() =~= t);
                if t.len() >= 1 {
                    assert(s[1] == t[0]);
                }
                if t.len() >= 2 {
                    assert(s[2] == t[1]);
                }
            },
            None => {
                assert(next == phase);
            },
        }
    }
}

/// A client session shows its statuses in order: Connecting first, then
/// Connected or an error, and after Connected, Disconnected or an error;
/// nothing after that.
pub proof fn law_client_status_order(evs: Seq<ClientEvent>)
    ensures
        ({
            let s = client_statuses(ClientPhase::Idle, evs);
            &&& s.len() <= 3
            &&& s.len() >= 1 ==> s[0] is Connecting
            &&& s.len() >= 2 ==> (s[1] is Connected || s[1] is Error)
            &&& s.len() == 3 ==> s[1] is Connected && (s[2] is Disconnected || s[2] is Error)
        }),
{
    lemma_client_statuses(ClientPhase::Idle, evs);
    let s = client_statuses(ClientPhase::Idle, evs);
    if s.len() >= 2 {
        assert(s.drop_first()[0] == s[1]);
    }
    if s.len() == 3 {
        assert(s.drop_first()[1] == s[2]);
    }
}

/// The phase a client session reaches after a run of events.
pub open spec fn client_phase_after(phase: ClientPhase, evs: Seq<ClientEvent>) -> ClientPhase
    decreases evs.len(),
{
    if evs.len() == 0 {
        phase
    } else {
        client_phase_after(client_transition(phase, evs[0]).0, evs.drop_first())
    }
}

proof fn lemma_client_steps_push(phase: ClientPhase, evs: Seq<ClientEvent>, e: ClientEvent)
    ensures
        client_phase_after(phase, evs.push(e)) == client_transition(
            client_phase_after(phase, evs),
            e,
        ).0,
        client_statuses(phase, evs.push(e)) == client_statuses(phase, evs) + match client_transition(
            client_phase_after(phase, evs),
            e,
        ).1 {
            Some(st) => seq![st],
            None => Seq::<ClientStatus>::empty(),
        },
    decreases evs.len(),
{
    let all = evs.push(e);
    let here = client_phase_after(phase, evs);
    let extra = match client_transition(here, e).1 {
        Some(st) => seq![st],
        None => Seq::<ClientStatus>::empty(),
    };
    assert(all.len() > 0);
    if evs.len() == 0 {
        let t = client_transition(phase, e);
        assert(all.drop_first() =~= Seq::<ClientEvent>::empty());
        assert(all[0] == e);
        assert(here == phase);
        assert(client_phase_after(t.0, all.drop_first()) == t.0);
        assert(client_phase_after(phase, all) == client_phase_after(t.0, all.drop_first()));
        assert(client_statuses(t.0, all.drop_first()) == Seq::<ClientStatus>::empty());
        assert(client_statuses(phase, evs) == Seq::<ClientStatus>::empty());
        match t.1 {
            Some(st) => {
                assert(client_statuses(phase, all) == seq![st] + client_statuses(
                    t.0,
                    all.drop_first(),
                ));
                assert(seq![st] + Seq::<ClientStatus>::empty() =~= seq![st]);
                assert(Seq::<ClientStatus>::empty() + seq![st] =~= seq![st]);
            },
            None => {
                assert(client_statuses(phase, all) == client_statuses(t.0, all.drop_first()));
                assert(Seq::<ClientStatus>::empty() + Seq::<ClientStatus>::empty() =~= Seq::<
                    ClientStatus,
                >::empty());
            },
        }
    } else {
        let t = client_transition(phase, evs[0]);
        assert(all[0] == evs[0]);
        assert(all.drop_first() =~= evs.drop_first().push(e));
        lemma_client_steps_push(t.0, evs.drop_first(), e);
        assert(here == client_phase_after(t.0, evs.drop_first()));
        assert(client_phase_after(phase, all) == client_phase_after(t.0, all.drop_first()));
        let tail = client_statuses(t.0, evs.drop_first());
        match t.1 {
            Some(st) => {
                assert(client_statuses(phase, evs) == seq![st] + tail);
                assert(client_statuses(phase, all) == seq![st] + client_statuses(
                    t.0,
                    all.drop_first(),
                ));
                assert(seq![st] + (tail + extra) =~= (seq![st] + tail) + extra);
            },
            None => {
                assert(client_statuses(phase, evs) == tail);
                assert(client_statuses(phase, all) == client_statuses(t.0, all.drop_first()));
            },
        }
    }
}

/// A connected session that sees its video stream end, or its user leave,
/// ends, and the last status it shows is Disconnected: the statuses shown are
/// those shown before, then Disconnected.
pub proof fn law_client_ends_disconnected(evs: Seq<ClientEvent>, last: ClientEvent)
    requires
        client_phase_after(ClientPhase::Idle, evs) == ClientPhase::Connected,
        last is StreamEnded || last is DisconnectRequested,
    ensures
        client_phase_after(ClientPhase::Idle, evs.push(last)) == ClientPhase::Ended,
        client_statuses(ClientPhase::Idle, evs.push(last)) == client_statuses(
            ClientPhase::Idle,
            evs,
        ).push(ClientStatus::Disconnected),
{
    lemma_client_steps_push(ClientPhase::Idle, evs, last);
    assert(client_statuses(ClientPhase::Idle, evs) + seq![ClientStatus::Disconnected]
        =~= client_statuses(ClientPhase::Idle, evs).push(ClientStatus::Disconnected));
}

/// The kinds of packet on the video channel.
#[derive(Debug, Clone, Copy, PartialEq, Eq, Structural)]
pub enum VideoPacketKind {
    /// Codec description (sent first by the server).
    Codec,
    /// An encoded frame.
    Media,
    /// A gap in an unreliable stream.
    Hole,
}

/// The client decodes media only after the codec packet came.
pub struct VideoIntake {
    pub codec_seen: bool,
}

impl VideoIntake {
    pub fn new() -> (g: Self)
        ensures
            !g.codec_seen,
    {
        VideoIntake { codec_seen: false }
    }

    /// Whether this packet is decoded; after a codec packet every media packet is.
    pub fn accept_packet(&mut self, kind: VideoPacketKind) -> (decode: bool)
        ensures
            final(self).codec_seen == (old(self).codec_seen || kind == VideoPacketKind::Codec),
            decode == (kind == VideoPacketKind::Media && old(self).codec_seen),
    {
        match kind {
            VideoPacketKind::Codec => {
                self.codec_seen = true;
                false
            },
            VideoPacketKind::Media => self.codec_seen,
            VideoPacketKind::Hole => false,
        }
    }
}

/// Whether a codec packet has been seen after the given packets, starting from
/// `open`: `accept_packet` applied to each in turn.
pub open spec fn codec_seen_after(open: bool, kinds: Seq<VideoPacketKind>) -> bool
    decreases kinds.len(),
{
    if kinds.len() == 0 {
        open
    } else {
        codec_seen_after(open, kinds.drop_last()) || kinds.last() == VideoPacketKind::Codec
    }
}

/// From a fresh intake, media is decoded exactly once some codec packet came before it.
pub proof fn law_media_waits_for_codec(kinds: Seq<VideoPacketKind>)
    ensures
        codec_seen_after(false, kinds) <==> exists|i: int|
            0 <= i < kinds.len() && kinds[i] == VideoPacketKind::Codec,
    decreases kinds.len(),
{
    if kinds.len() > 0 {
        law_media_waits_for_codec(kinds.drop_last());
        if codec_seen_after(false, kinds.drop_last()) {
            let i = choose|i: int|
                0 <= i < kinds.drop_last().len() && kinds.drop_last()[i] == VideoPacketKind::Codec;
            assert(kinds[i] == VideoPacketKind::Codec);
        } else if kinds.last() == VideoPacketKind::Codec {
            assert(kinds[kinds.len() - 1] == VideoPacketKind::Codec);
        } else {
            assert forall|i: int| 0 <= i < kinds.len() implies kinds[i]
                != VideoPacketKind::Codec by {
                if i < kinds.len() - 1 {
                    assert(kinds[i] == kinds.drop_last()[i]);
                }
            }
        }
    }
}

/// What the client needs to connect.
pub struct ConnectParams {
    pub host: String,
    pub port: u16,
    pub password: String,
    pub cert_hash: String,
    pub video_protocol: VideoProtocolChoice,
}

/// The text without `:` and ` ` characters.
pub open spec fn without_separators(s: Seq<char>) -> Seq<char>
    decreases s.len(),
{
    if s.len() == 0 {
        s
    } else if s.last() == ':' || s.last() == ' ' {
        without_separators(s.drop_last())
    } else {
        without_separators(s.drop_last()).push(s.last())
    }
}

/// The fingerprint to pin: none when the user left it empty, else the text
/// without `:` and spaces, lowercased (the UI shows `B8:66:...`, the transport
/// expects `b866...`).
pub open spec fn pinned_hash(cert_hash: Seq<char>) -> Option<Seq<char>> {
    if cert_hash.len() == 0 {
        None
    } else {
        Some(to_lowercase(without_separators(cert_hash)))
    }
}

/// The fingerprint to pin for ASCII text: lowercasing turns `A`..`Z` into `a`..`z`.
pub open spec fn pinned_hash_ascii(cert_hash: Seq<char>) -> Option<Seq<char>> {
    if cert_hash.len() == 0 {
        None
    } else {
        Some(ascii_lower(without_separators(cert_hash)))
    }
}

proof fn lemma_without_separators_ascii(s: Seq<char>)
    requires
        all_ascii(s),
    ensures
        all_ascii(without_separators(s)),
    decreases s.len(),
{
    if s.len() > 0 {
        lemma_without_separators_ascii(s.drop_last());
    }
}

/// Normalises the fingerprint the user typed.
pub fn normalize_cert_hash(cert_hash: &str) -> (r: Option<String>)
    ensures
        match pinned_hash(cert_hash@) {
            Some(h) => r matches Some(s) && s@ == h,
            None => r is None,
        },
        all_ascii(cert_hash@) ==> match pinned_hash_ascii(cert_hash@) {
            Some(h) => r matches Some(s) && s@ == h,
            None => r is None,
        },
{
    let chars = crate::text::chars_of(cert_hash);
    if chars.len() == 0 {
        return None;
    }
    let mut clean = String::new();
    let mut i: usize = 0;
    while i < chars.len()
        invariant
            chars@ == cert_hash@,
            i <= chars@.len(),
            clean@ == without_separators(cert_hash@.subrange(0, i as int)),
        decreases chars@.len() - i,
    {
        assert(cert_hash@.subrange(0, i + 1).drop_last() =~= cert_hash@.subrange(0, i as int));
        let c = chars[i];
        if c != ':' && c != ' ' {
            push_char(&mut clean, c);
        }
        i = i + 1;
    }
    assert(cert_hash@.subrange(0, i as int) =~= cert_hash@);
    proof {
        if all_ascii(cert_hash@) {
            lemma_without_separators_ascii(cert_hash@);
        }
    }
    Some(to_lowercase_text(clean.as_str()))
}

// ─── The fingerprint round trip ─────────────────────────────────────────────

/// The texts one after another.
pub open spec fn concat_all(parts: Seq<Seq<char>>) -> Seq<char>
    decreases parts.len(),
{
    if parts.len() == 0 {
        Seq::empty()
    } else {
        concat_all(parts.drop_last()) + parts.last()
    }
}

/// No `:` and no space in the text.
pub open spec fn no_separators(s: Seq<char>) -> bool {
    forall|i: int| 0 <= i < s.len() ==> s[i] != ':' && s[i] != ' '
}

proof fn lemma_without_separators_concat(a: Seq<char>, b: Seq<char>)
    ensures
        without_separators(a + b) == without_separators(a) + without_separators(b),
    decreases b.len(),
{
    if b.len() == 0 {
        assert(a + b =~= a);
        assert(without_separators(a) + without_separators(b) =~= without_separators(a));
    } else {
        assert((a + b).drop_last() =~= a + b.drop_last());
        assert((a + b).last() == b.last());
        lemma_without_separators_concat(a, b.drop_last());
        if b.last() == ':' || b.last() == ' ' {
        } else {
            assert(without_separators(a) + without_separators(b.drop_last()).push(b.last())
                =~= (without_separators(a) + without_separators(b.drop_last())).push(b.last()));
        }
    }
}

proof fn lemma_without_separators_keeps(s: Seq<char>)
    requires
        no_separators(s),
    ensures
        without_separators(s) == s,
    decreases s.len(),
{
    if s.len() > 0 {
        lemma_without_separators_keeps(s.drop_last());
        assert(s.drop_last().push(s.last()) =~= s);
    }
}

proof fn lemma_colon_joined_without_separators(parts: Seq<Seq<char>>)
    requires
        forall|k: int| 0 <= k < parts.len() ==> no_separators(#[trigger] parts[k]),
    ensures
        without_separators(colon_joined(parts)) == concat_all(parts),
    decreases parts.len(),
{
    if parts.len() == 0 {
    } else if parts.len() == 1 {
        lemma_without_separators_keeps(parts[0]);
        assert(parts.drop_last() =~= Seq::<Seq<char>>::empty());
        assert(concat_all(parts.drop_last()) =~= Seq::<char>::empty());
        assert(Seq::<char>::empty() + parts[0] =~= parts[0]);
    } else {
        let front = parts.drop_last();
        assert forall|k: int| 0 <= k < front.len() implies no_separators(#[trigger] front[k]) by {
            assert(front[k] == parts[k]);
        }
        lemma_colon_joined_without_separators(front);
        let joined = colon_joined(front);
        lemma_without_separators_concat(joined + seq![':'], parts.last());
        lemma_without_separators_concat(joined, seq![':']);
        let colon: Seq<char> = seq![':'];
        assert(colon.last() == ':');
        assert(colon.drop_last() =~= Seq::<char>::empty());
        assert(without_separators(colon.drop_last()) =~= Seq::<char>::empty());
        assert(without_separators(colon) =~= Seq::<char>::empty());
        lemma_without_separators_keeps(parts.last());
        assert(without_separators(joined) + Seq::<char>::empty() =~= without_separators(joined));
    }
}

proof fn lemma_concat_pairs(h: Seq<char>)
    ensures
        concat_all(pairs_of(h)) == h,
    decreases h.len(),
{
    let p = pairs_of(h);
    if h.len() == 0 {
        assert(p.len() == 0);
    } else {
        let n = p.len() as int;
        let cut = 2 * (n - 1);
        let front = h.subrange(0, cut);
        let q = pairs_of(front);
        assert(q.len() == n - 1);
        assert(p.drop_last() =~= q) by {
            assert forall|k: int| 0 <= k < n - 1 implies p[k] == q[k] by {
                assert(2 * k + 2 <= cut);
                assert(p[k] =~= q[k]);
            }
        }
        lemma_concat_pairs(front);
        assert(p.last() =~= h.subrange(cut, h.len() as int));
        assert(front + h.subrange(cut, h.len() as int) =~= h);
    }
}

proof fn lemma_concat_upper(parts: Seq<Seq<char>>)
    ensures
        concat_all(parts.map_values(|g: Seq<char>| ascii_upper(g))) == ascii_upper(
            concat_all(parts),
        ),
    decreases parts.len(),
{
    let up = parts.map_values(|g: Seq<char>| ascii_upper(g));
    if parts.len() > 0 {
        assert(up.drop_last() =~= parts.drop_last().map_values(|g: Seq<char>| ascii_upper(g)));
        lemma_concat_upper(parts.drop_last());
        assert(ascii_upper(concat_all(parts.drop_last()) + parts.last()) =~= ascii_upper(
            concat_all(parts.drop_last()),
        ) + ascii_upper(parts.last()));
    } else {
        assert(ascii_upper(concat_all(parts)) =~= Seq::<char>::empty());
    }
}

proof fn lemma_colon_joined_ascii(parts: Seq<Seq<char>>)
    requires
        forall|k: int| 0 <= k < parts.len() ==> all_ascii(#[trigger] parts[k]),
    ensures
        all_ascii(colon_joined(parts)),
    decreases parts.len(),
{
    if parts.len() >= 2 {
        let front = parts.drop_last();
        assert forall|k: int| 0 <= k < front.len() implies all_ascii(#[trigger] front[k]) by {
            assert(front[k] == parts[k]);
        }
        lemma_colon_joined_ascii(front);
        let j = colon_joined(parts);
        let a = colon_joined(front);
        assert forall|i: int| 0 <= i < j.len() implies (j[i] as u32) < 128 by {
            if i < a.len() {
                assert(j[i] == a[i]);
            } else if i == a.len() {
                assert(j[i] == ':');
            } else {
                assert(j[i] == parts.last()[i - a.len() - 1]);
            }
        }
    } else if parts.len() == 1 {
        assert(all_ascii(parts[0]));
    }
}

/// What the server shows is what the client pins. For any non-empty text of
/// lowercase hex digits (of even length or not), the server shows it as
/// uppercase pairs joined by `:`, ASCII, so `format_fingerprint` gives exactly
/// this text; the client, given that text (ASCII, so `normalize_cert_hash`
/// pins exactly what this states), pins the hex text itself. (An empty text is
/// shown empty, and the client then pins nothing.)
pub proof fn law_shown_fingerprint_pins_certificate(h: Seq<char>)
    requires
        h.len() > 0,
        forall|i: int| 0 <= i < h.len() ==> is_lower_hex(#[trigger] h[i]),
    ensures
        all_ascii(h),
        all_ascii(fingerprint_display_ascii(h)),
        pinned_hash_ascii(fingerprint_display_ascii(h)) == Some(h),
{
    let pairs = pairs_of(h);
    let up = pairs.map_values(|g: Seq<char>| ascii_upper(g));
    let shown = colon_joined(up);
    assert forall|k: int| 0 <= k < up.len() implies no_separators(#[trigger] up[k]) && all_ascii(
        up[k],
    ) by {
        let g = pairs[k];
        assert forall|i: int| 0 <= i < g.len() implies is_lower_hex(#[trigger] g[i]) by {
            assert(g[i] == h[2 * k + i]);
        }
    }
    lemma_colon_joined_without_separators(up);
    lemma_colon_joined_ascii(up);
    lemma_concat_upper(pairs);
    lemma_concat_pairs(h);
    assert(without_separators(shown) == ascii_upper(h));
    assert(ascii_lower(ascii_upper(h)) =~= h);
    // the shown text is not empty: its first pair is not
    assert(up.len() >= 1);
    if up.len() == 1 {
        assert(shown == up[0]);
        assert(up[0].len() == pairs[0].len());
        assert(pairs[0].len() >= 1);
    } else {
        assert(shown.len() >= 1);
    }
}

/// A generated certificate's fingerprint, as the server shows it and the
/// client pins it, is the certificate's own fingerprint: the 64 hex digits of
/// the SHA-256 digest of its DER bytes.
pub proof fn law_server_fingerprint_is_pinned(c: ServerCert)
    requires
        is_generated_certificate(c),
    ensures
        all_ascii(c.cert_hash@),
        all_ascii(fingerprint_display_ascii(c.cert_hash@)),
        pinned_hash_ascii(fingerprint_display_ascii(c.cert_hash@)) == Some(
            fingerprint_of(c.cert_der@),
        ),
{
    lemma_hex_lower_digits(sha256(c.cert_der@));
    law_shown_fingerprint_pins_certificate(c.cert_hash@);
}

/// The port the connect form asks for: the trimmed text read as a `u16`, or
/// 8080 when it is not one.
pub open spec fn form_port(port_text: Seq<char>) -> u16 {
    match parsed_unsigned(trimmed(port_text)) {
        Some(v) => if v <= u16::MAX {
            v as u16
        } else {
            8080
        },
        None => 8080,
    }
}

impl ConnectParams {
    /// The connection the connect form describes: host and fingerprint trimmed,
    /// the port read from its text (8080 when unreadable), the password as typed,
    /// GOP streaming; none when the host is empty.
    pub fn from_form(host_text: &str, port_text: &str, password: &str, hash_text: &str) -> (r:
        Option<ConnectParams>)
        ensures
            trimmed(host_text@).len() == 0 ==> r is None,
            trimmed(host_text@).len() > 0 ==> (r matches Some(p) && {
                &&& p.host@ == trimmed(host_text@)
                &&& p.port == form_port(port_text@)
                &&& p.password@ == password@
                &&& p.cert_hash@ == trimmed(hash_text@)
                &&& p.video_protocol == VideoProtocolChoice::GopStream
            }),
    {
        let host = trim_text(host_text);
        let port_trimmed = trim_text(port_text);
        let port = match parse_u16(port_trimmed.as_str()) {
            Some(p) => p,
            None => 8080,
        };
        let cert_hash = trim_text(hash_text);
        if host.as_str().is_empty() {
            return None;
        }
        Some(ConnectParams {
            host,
            port,
            password: String::from_str(password),
            cert_hash,
            video_protocol: VideoProtocolChoice::GopStream,
        })
    }
}

/// The pages of the client window.
#[derive(Debug, Clone, Copy, PartialEq, Eq, Structural)]
pub enum ClientPage {
    Connect,
    Settings,
    Stream,
}

/// How long the client window waits before it repaints, in milliseconds:
/// about 60 times a second while streaming, 5 times a second otherwise.
pub fn repaint_delay_ms(page: ClientPage) -> (ms: u64)
    ensures
        ms == if page == ClientPage::Stream {
            16u64
        } else {
            200u64
        },
{
    match page {
        ClientPage::Stream => 16,
        _ => 200,
    }
}

/// Where the client window goes when it sees the session status: a failed
/// session sends the stream page back to the connect page and drops the
/// command channel (the second value); otherwise nothing changes.
pub fn page_after_status(page: ClientPage, status: &ClientStatus) -> (r: (ClientPage, bool))
    ensures
        page == ClientPage::Stream && status is Error ==> r == (ClientPage::Connect, true),
        !(page == ClientPage::Stream && status is Error) ==> r == (page, false),
{
    match (page, status) {
        (ClientPage::Stream, ClientStatus::Error(_)) => (ClientPage::Connect, true),
        _ => (page, false),
    }
}

} // verus!
