use syber::config::{ServerConfig, VideoProtocolChoice};
use syber::session::{
    listen_addr, normalize_cert_hash, page_after_status, AuthDecision, ClientPage, ClientStatus,
    ConnectParams, ServerStatus, SharedClientState, SharedState, VideoFrame, VideoIntake,
    VideoPacketKind,
};
use syber::session::{
    repaint_delay_ms, ClientEvent, ClientPhase, RateWindow, ServerEvent, ServerPhase,
};

fn state() -> SharedState {
    let mut config = ServerConfig::default();
    config.password = "s3cret".to_string();
    SharedState::new(config)
}

#[test]
fn server_status_lifecycle() {
    let mut s = state();
    assert!(matches!(s.status, ServerStatus::Stopped));
    assert!(!s.is_running());
    s.mark_starting();
    assert!(s.is_running());
    let addr = listen_addr(8080);
    assert_eq!(addr.ip, [0, 0, 0, 0]);
    assert_eq!(addr.port, 8080);
    s.mark_running(addr);
    assert!(s.is_running());
    s.mark_stopped();
    assert!(!s.is_running());
    s.mark_failed("boom".to_string());
    assert!(matches!(&s.status, ServerStatus::Error(m) if m == "boom"));
    assert!(!s.is_running());
}

#[test]
fn only_the_password_gets_in() {
    let s = state();
    assert_eq!(s.authenticate("s3cret"), AuthDecision::Accept);
    assert_eq!(s.authenticate("s3cre"), AuthDecision::Reject);
    assert_eq!(s.authenticate(""), AuthDecision::Reject);
    assert_eq!(s.authenticate("s3cret "), AuthDecision::Reject);
}

#[test]
fn client_count_never_negative() {
    let mut s = state();
    s.client_left();
    assert_eq!(s.stats.client_count, 0);
    s.client_joined();
    s.client_joined();
    assert_eq!(s.stats.client_count, 2);
    s.client_left();
    assert_eq!(s.stats.client_count, 1);
    s.record_rates(30.0f32.to_bits(), 1000.0f32.to_bits());
    assert_eq!(f32::from_bits(s.stats.fps_bits), 30.0);
    assert_eq!(s.stats.client_count, 1);
}

#[test]
fn frame_is_taken_once() {
    let mut s = SharedClientState::new();
    assert!(s.take_new_frame().is_none());
    s.publish_frame(VideoFrame { width: 2, height: 1, rgba: vec![1; 8] });
    let f = s.take_new_frame().unwrap();
    assert_eq!((f.width, f.height, f.rgba.len()), (2, 1, 8));
    assert!(s.take_new_frame().is_none());
    assert!(s.latest_frame.is_some());
    s.publish_frame(VideoFrame { width: 4, height: 4, rgba: vec![] });
    assert_eq!(s.take_new_frame().unwrap().width, 4);
}

#[test]
fn media_waits_for_codec() {
    let mut g = VideoIntake::new();
    assert!(!g.accept_packet(VideoPacketKind::Media));
    assert!(!g.accept_packet(VideoPacketKind::Hole));
    assert!(!g.accept_packet(VideoPacketKind::Codec));
    assert!(g.accept_packet(VideoPacketKind::Media));
    assert!(!g.accept_packet(VideoPacketKind::Hole));
    assert!(g.accept_packet(VideoPacketKind::Media));
}

#[test]
fn cert_hash_is_normalised() {
    assert_eq!(normalize_cert_hash(""), None);
    assert_eq!(normalize_cert_hash("B8:66:4A").unwrap(), "b8664a");
    assert_eq!(normalize_cert_hash("AB cd:EF").unwrap(), "abcdef");
    assert_eq!(normalize_cert_hash(": :").unwrap(), "");
}

#[test]
fn connect_form() {
    let p = ConnectParams::from_form("  192.168.1.10 ", " 9000\n", "pw ", " AB:CD ").unwrap();
    assert_eq!(p.host, "192.168.1.10");
    assert_eq!(p.port, 9000);
    assert_eq!(p.password, "pw ");
    assert_eq!(p.cert_hash, "AB:CD");
    assert_eq!(p.video_protocol, VideoProtocolChoice::GopStream);
    let p = ConnectParams::from_form("host", "port", "", "").unwrap();
    assert_eq!(p.port, 8080);
    let p = ConnectParams::from_form("host", "99999", "", "").unwrap();
    assert_eq!(p.port, 8080);
    assert!(ConnectParams::from_form(" \t ", "1", "", "").is_none());
}

#[test]
fn failed_session_leaves_stream_page() {
    assert_eq!(
        page_after_status(ClientPage::Stream, &ClientStatus::Error("x".into())),
        (ClientPage::Connect, true)
    );
    assert_eq!(
        page_after_status(ClientPage::Stream, &ClientStatus::Disconnected),
        (ClientPage::Stream, false)
    );
    assert_eq!(
        page_after_status(ClientPage::Settings, &ClientStatus::Error("x".into())),
        (ClientPage::Settings, false)
    );
}

#[test]
fn rate_window_counts_and_restarts() {
    let mut w = RateWindow::new();
    w.add_frame();
    w.add_frame();
    w.add_bytes(1500);
    w.add_bytes(20);
    assert_eq!(w.take(), (2, 1520));
    assert_eq!(w.take(), (0, 0));
}

#[test]
fn repaint_is_faster_while_streaming() {
    assert_eq!(repaint_delay_ms(ClientPage::Stream), 16);
    assert_eq!(repaint_delay_ms(ClientPage::Connect), 200);
    assert_eq!(repaint_delay_ms(ClientPage::Settings), 200);
}

#[test]
fn shown_fingerprint_pins_the_certificate() {
    let shown = syber::cert::ServerCert::format_fingerprint("ba7816bf0a");
    assert_eq!(shown, "BA:78:16:BF:0A");
    assert_eq!(normalize_cert_hash(&shown), Some("ba7816bf0a".to_string()));
    let cert = syber::cert::ServerCert::generate().unwrap();
    let shown = syber::cert::ServerCert::format_fingerprint(&cert.cert_hash);
    assert_eq!(normalize_cert_hash(&shown), Some(cert.cert_hash.clone()));
}

#[test]
fn client_status_lifecycle() {
    let mut s = SharedClientState::new();
    s.mark_connecting();
    assert!(matches!(s.status, ClientStatus::Connecting));
    s.mark_connected();
    assert!(matches!(s.status, ClientStatus::Connected));
    s.mark_failed("boom".to_string());
    assert!(matches!(&s.status, ClientStatus::Error(m) if m == "boom"));
    s.mark_disconnected();
    assert!(matches!(s.status, ClientStatus::Disconnected));
    assert!(s.latest_frame.is_none() && !s.frame_dirty);
}

#[test]
fn server_session_steps() {
    let mut s = state();
    let p = s.apply_event(ServerPhase::Idle, ServerEvent::StopRequested);
    assert_eq!(p, ServerPhase::Idle);
    assert!(matches!(s.status, ServerStatus::Stopped));
    let p = s.apply_event(p, ServerEvent::Begin);
    assert_eq!(p, ServerPhase::Starting);
    assert!(matches!(s.status, ServerStatus::Starting));
    let p = s.apply_event(p, ServerEvent::Begin);
    assert_eq!(p, ServerPhase::Starting);
    let p = s.apply_event(p, ServerEvent::Listening(listen_addr(9000)));
    assert_eq!(p, ServerPhase::Running);
    assert!(matches!(s.status, ServerStatus::Running { addr } if addr.port == 9000));
    let p = s.apply_event(p, ServerEvent::StopRequested);
    assert_eq!(p, ServerPhase::Ended);
    assert!(matches!(s.status, ServerStatus::Stopped));
    let p = s.apply_event(p, ServerEvent::Failed("late".to_string()));
    assert_eq!(p, ServerPhase::Ended);
    assert!(matches!(s.status, ServerStatus::Stopped));

    let mut s = state();
    let p = s.apply_event(ServerPhase::Idle, ServerEvent::Begin);
    let p = s.apply_event(p, ServerEvent::Failed("bad cert".to_string()));
    assert_eq!(p, ServerPhase::Ended);
    assert!(matches!(&s.status, ServerStatus::Error(m) if m == "bad cert"));
}

#[test]
fn client_session_steps() {
    let mut s = SharedClientState::new();
    let p = s.apply_event(ClientPhase::Idle, ClientEvent::Begin);
    assert_eq!(p, ClientPhase::Connecting);
    assert!(matches!(s.status, ClientStatus::Connecting));
    let p = s.apply_event(p, ClientEvent::StreamEnded);
    assert_eq!(p, ClientPhase::Connecting);
    let p = s.apply_event(p, ClientEvent::ConnectSucceeded);
    assert_eq!(p, ClientPhase::Connected);
    assert!(matches!(s.status, ClientStatus::Connected));
    let p = s.apply_event(p, ClientEvent::DisconnectRequested);
    assert_eq!(p, ClientPhase::Ended);
    assert!(matches!(s.status, ClientStatus::Disconnected));

    let mut s = SharedClientState::new();
    let p = s.apply_event(ClientPhase::Idle, ClientEvent::Begin);
    let p = s.apply_event(p, ClientEvent::Failed("invalid address".to_string()));
    assert_eq!(p, ClientPhase::Ended);
    assert!(matches!(&s.status, ClientStatus::Error(m) if m == "invalid address"));
}
