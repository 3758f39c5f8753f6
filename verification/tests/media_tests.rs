use syber::capture::{
    monitor_label, rgba_to_rgb, selected_monitor_label, CaptureError, MonitorInfo, ScreenCapture,
};
use syber::session::prepare_frame;
use syber::decode::{frame_of_picture, VideoDecoder};
use syber::encode::{find_first_nal_type, packets_for_bitstream, VideoEncoder};

#[test]
fn rgba_to_rgb_strips_alpha() {
    assert_eq!(rgba_to_rgb(&[1, 2, 3, 4, 5, 6, 7, 8]), vec![1, 2, 3, 5, 6, 7]);
    assert_eq!(rgba_to_rgb(&[1, 2, 3, 4, 5, 6]), vec![1, 2, 3]);
    assert_eq!(rgba_to_rgb(&[]), Vec::<u8>::new());
}

#[test]
fn monitor_choice_falls_back_to_first() {
    let c = ScreenCapture::new(2);
    assert_eq!(c.monitor_to_capture(3), Ok(2));
    assert_eq!(c.monitor_to_capture(2), Ok(0));
    assert_eq!(c.monitor_to_capture(0), Err(CaptureError::NoMonitor));
}

#[test]
fn nal_type_after_start_codes() {
    assert_eq!(find_first_nal_type(&[0, 0, 0, 1, 0x67, 0x42]), 7);
    assert_eq!(find_first_nal_type(&[0, 0, 1, 0x65, 0x88]), 5);
    assert_eq!(find_first_nal_type(&[9, 0, 0, 1, 0x68, 1]), 8);
    assert_eq!(find_first_nal_type(&[0, 0, 0, 1, 0x67]), 7);
    // a 3-byte start code in the last four bytes still has its header byte
    assert_eq!(find_first_nal_type(&[9, 0, 0, 1, 0x65]), 5);
    assert_eq!(find_first_nal_type(&[0, 0, 1, 0x65]), 5);
    // a start code with no header byte after it is no NAL unit
    assert_eq!(find_first_nal_type(&[9, 0, 0, 1]), 0);
    assert_eq!(find_first_nal_type(&[0, 0, 0, 1]), 0);
    assert_eq!(find_first_nal_type(&[1, 2, 3, 4, 5, 6]), 0);
}

#[test]
fn bitstream_becomes_one_flagged_packet() {
    assert!(packets_for_bitstream(vec![], 3).is_empty());
    let p = packets_for_bitstream(vec![0, 0, 0, 1, 0x67, 0], 4);
    assert_eq!(p.len(), 1);
    assert!(p[0].is_config && !p[0].is_keyframe);
    assert_eq!(p[0].pts, 4);
    let p = packets_for_bitstream(vec![0, 0, 1, 0x65, 0, 0], 5);
    assert!(p[0].is_keyframe && !p[0].is_config);
    let p = packets_for_bitstream(vec![0, 0, 1, 0x41, 0, 0], 6);
    assert!(!p[0].is_keyframe && !p[0].is_config);
}

#[test]
fn decoded_picture_sizes_narrow() {
    let f = frame_of_picture(4, 2, vec![0; 32]);
    assert_eq!((f.width, f.height, f.rgba.len()), (4, 2, 32));
}

#[test]
fn encode_then_decode_a_frame() {
    let config = openh264::encoder::EncoderConfig::new()
        .max_frame_rate(30.0)
        .set_bitrate_bps(500_000);
    let api = openh264::OpenH264API::from_source();
    let encoder = openh264::encoder::Encoder::with_api_config(api, config).unwrap();
    let mut enc = VideoEncoder::from_encoder(encoder, 16, 16);
    assert_eq!(enc.resolution(), (16, 16));
    let rgb = vec![128u8; 16 * 16 * 3];
    let packets = enc.encode_rgb(&rgb).unwrap();
    assert_eq!(packets.len(), 1);
    assert_eq!(packets[0].pts, 0);
    // the first output starts with the stream configuration (SPS)
    assert!(packets[0].is_config);
    let packets2 = enc.encode_rgb(&rgb).unwrap();
    assert!(packets2.iter().all(|p| p.pts == 1));
    let mut dec = VideoDecoder::new().unwrap();
    let frame = dec.decode_nal(&packets[0].data).unwrap().expect("a picture");
    assert_eq!((frame.width, frame.height), (16, 16));
    assert_eq!(frame.rgba.len(), 16 * 16 * 4);
    assert!(frame.rgba.chunks(4).all(|px| px[3] == 255));
}

#[test]
fn monitor_labels() {
    assert_eq!(monitor_label("HDMI-1", 1920, 1080), "HDMI-1 (1920×1080)");
    let monitors = vec![
        MonitorInfo { index: 0, name: "A (800×600)".to_string(), width: 800, height: 600 },
        MonitorInfo { index: 1, name: "B".to_string(), width: 0, height: 7 },
    ];
    assert_eq!(selected_monitor_label(&monitors, 0), "A (800×600) (800×600)");
    assert_eq!(selected_monitor_label(&monitors, 1), "B (0×7)");
    assert_eq!(selected_monitor_label(&monitors, 2), "Écran 0");
    assert_eq!(selected_monitor_label(&[], 0), "Écran 0");
}

#[test]
fn prepared_frame_counts_its_payload() {
    let config = openh264::encoder::EncoderConfig::new()
        .max_frame_rate(30.0)
        .set_bitrate_bps(500_000);
    let api = openh264::OpenH264API::from_source();
    let encoder = openh264::encoder::Encoder::with_api_config(api, config).unwrap();
    let mut enc = VideoEncoder::from_encoder(encoder, 16, 16);
    let rgba = vec![200u8; 16 * 16 * 4];
    let (packets, total) = prepare_frame(&mut enc, &rgba).unwrap();
    assert_eq!(packets.len(), 1);
    assert_eq!(packets[0].pts, 0);
    assert_eq!(total, packets[0].data.len());
    assert!(total > 0);
    let (packets2, total2) = prepare_frame(&mut enc, &rgba).unwrap();
    assert!(packets2.iter().all(|p| p.pts == 1));
    assert_eq!(total2, packets2.iter().map(|p| p.data.len()).sum::<usize>());
}
