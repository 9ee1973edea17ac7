use moonshine::metrics::{CapturePath, Counter, FrameStats, VideoDiagnostics};
use moonshine::net::Address;
use moonshine::time::{Duration, Instant};
use moonshine::video::{
    PacketAction, PacketEvent, PacketFrame, PacketHandler, SendReport, StreamSetup,
    VideoChromaSampling, VideoDynamicRange, VideoFormat, VideoStreamConfig, VideoStreamContext,
};
use std::cell::RefCell;
use std::rc::Rc;

fn millis(n: u128) -> Instant {
    Instant { nanos: n * 1_000_000 }
}

fn test_frame(start: Instant) -> FrameStats {
    FrameStats {
        frame_number: 1,
        capture_path: CapturePath::Composited,
        capture_started_at: start,
        completed_at: start,
        scene_wait: None,
        buffer_age: None,
        timer_lateness: Duration::zero(),
        capture: Duration::from_millis(2),
        render_wait: Duration::from_millis(1),
        channel_wait: Duration::from_millis(1),
        import: Duration::from_millis(1),
        convert: Duration::from_millis(2),
        submit: Duration::from_millis(1),
        consumer_queue: Duration::from_millis(1),
        encode_wait: Duration::from_millis(2),
        packetize: Duration::from_millis(1),
        send: Duration::from_millis(1),
        network_queue: Duration::zero(),
        network_send: Duration::zero(),
        total: Duration::zero(),
        network_queue_depth: 0,
        send_success: false,
        send_errors: 0,
        sent_bytes: 0,
        sent_datagrams: 0,
        gso_fallback_chunks: 0,
        encoded_bytes: 100,
        is_key_frame: false,
    }
}

#[test]
fn snapshots_are_monotonic_across_clones() {
    let diagnostics = Rc::new(RefCell::new(VideoDiagnostics::new()));
    let producer = diagnostics.clone();
    producer.borrow_mut().count(Counter::CaptureQueueFull);
    producer.borrow_mut().add(Counter::SendBytes, 1400);
    assert_eq!(diagnostics.borrow().snapshot().get("capture_queue_full"), Some(&1));
    assert_eq!(diagnostics.borrow().snapshot().get("send_bytes"), Some(&1400));
    assert_eq!(diagnostics.borrow().snapshot().get("static_skips"), Some(&0));
}

#[test]
fn socket_completion_includes_queue_wait_and_does_not_double_count_subsets() {
    let mut diagnostics = VideoDiagnostics::new();
    let now = millis(1_000);
    let start = millis(1_000 - 30);
    let stats = test_frame(start);
    assert_eq!(stats.accounted(), Duration::from_millis(11));
    let frame = PacketFrame {
        shard_count: 0,
        stats,
        enqueued_at: start.after(Duration::from_millis(11)),
    };
    assert_eq!(
        diagnostics.snapshot().get("send_frames"),
        Some(&0),
        "no completed sample at enqueue"
    );
    let stats = frame.complete(
        start.after(Duration::from_millis(21)),
        now,
        SendReport { bytes: 1400, datagrams: 1, ..Default::default() },
        &mut diagnostics,
    );
    assert_eq!(stats.network_queue, Duration::from_millis(10));
    assert!(stats.total.nanos >= Duration::from_millis(30).nanos);
    assert_eq!(stats.total, stats.accounted());
    assert!(stats.send_success);
    assert_eq!(diagnostics.snapshot().get("send_bytes"), Some(&1400));
}

#[test]
fn send_failures_remain_observable() {
    let mut diagnostics = VideoDiagnostics::new();
    let now = millis(1_000);
    let start = millis(1_000 - 20);
    let stats = PacketFrame {
        shard_count: 0,
        stats: test_frame(start),
        enqueued_at: start.after(Duration::from_millis(11)),
    }
    .complete(now, now, SendReport { errors: 2, ..Default::default() }, &mut diagnostics);
    assert!(!stats.send_success);
    assert_eq!(diagnostics.snapshot().get("send_errors"), Some(&2));
    assert_eq!(diagnostics.snapshot().get("send_failed_frames"), Some(&1));
}

#[test]
fn a_snapshot_names_every_counter() {
    let mut diagnostics = VideoDiagnostics::new();
    diagnostics.add(Counter::CaptureVisibleUpdate, u64::MAX);
    diagnostics.count(Counter::CaptureVisibleUpdate);
    diagnostics.count(Counter::CaptureTicks);
    let snapshot = diagnostics.snapshot();
    assert_eq!(snapshot.len(), 22);
    assert_eq!(snapshot.get("capture_visible_update"), Some(&0), "a full counter starts again");
    assert_eq!(snapshot.get("capture_ticks"), Some(&1));
    assert_eq!(snapshot.at(0).0, "capture_attempts");
    assert_eq!(snapshot.at(21).0, "submitted");
    assert_eq!(Counter::GsoFallbackChunks.name(), "gso_fallback_chunks");
}

#[test]
fn stream_settings_have_the_documented_defaults() {
    let config = VideoStreamConfig::default();
    assert_eq!(config.port, 47998);
    assert_eq!(config.fec_percentage, 20);
    assert!(!config.encrypt && !config.log_frame_spikes);
    let context = VideoStreamContext::default();
    assert_eq!(context.fps, 0);
    assert_eq!(context.video_format, VideoFormat::H264);
    assert_eq!(context.dynamic_range, VideoDynamicRange::Sdr);
    assert_eq!(context.chroma_sampling_type, VideoChromaSampling::Yuv420);
}

#[test]
fn formats_are_numbered() {
    assert_eq!(VideoFormat::try_from(0), Ok(VideoFormat::H264));
    assert_eq!(VideoFormat::try_from(1), Ok(VideoFormat::Hevc));
    assert_eq!(VideoFormat::try_from(2), Ok(VideoFormat::Av1));
    assert_eq!(VideoFormat::try_from(3), Err(()));
    assert_eq!(VideoDynamicRange::try_from(1), Ok(VideoDynamicRange::Hdr));
    assert_eq!(VideoDynamicRange::try_from(2), Err(()));
    assert_eq!(VideoChromaSampling::try_from(0), Ok(VideoChromaSampling::Yuv420));
    assert_eq!(VideoChromaSampling::try_from(1), Ok(VideoChromaSampling::Yuv444));
    assert_eq!(VideoChromaSampling::try_from(2), Err(()));
}

#[test]
fn streams_are_marked_where_asked_for() {
    let mut context = VideoStreamContext::default();
    assert_eq!(StreamSetup::for_context(&context).tos, None);
    context.qos = true;
    let setup = StreamSetup::for_context(&context);
    assert_eq!(setup.tos, Some(160));
    assert_eq!(setup.idr_capacity, 1);
    assert_eq!(setup.invalidate_capacity, 16);
    assert_eq!(setup.reset_capacity, 1);
    assert_eq!(setup.packet_capacity, 128);
}

#[test]
fn frames_go_to_the_client_that_last_pinged() {
    let mut diagnostics = VideoDiagnostics::new();
    let mut handler = PacketHandler::new();
    let frame = PacketFrame { shard_count: 3, stats: test_frame(millis(0)), enqueued_at: millis(11) };
    let dequeued = || PacketEvent::Dequeued { frame, at: millis(12) };
    assert_eq!(handler.step(dequeued(), &mut diagnostics), PacketAction::Wait);
    assert_eq!(diagnostics.snapshot().get("no_client"), Some(&1));
    let first = Address::V4 { ip: 0x7f00_0001, port: 5000 };
    let second = Address::V6 { ip: 1, port: 6000, flow: 0, scope: 0 };
    for (client, message) in [(first, b"PING".as_slice()), (second, b"PING")] {
        let ping = PacketEvent::Message { bytes: message, from: client };
        assert_eq!(handler.step(ping, &mut diagnostics), PacketAction::Wait);
        assert_eq!(
            handler.step(dequeued(), &mut diagnostics),
            PacketAction::Send { frame, dequeued_at: millis(12), to: client }
        );
    }
    for message in [b"PINGS".as_slice(), b"PIN", b"", b"ping"] {
        let noise = PacketEvent::Message { bytes: message, from: first };
        assert_eq!(
            handler.step(noise, &mut diagnostics),
            PacketAction::ReportUnknown { length: message.len() }
        );
    }
    assert_eq!(handler.client, Some(second));
    let empty = PacketFrame { shard_count: 0, ..frame };
    let event = PacketEvent::Dequeued { frame: empty, at: millis(12) };
    assert_eq!(handler.step(event, &mut diagnostics), PacketAction::Wait);
    assert_eq!(diagnostics.snapshot().get("no_client"), Some(&1));
}

#[test]
fn refused_chunks_are_reported_once_a_second() {
    let mut diagnostics = VideoDiagnostics::new();
    let mut handler = PacketHandler::new();
    let frame = PacketFrame { shard_count: 1, stats: test_frame(millis(0)), enqueued_at: millis(0) };
    let report = SendReport { fallback_chunks: 4, datagrams: 1, bytes: 10, errors: 0 };
    let mut sent = |at: u128, report: SendReport| {
        let event = PacketEvent::Sent {
            frame,
            dequeued_at: millis(0),
            completed_at: millis(at),
            report,
        };
        match handler.step(event, &mut diagnostics) {
            PacketAction::Publish { stats, refused_chunks } => {
                assert_eq!(stats.completed_at, millis(at));
                refused_chunks
            }
            _ => panic!("a frame that was sent is published"),
        }
    };
    assert_eq!(sent(5, SendReport { fallback_chunks: 0, ..report }), None);
    assert_eq!(sent(10, report), Some(4));
    assert_eq!(sent(1_009, report), None);
    assert_eq!(sent(1_010, report), Some(4));
    assert_eq!(diagnostics.snapshot().get("gso_fallback_chunks"), Some(&12));
    assert_eq!(diagnostics.snapshot().get("send_frames"), Some(&4));
}

#[test]
fn the_handler_stops_when_nothing_more_can_come() {
    for event in [PacketEvent::ChannelClosed, PacketEvent::ReceiveFailed, PacketEvent::Cancelled] {
        let mut handler = PacketHandler::new();
        let mut diagnostics = VideoDiagnostics::new();
        assert_eq!(handler.step(event, &mut diagnostics), PacketAction::Stop);
    }
}
