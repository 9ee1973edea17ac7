use clap::builder::{RangedI64ValueParser, RangedU64ValueParser};
use clap::{Arg, Command};
use moonshine::campaign::{interrupted, Campaign, Course, Run, RunResult, SetUp};
use moonshine::decimal::{parse_number, show, show_three, NumberError};
use moonshine::environment::{cpu_model, digest, is_render_device};
use moonshine::measurement::{
    resolve_receipts, MeasureAction, MeasureEvent, Measurement, ProgressReport,
};
use moonshine::accumulator::Accumulator;
use moonshine::metrics::{CapturePath, FrameStats};
use moonshine::report::is_measurable;
use moonshine::names::NameMap;
use moonshine::net::Address;
use moonshine::plan::{
    error, error_file, frames_file, is_codec, parse_codec, parse_resolution, report_file, Arguments, Setting,
    MAX_FPS, MIN_DURATION, MIN_FPS,
};
use moonshine::quality::{InvalidReason, Quality};
use moonshine::receiver::{ReceiveFailure, State, Watch};
use moonshine::time::{Duration, Instant};
use moonshine::video::{VideoDynamicRange, VideoFormat};

fn millis(n: u128) -> Instant {
    Instant { nanos: n * 1_000_000 }
}

fn test_frame(start: Instant) -> FrameStats {
    FrameStats {
        frame_number: 1,
        capture_path: CapturePath::Composited,
        capture_started_at: start,
        completed_at: start,
        scene_wait: None,
        buffer_age: None,
        timer_lateness: Duration::zero(),
        capture: Duration::from_millis(2),
        render_wait: Duration::from_millis(1),
        channel_wait: Duration::from_millis(1),
        import: Duration::from_millis(1),
        convert: Duration::from_millis(2),
        submit: Duration::from_millis(1),
        consumer_queue: Duration::from_millis(1),
        encode_wait: Duration::from_millis(2),
        packetize: Duration::from_millis(1),
        send: Duration::from_millis(1),
        network_queue: Duration::zero(),
        network_send: Duration::zero(),
        total: Duration::zero(),
        network_queue_depth: 0,
        send_success: false,
        send_errors: 0,
        sent_bytes: 0,
        sent_datagrams: 0,
        gso_fallback_chunks: 0,
        encoded_bytes: 100,
        is_key_frame: false,
    }
}

fn command() -> Command {
    let fps = RangedI64ValueParser::<u32>::new().range(MIN_FPS as i64..=MAX_FPS as i64);
    let duration = RangedU64ValueParser::<u64>::new().range(MIN_DURATION..);
    Command::new("bench")
        .arg(Arg::new("fps").long("fps").value_parser(fps))
        .arg(Arg::new("duration").long("duration").value_parser(duration))
        .arg(Arg::new("command").required(true).trailing_var_arg(true).num_args(1..))
}

#[test]
fn invalid_dimensions_and_zero_duration_are_rejected() {
    assert!(parse_resolution("0x1080").is_err());
    assert!(parse_resolution("1920x0").is_err());
    assert!(command().try_get_matches_from(["bench", "--duration", "0", "--", "vkcube"]).is_err());
    assert!(command().try_get_matches_from(["bench", "--fps", "0", "--", "vkcube"]).is_err());
}

#[test]
fn allowed_rates_and_durations_are_accepted() {
    assert!(command().try_get_matches_from(["bench", "--duration", "1", "--", "vkcube"]).is_ok());
    assert!(command().try_get_matches_from(["bench", "--fps", "1000", "--", "vkcube"]).is_ok());
    assert!(command().try_get_matches_from(["bench", "--fps", "1001", "--", "vkcube"]).is_err());
}

#[test]
fn resolutions_are_two_positive_numbers() {
    assert_eq!(parse_resolution("1920x1080").unwrap(), (1920, 1080));
    assert_eq!(parse_resolution("+1x4294967295").unwrap(), (1, 4_294_967_295));
    assert_eq!(parse_resolution("1920").unwrap_err().message(), "resolution must be WxH");
    assert_eq!(parse_resolution("0x1").unwrap_err().message(), "resolution must be positive");
    for (text, end) in [
        ("x1080", ""),
        ("1920x", ""),
        ("1920x10x80", "10x80"),
        ("1920X1080", "1920X1080"),
        ("4294967296x1", "4294967296"),
        ("-1x1", "-1"),
        ("+x1", "+"),
    ] {
        let message = parse_resolution(text).unwrap_err().message().to_string();
        match end.parse::<u32>() {
            Err(e) if text.contains('x') => assert_eq!(message, e.to_string()),
            _ => assert_eq!(message, "resolution must be WxH"),
        }
    }
}

#[test]
fn numbers_are_read_as_they_are_written() {
    assert_eq!(parse_number("0", 10), Ok(0));
    assert_eq!(parse_number("007", 10), Ok(7));
    assert_eq!(parse_number("10", 10), Ok(10));
    assert_eq!(parse_number("11", 10), Err(NumberError::TooLarge));
    assert_eq!(parse_number("", 10), Err(NumberError::Empty));
    assert_eq!(parse_number("+", 10), Err(NumberError::InvalidDigit));
    assert_eq!(parse_number("1a", 10), Err(NumberError::InvalidDigit));
    assert_eq!(parse_number("99a", 10), Err(NumberError::TooLarge));
    assert_eq!(parse_number("18446744073709551615", u64::MAX), Ok(u64::MAX));
    assert_eq!(parse_number("18446744073709551616", u64::MAX), Err(NumberError::TooLarge));
    for n in [0, 9, 10, 1_234_567_890, u64::MAX] {
        assert_eq!(show(n), n.to_string());
        assert_eq!(parse_number(&show(n), u64::MAX), Ok(n));
    }
    assert_eq!(show_three(7), "007");
    assert_eq!(show_three(42), "042");
    assert_eq!(show_three(1_234), "1234");
}

#[test]
fn codecs_have_formats() {
    assert_eq!(parse_codec("h264"), VideoFormat::H264);
    assert_eq!(parse_codec("hevc"), VideoFormat::Hevc);
    assert_eq!(parse_codec("av1"), VideoFormat::Av1);
    for codec in ["h264", "hevc", "av1"] {
        assert!(is_codec(codec));
    }
    for codec in ["", "H264", "av", "vp9"] {
        assert!(!is_codec(codec));
    }
}

fn arguments() -> Arguments {
    Arguments {
        matrix: false,
        resolution: "1920x1080".to_string(),
        fps: 60,
        bitrate: 20_000_000,
        codec: "h264".to_string(),
        duration: 30,
        warmup: 4,
        repeat: 1,
        hdr: false,
        composited: false,
        fec: 20,
        port: 47998,
    }
}

#[test]
fn arguments_are_checked() {
    assert!(arguments().check().is_ok());
    let complaint = |a: Arguments| a.check().unwrap_err().message().to_string();
    let bitrate = "bitrate must fit a positive u32";
    assert_eq!(complaint(Arguments { bitrate: 0, ..arguments() }), bitrate);
    assert_eq!(complaint(Arguments { bitrate: 1 << 32, ..arguments() }), bitrate);
    assert!(Arguments { bitrate: (1 << 32) - 1, ..arguments() }.check().is_ok());
    let seconds = "duration plus warmup must be at most 86400 seconds";
    assert!(Arguments { duration: 86_396, ..arguments() }.check().is_ok());
    assert_eq!(complaint(Arguments { duration: 86_397, ..arguments() }), seconds);
    assert_eq!(complaint(Arguments { duration: u64::MAX, ..arguments() }), seconds);
    let both = Arguments { resolution: "9".to_string(), bitrate: 0, ..arguments() };
    assert_eq!(complaint(both), "resolution must be WxH");
    assert_eq!(error("why").message(), "why");
}

#[test]
fn the_matrix_covers_every_combination() {
    let one = arguments().settings();
    assert_eq!(one.len(), 1);
    assert_eq!((one[0].resolution.as_str(), one[0].fps, one[0].codec.as_str()), ("1920x1080", 60, "h264"));
    let all = Arguments { matrix: true, ..arguments() }.settings();
    let mut wanted = Vec::new();
    for resolution in ["3840x2160", "2560x1440", "1920x1080"] {
        for fps in [60, 120, 360] {
            for codec in ["hevc", "h264", "av1"] {
                wanted.push((resolution, fps, codec));
            }
        }
    }
    let listed: Vec<(&str, u32, &str)> =
        all.iter().map(|s| (s.resolution.as_str(), s.fps, s.codec.as_str())).collect();
    assert_eq!(listed, wanted);
}

#[test]
fn a_session_is_planned_from_the_arguments() {
    let setting = Setting { resolution: "2560x1440".to_string(), fps: 120, codec: "av1".to_string() };
    let plan = Arguments { hdr: true, composited: true, fec: 7, port: 9, ..arguments() }
        .plan(&setting)
        .unwrap();
    assert!(!plan.direct_scanout);
    assert_eq!((plan.video.port, plan.video.fec_percentage), (9, 7));
    assert_eq!(plan.timeout, 154);
    assert_eq!((plan.context.width, plan.context.height, plan.context.fps), (2560, 1440, 120));
    assert_eq!(plan.context.packet_size, 1400);
    assert_eq!(plan.context.minimum_fec_packets, 2);
    assert_eq!(plan.context.bitrate, 20_000_000);
    assert_eq!(plan.context.video_format, VideoFormat::Av1);
    assert_eq!(plan.context.dynamic_range, VideoDynamicRange::Hdr);
    assert_eq!(plan.context.max_reference_frames, 1);
    let long = Arguments { duration: u64::MAX, ..arguments() }.plan(&setting).unwrap();
    assert_eq!(long.timeout, u64::MAX);
    let bad = Setting { resolution: "0x0".to_string(), ..setting };
    assert!(arguments().plan(&bad).is_err());
}

#[test]
fn files_carry_the_number_of_the_run() {
    assert_eq!(report_file(1), "run-001.json");
    assert_eq!(error_file(12), "run-012-error.json");
    assert_eq!(frames_file(1_000), "run-1000-frames.jsonl");
}

#[test]
fn runs_repeat_all_settings() {
    let mut campaign = Campaign::new(3, 2, true);
    let mut runs = Vec::new();
    while let Some(run) = campaign.begin() {
        runs.push((run.number, run.repetition, run.setting));
        assert_eq!(
            campaign.finish(RunResult::Measured { valid: true, interrupted: false }),
            Course::Continue
        );
    }
    assert_eq!(runs, [(1, 1, 0), (2, 1, 1), (3, 1, 2), (4, 2, 0), (5, 2, 1), (6, 2, 2)]);
    assert!(campaign.conclude().is_ok());
}

#[test]
fn a_matrix_goes_on_after_a_failure_and_fails_in_the_end() {
    let mut campaign = Campaign::new(2, 1, true);
    assert_eq!(campaign.begin(), Some(Run { number: 1, repetition: 1, setting: 0 }));
    assert_eq!(campaign.finish(RunResult::Failed), Course::Continue);
    campaign.begin();
    let invalid = RunResult::Measured { valid: false, interrupted: false };
    assert_eq!(campaign.finish(invalid), Course::Continue);
    assert_eq!(campaign.begin(), None);
    assert_eq!(
        campaign.conclude().unwrap_err().message(),
        "2 run(s) failed measurement validity checks; see reports"
    );
}

#[test]
fn a_single_setting_stops_at_a_failure() {
    let mut campaign = Campaign::new(1, 3, false);
    campaign.begin();
    assert_eq!(campaign.finish(RunResult::Failed), Course::RunFailed);
    let mut campaign = Campaign::new(1, 3, false);
    campaign.begin();
    let stopped = RunResult::Measured { valid: true, interrupted: true };
    assert_eq!(campaign.finish(stopped), Course::Interrupted);
    assert_eq!(interrupted().message(), "benchmark interrupted; partial report retained");
}

#[test]
fn a_session_that_exists_is_stopped_when_the_set_up_fails() {
    let mut part = SetUp::CreateManager;
    let mut order = Vec::new();
    while part != SetUp::Ready {
        let (stop, why) = part.failed("why");
        order.push((stop, why.message().to_string()));
        part = part.succeeded(true);
    }
    assert_eq!(
        order,
        [
            (false, "Failed to create session manager".to_string()),
            (false, "Failed to initialize session".to_string()),
            (true, "Failed to launch session: why".to_string()),
            (true, "Failed to set stream context: why".to_string()),
            (true, "Failed to start session: why".to_string()),
            (true, "why".to_string()),
            (true, "why".to_string()),
            (true, "why".to_string()),
        ]
    );
    assert_eq!(SetUp::TriggerStreams.succeeded(false), SetUp::Ready);
}

fn shard(frame: u32, index: u32) -> [u8; 32] {
    let mut packet = [0; 32];
    packet[0] = 0x90;
    packet[16..20].copy_from_slice(&index.to_le_bytes());
    packet[20..24].copy_from_slice(&frame.to_le_bytes());
    packet
}

#[test]
fn receipt_requires_unique_shards_and_tracks_last_arrival() {
    let mut state = State::new();
    let mut packet = [0; 32];
    packet[0] = 0x90;
    packet[20..24].copy_from_slice(&7u32.to_le_bytes());
    let start = millis(1_000);
    state.record(&packet, start);
    state.record(&packet, start.after(Duration::from_millis(2)));
    assert_eq!(state.receipt(7).unwrap().shards(), 1);
    assert_eq!(state.receipt(7).unwrap().last, start);
    packet[16..20].copy_from_slice(&256u32.to_le_bytes());
    state.record(&packet, start.after(Duration::from_millis(3)));
    assert_eq!(state.receipt(7).unwrap().shards(), 2);
    assert_eq!(state.receipt(7).unwrap().last.duration_since(start), Duration::from_millis(3));
    assert_eq!(state.counters().duplicates, 1);
}

#[test]
fn malformed_datagrams_are_only_counted() {
    let mut state = State::new();
    state.record(&shard(1, 0)[..31], millis(1));
    let mut other = shard(1, 0);
    other[0] = 0x80;
    state.record(&other, millis(1));
    assert_eq!(state.counters().malformed, 2);
    assert_eq!(state.counters().datagrams, 2);
    assert_eq!(state.counters().bytes, 63);
    assert!(state.receipt(1).is_none());
}

#[test]
fn the_lowest_frame_makes_room() {
    let mut state = State::new();
    for frame in (0..1_025u32).rev() {
        state.record(&shard(frame, 0), millis(1));
    }
    assert_eq!(state.counters().evicted_frames, 1);
    assert!(state.receipt(0).is_none());
    assert!(state.receipt(1).is_some());
}

#[test]
fn only_complete_frames_are_handed_out() {
    let mut state = State::new();
    state.record(&shard(4, 0), millis(1));
    assert!(state.take_complete(4, 2).is_none());
    state.record(&shard(4, 1), millis(5));
    let receipt = state.take_complete(4, 2).unwrap();
    assert_eq!((receipt.first(), receipt.last()), (millis(1), millis(5)));
    assert!(state.receipt(4).is_none());
    state.record(&shard(4, 0), millis(6));
    state.discard(4);
    assert!(state.take_complete(4, 1).is_none());
}

#[test]
fn every_datagram_is_malformed_a_duplicate_or_kept() {
    let mut state = State::new();
    for (frame, index) in [(1, 0), (1, 1), (2, 0), (1, 1), (3, 7), (2, 0)] {
        assert!(state.has_room_for(&shard(frame, index)));
        state.record(&shard(frame, index), millis(1));
    }
    state.record(b"short", millis(2));
    let counters = state.counters();
    let kept: usize = (1..=3).map(|frame| state.receipt(frame).unwrap().shards()).sum();
    assert_eq!((counters.datagrams, counters.malformed, counters.duplicates, kept), (7, 1, 2, 4));
    assert_eq!(counters.evicted_frames, 0);
}

#[test]
fn a_frame_of_no_shards_is_never_complete() {
    let mut state = State::new();
    assert!(state.take_complete(4, 0).is_none());
    state.record(&shard(4, 0), millis(1));
    assert!(state.take_complete(4, 0).is_none());
    assert!(state.receipt(4).is_some());
}

#[test]
fn the_receiver_listens_to_its_server_alone() {
    let server = Address::V4 { ip: 1, port: 2 };
    let other = Address::V4 { ip: 1, port: 3 };
    let mut watch = Watch::new(server, millis(0));
    let mut state = State::new();
    assert!(watch.listens_to(server) && !watch.listens_to(other));
    watch.received(&mut state, other, &shard(1, 0), millis(1));
    assert_eq!(state.counters().datagrams, 0);
    watch.received(&mut state, server, &shard(1, 0), millis(1));
    assert_eq!(state.counters().datagrams, 1);
    for failure in [ReceiveFailure::WouldBlock, ReceiveFailure::TimedOut, ReceiveFailure::Interrupted] {
        assert!(watch.failed(&mut state, failure));
    }
    assert_eq!(state.counters().errors, 0);
    assert!(!watch.failed(&mut state, ReceiveFailure::Other));
    assert_eq!(state.counters().errors, 1);
    assert!(!watch.ping_due(millis(999)));
    assert!(watch.ping_due(millis(1_000)));
    watch.pinged(&mut state, true, millis(1_000));
    assert!(!watch.ping_due(millis(1_999)));
    watch.pinged(&mut state, false, millis(2_000));
    assert_eq!(state.counters().errors, 2);
}

fn sent(frame_number: u32, captured: u128, completed: u128) -> FrameStats {
    FrameStats {
        frame_number,
        send_success: true,
        sent_datagrams: 1,
        completed_at: millis(completed),
        total: Duration::from_millis((completed - captured) as u64),
        ..test_frame(millis(captured))
    }
}

#[test]
fn receipts_are_complete_late_or_open() {
    let mut state = State::new();
    let mut accumulator = Accumulator::new();
    state.record(&shard(1, 0), millis(110));
    let mut pending = vec![sent(1, 100, 105), sent(2, 100, 105), sent(3, 300, 301)];
    resolve_receipts(&mut pending, &mut state, &mut accumulator, millis(355), false);
    assert_eq!(pending.len(), 1);
    assert_eq!(pending[0].frame_number, 3);
    let summary = accumulator.summary(Duration::from_secs(1));
    assert_eq!(summary.incomplete_receipts, 1);
    assert_eq!(summary.stages_us.get("loopback_first").unwrap().sum, 10_000);
    assert_eq!(summary.stages_us.get("loopback_complete").unwrap().sum, 10_000);
    assert_eq!(summary.stages_us.get("loopback_spread").unwrap().sum, 0);
    resolve_receipts(&mut pending, &mut state, &mut accumulator, millis(355), true);
    assert!(pending.is_empty());
    assert_eq!(accumulator.summary(Duration::from_secs(1)).incomplete_receipts, 2);
}

fn counters(submitted: u64) -> NameMap<u64> {
    let mut map = NameMap::new();
    map.insert("submitted", submitted);
    map
}

#[test]
fn only_frames_inside_the_window_are_measured() {
    let mut state = State::new();
    let mut measurement = Measurement::new(millis(0), millis(0), 1, 2, 60);
    assert_eq!(measurement.window().deadline, millis(3_000));
    let early = sent(1, 100, 105);
    assert!(measurement.can_measure(&early));
    assert!(!measurement.frame(&early, &mut state), "the window is not open yet");
    measurement.lagged(3, false);
    measurement.open(millis(1_010), counters(4));
    measurement.lagged(2, false);
    assert_eq!(measurement.stats_lost(), 2);
    state.record(&shard(2, 0), millis(1_012));
    assert!(!measurement.frame(&sent(2, 1_009, 1_011), &mut state), "it began during the warmup");
    assert!(state.receipt(2).is_none());
    assert!(measurement.frame(&sent(3, 1_010, 1_020), &mut state));
    assert!(measurement.has_open_receipts());
    assert!(!measurement.frame(&sent(4, 2_990, 3_000), &mut state), "it ended too late");
    let failed = FrameStats { send_success: false, ..sent(5, 1_500, 1_510) };
    assert!(measurement.frame(&failed, &mut state));
    assert_eq!(measurement.progress(millis(4_999)), None);
    assert_eq!(
        measurement.progress(millis(5_000)),
        Some(ProgressReport { successful_frames: 1, failed_frames: 1, stats_lost: 2 })
    );
    assert_eq!(measurement.progress(millis(5_001)), None);
    let ended = measurement.end(millis(2_000));
    assert_eq!(ended, millis(2_000));
    assert_eq!(measurement.end(millis(9_000)), millis(3_000));
    assert!(!measurement.drained(&sent(6, 1_990, 2_000), ended));
    assert!(measurement.drained(&sent(7, 1_990, 1_999), ended));
    state.record(&shard(3, 0), millis(1_021));
    measurement.settle(&mut state, millis(2_001), false);
    assert!(measurement.has_open_receipts());
    measurement.settle(&mut state, millis(2_001), true);
    assert!(!measurement.has_open_receipts());
    let conclusion = measurement.conclude(ended, &counters(9));
    assert_eq!(conclusion.elapsed, Duration::from_millis(990));
    assert_eq!(conclusion.summary.successful_frames, 2);
    assert_eq!(conclusion.summary.failed_frames, 1);
    assert_eq!(conclusion.summary.incomplete_receipts, 1);
    assert_eq!(conclusion.counters.get("submitted"), Some(&5));
    assert_eq!((conclusion.outstanding_start, conclusion.outstanding_end), (4, 9));
}

#[test]
fn a_measurement_goes_from_event_to_event() {
    let mut state = State::new();
    let mut measurement = Measurement::new(millis(0), millis(0), 0, 10, 60);
    let frame = sent(1, 20, 30);
    let step = |m: &mut Measurement, s: &mut State, event: MeasureEvent| m.step(event, s);
    assert_eq!(step(&mut measurement, &mut state, MeasureEvent::Frame(frame)), MeasureAction::Continue);
    let warm = MeasureEvent::WarmedUp { now: millis(10), counters: counters(1) };
    assert_eq!(step(&mut measurement, &mut state, warm), MeasureAction::Continue);
    let again = MeasureEvent::WarmedUp { now: millis(25), counters: counters(2) };
    assert_eq!(step(&mut measurement, &mut state, again), MeasureAction::Continue);
    assert_eq!(measurement.window().opened, Some(millis(10)));
    assert_eq!(
        step(&mut measurement, &mut state, MeasureEvent::Frame(frame)),
        MeasureAction::Record(frame)
    );
    assert_eq!(step(&mut measurement, &mut state, MeasureEvent::Lagged(7)), MeasureAction::Continue);
    assert_eq!(measurement.stats_lost(), 7);
    assert!(measurement.keeps_waiting(millis(40), millis(41)));
    assert!(!measurement.keeps_waiting(millis(41), millis(41)));
    let tick = MeasureEvent::Tick { now: millis(5_000) };
    assert_eq!(
        step(&mut measurement, &mut state, tick),
        MeasureAction::Report(ProgressReport { successful_frames: 1, failed_frames: 0, stats_lost: 7 })
    );
    assert!(!measurement.has_open_receipts(), "its receipt is late");
    assert!(!measurement.keeps_waiting(millis(40), millis(41)));
    for (event, interrupted) in [
        (MeasureEvent::Interrupted, true),
        (MeasureEvent::DeadlineReached, false),
        (MeasureEvent::Closed, false),
    ] {
        assert_eq!(step(&mut measurement, &mut state, event), MeasureAction::End { interrupted });
    }
}

#[test]
fn durations_must_add_up_to_a_duration() {
    let longest = Duration { nanos: 18_446_744_073_709_551_615_999_999_999 };
    let mut frame = test_frame(millis(0));
    assert!(is_measurable(&frame));
    frame.network_send = longest;
    assert!(!is_measurable(&frame));
    let mut aged = test_frame(millis(0));
    aged.total = Duration { nanos: 1 };
    aged.buffer_age = Some(longest);
    assert!(!is_measurable(&aged));
    aged.total = Duration::zero();
    assert!(is_measurable(&aged));
}

#[test]
fn the_first_report_is_due_after_the_start() {
    let mut measurement = Measurement::new(millis(0), millis(300), 0, 10, 60);
    assert_eq!(measurement.window().warmup_deadline, millis(0));
    measurement.open(millis(300), counters(0));
    assert_eq!(measurement.progress(millis(5_299)), None);
    assert!(measurement.progress(millis(5_300)).is_some());
    assert_eq!(measurement.progress(millis(10_299)), None);
}

#[test]
fn every_new_capture_is_received_given_up_or_waited_for() {
    let mut state = State::new();
    let mut measurement = Measurement::new(millis(0), millis(0), 0, 10, 60);
    measurement.open(millis(0), counters(0));
    for number in 1..=5 {
        assert!(measurement.frame(&sent(number, 10, 20), &mut state));
    }
    let again = FrameStats { capture_path: CapturePath::Reencode, ..sent(6, 10, 20) };
    assert!(measurement.frame(&again, &mut state));
    for number in [2, 4] {
        state.record(&shard(number, 0), millis(22));
    }
    measurement.settle(&mut state, millis(30), false);
    assert!(measurement.has_open_receipts());
    let open = measurement.conclude(millis(30), &counters(0)).summary;
    assert_eq!(open.incomplete_receipts, 0);
    state.record(&shard(5, 0), millis(40));
    measurement.settle(&mut state, millis(41), true);
    assert!(!measurement.has_open_receipts());
    let summary = measurement.conclude(millis(50), &counters(0)).summary;
    for stage in ["loopback_first", "loopback_complete", "loopback_spread"] {
        assert_eq!(summary.stages_us.get(stage).unwrap().count, 3);
        assert_eq!(open.stages_us.get(stage).unwrap().count, 2);
    }
    assert_eq!((summary.successful_frames, summary.incomplete_receipts), (5, 2));
    assert_eq!(summary.reencoded_frames, 1);
}

#[test]
fn frames_without_a_receipt_need_no_sums() {
    let mut state = State::new();
    let mut measurement = Measurement::new(millis(0), millis(0), 0, 10, 60);
    measurement.open(millis(0), counters(0));
    let endless = FrameStats { capture: Duration { nanos: u128::MAX }, ..sent(1, 10, 20) };
    assert!(!measurement.can_measure(&endless));
    for frame in [
        FrameStats { send_success: false, ..endless },
        FrameStats { capture_path: CapturePath::Reencode, ..endless },
    ] {
        assert!(measurement.can_measure(&frame));
        assert!(measurement.frame(&frame, &mut state));
    }
    assert!(!measurement.has_open_receipts());
}

#[test]
fn a_window_that_never_opened_measures_nothing() {
    let mut measurement = Measurement::new(millis(0), millis(0), 4, 30, 60);
    measurement.lagged(5, true);
    assert_eq!(measurement.stats_lost(), 5);
    let ended = measurement.end(millis(1_000));
    let conclusion = measurement.conclude(ended, &counters(9));
    assert_eq!(conclusion.elapsed, Duration::zero());
    assert_eq!(conclusion.counters.get("submitted"), Some(&0));
}

#[test]
fn anything_that_spoils_a_measurement_is_reported() {
    let good = Quality {
        debug_build: false,
        interrupted: false,
        elapsed: Duration::from_millis(29_900),
        duration: 30,
        successful_frames: 1,
        stats_lost: 0,
        raw_dropped: 0,
        receiver_errors: 0,
        stop_failed: false,
    };
    assert!(good.invalid_reasons().is_empty());
    let short = Quality { elapsed: Duration { nanos: 29_899_999_999 }, ..good };
    assert_eq!(short.invalid_reasons(), [InvalidReason::ShortMeasurementWindow]);
    let bad = Quality {
        debug_build: true,
        interrupted: true,
        elapsed: Duration::zero(),
        duration: 30,
        successful_frames: 0,
        stats_lost: 1,
        raw_dropped: 1,
        receiver_errors: 1,
        stop_failed: true,
    };
    let names: Vec<&str> = bad.invalid_reasons().iter().map(|r| r.name()).collect();
    assert_eq!(
        names,
        [
            "debug_build",
            "interrupted",
            "short_measurement_window",
            "no_successful_frames",
            "stats_messages_lost",
            "raw_records_lost",
            "receiver_error",
            "session_stop_failed",
        ]
    );
}

#[test]
fn the_machine_is_described() {
    assert!(is_render_device("renderD128"));
    assert!(!is_render_device("card0"));
    assert_eq!(
        cpu_model("processor\t: 0\nmodel name\t: A\nmodel name\t: B\n"),
        Some("model name\t: A".to_string())
    );
    assert_eq!(cpu_model("processor\t: 0\n"), None);
    assert_eq!(digest("  0af3  /usr/bin/x\n"), Some("0af3".to_string()));
    assert_eq!(digest(" \n\t"), None);
}
