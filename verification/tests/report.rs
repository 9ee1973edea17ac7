use moonshine::accumulator::{frame_budget, Accumulator, Rate};
use moonshine::distribution::{publish, Distribution};
use moonshine::metrics::{CapturePath, FrameStats};
use moonshine::names::NameMap;
use moonshine::raw::{RawLog, RawRecord, WriterEnd};
use moonshine::report::{countable, counter_delta, outstanding, stages, us};
use moonshine::time::{Duration, Instant};

fn millis(n: u128) -> Instant {
    Instant { nanos: n * 1_000_000 }
}

fn map(entries: &[(&str, u64)]) -> NameMap<u64> {
    let mut map = NameMap::new();
    for (name, value) in entries {
        map.insert(name, *value);
    }
    map
}

fn value(rate: Rate) -> f64 {
    rate.numerator as f64 / rate.denominator as f64
}

fn test_frame(start: Instant) -> FrameStats {
    FrameStats {
        frame_number: 1,
        capture_path: CapturePath::Composited,
        capture_started_at: start,
        completed_at: start,
        scene_wait: None,
        buffer_age: None,
        timer_lateness: Duration::zero(),
        capture: Duration::from_millis(2),
        render_wait: Duration::from_millis(1),
        channel_wait: Duration::from_millis(1),
        import: Duration::from_millis(1),
        convert: Duration::from_millis(2),
        submit: Duration::from_millis(1),
        consumer_queue: Duration::from_millis(1),
        encode_wait: Duration::from_millis(2),
        packetize: Duration::from_millis(1),
        send: Duration::from_millis(1),
        network_queue: Duration::zero(),
        network_send: Duration::zero(),
        total: Duration::zero(),
        network_queue_depth: 0,
        send_success: false,
        send_errors: 0,
        sent_bytes: 0,
        sent_datagrams: 0,
        gso_fallback_chunks: 0,
        encoded_bytes: 100,
        is_key_frame: false,
    }
}

#[test]
fn buffer_to_send_is_summed_per_frame_and_absent_without_a_source_timestamp() {
    let mut frame = test_frame(millis(1));
    assert!(!stages(&frame).contains_key("buffer_age"));
    assert!(!stages(&frame).contains_key("buffer_to_send"));
    frame.buffer_age = Some(Duration::from_micros(16_000));
    frame.total = Duration::from_micros(3_000);
    assert_eq!(stages(&frame).get("buffer_to_send"), Some(&19_000));
}

#[test]
fn tails_and_overflow_are_not_hidden() {
    let mut distribution = Distribution::new();
    for value in 1..=100 {
        distribution.add(value);
    }
    let s = distribution.summary();
    assert_eq!((s.p50, s.p95, s.p99), (Some(50), Some(95), Some(99)));
    let mut one = Distribution::new();
    one.add(2048);
    assert_eq!(
        one.summary().p99,
        Some(2048),
        "quantiles must not exceed the exact observed maximum"
    );
    distribution.add(120_000_000);
    let s = distribution.summary();
    assert_eq!(s.max, 120_000_000);
    assert_eq!(s.overflow, 1);
    assert_eq!(s.p99, None);
}

#[test]
fn counter_windows_do_not_include_warmup() {
    let start = map(&[("static_skips", 10), ("capture_queue_full", 3)]);
    let end = map(&[("static_skips", 12), ("capture_queue_full", 8)]);
    let delta = counter_delta(&end, &start);
    assert_eq!(delta.get("static_skips"), Some(&2));
    assert_eq!(delta.get("capture_queue_full"), Some(&5));
}

#[test]
fn failures_and_recovery_frames_cannot_improve_capture_latency_or_fps() {
    let start = millis(1);
    let mut accumulator = Accumulator::new();
    let mut frame = test_frame(start);
    frame.send_success = true;
    frame.total = Duration::from_millis(20);
    accumulator.add(&frame, 60);
    frame.send_success = false;
    frame.total = Duration::from_micros(1);
    accumulator.add(&frame, 60);
    frame.send_success = true;
    frame.capture_path = CapturePath::Reencode;
    accumulator.add(&frame, 60);
    let summary = accumulator.summary(Duration::from_secs(2));
    assert_eq!(summary.successful_frames, 1);
    assert_eq!(value(summary.successful_fps), 0.5);
    assert_eq!(summary.failed_frames, 1);
    assert_eq!(summary.reencoded_frames, 1);
    assert_eq!(summary.over_frame_budget, 1);
    let host_total = summary.stages_us.get("host_total").unwrap();
    assert_eq!(host_total.sum as f64 / host_total.count as f64, 20_000.0);
}

#[test]
fn microseconds_round_down_and_saturate() {
    assert_eq!(us(Duration { nanos: 1_999 }), 1);
    assert_eq!(us(Duration::from_millis(3)), 3_000);
    assert_eq!(us(Duration { nanos: u128::MAX }), u64::MAX);
}

#[test]
fn stages_are_listed_by_name() {
    let mut frame = test_frame(millis(1));
    frame.total = Duration::from_millis(12);
    frame.scene_wait = Some(Duration::from_micros(7));
    let list = stages(&frame);
    assert_eq!(list.len(), 16);
    assert_eq!(list.get("capture"), Some(&2_000));
    assert_eq!(list.get("enqueue_wait"), Some(&1_000));
    assert_eq!(list.get("encode_wait"), Some(&2_000));
    assert_eq!(list.get("unaccounted"), Some(&1_000));
    assert_eq!(list.get("scene_wait"), Some(&7));
    assert_eq!(list.at(0).0, "capture");
    frame.total = Duration::from_millis(10);
    assert_eq!(stages(&frame).get("unaccounted"), Some(&0));
}

#[test]
fn a_distribution_keeps_exact_extremes() {
    let empty = Distribution::new().summary();
    assert_eq!((empty.count, empty.sum, empty.min, empty.max), (0, 0, 0, 0));
    assert_eq!((empty.p50, empty.p95, empty.p99), (None, None, None));
    let mut values = Distribution::new();
    for value in [5_000_003, 17, 900_001] {
        values.add(value);
    }
    let s = values.summary();
    assert_eq!((s.count, s.sum, s.min, s.max), (3, 5_900_021, 17, 5_000_003));
    assert_eq!(s.overflow, 0);
    assert_eq!(s.p99, Some(5_000_003));
}

#[test]
fn the_range_of_a_distribution_ends_at_a_minute() {
    let mut inside = Distribution::new();
    inside.add(60_000_000);
    assert_eq!(inside.summary().overflow, 0);
    assert_eq!(inside.summary().p50, Some(60_000_000));
    for value in [60_000_001, 67_108_863, 67_108_864] {
        let mut outside = Distribution::new();
        outside.add(value);
        let s = outside.summary();
        assert_eq!((s.overflow, s.max, s.sum), (1, value, value as u128));
        assert_eq!((s.p50, s.p95, s.p99), (None, None, None));
    }
}

#[test]
fn a_published_percentile_is_brought_between_the_extremes() {
    assert_eq!(publish(50, 10, 90), 50);
    assert_eq!(publish(5, 10, 90), 10);
    assert_eq!(publish(91, 10, 90), 90);
    assert_eq!(publish(10, 10, 10), 10);
}

#[test]
fn the_order_of_values_does_not_matter() {
    let values = [900_001, 17, 17, 5_000_003, 44_000, 23];
    let mut forwards = Distribution::new();
    let mut backwards = Distribution::new();
    for (value, other) in values.iter().zip(values.iter().rev()) {
        forwards.add(*value);
        backwards.add(*other);
    }
    let s = forwards.summary();
    assert_eq!(s, backwards.summary());
    assert!(s.p50 <= s.p95 && s.p95 <= s.p99);
    assert_eq!(s.p50, Some(23));
}

#[test]
fn counters_that_fell_count_as_unchanged() {
    let delta = counter_delta(&map(&[("a", 1), ("b", 4)]), &map(&[("a", 5), ("c", 9)]));
    assert_eq!(delta.get("a"), Some(&0));
    assert_eq!(delta.get("b"), Some(&4));
    assert_eq!(delta.get("c"), None);
}

#[test]
fn outstanding_frames_have_no_terminal_outcome() {
    let counters = map(&[
        ("submitted", 20),
        ("readback_errors", 1),
        ("packetize_errors", 2),
        ("no_client", 3),
        ("send_frames", 4),
    ]);
    assert!(countable(&counters));
    assert_eq!(outstanding(&counters), 10);
    assert_eq!(outstanding(&map(&[("send_frames", 4)])), 0);
    assert!(!countable(&map(&[("send_frames", u64::MAX), ("no_client", 1)])));
}

#[test]
fn the_frame_budget_is_a_frame_period() {
    assert_eq!(frame_budget(60).nanos, 16_666_667);
    assert_eq!(frame_budget(120).nanos, 8_333_333);
    assert_eq!(frame_budget(1).nanos, 1_000_000_000);
    assert_eq!(frame_budget(1_024).nanos, 976_562);
    for fps in [1u32, 24, 30, 59, 60, 144, 240, 360, 999, 1_000, 1_024] {
        let period = std::time::Duration::from_secs_f64(1.0 / fps as f64);
        assert_eq!(frame_budget(fps).nanos, period.as_nanos());
    }
    // Half a nanosecond remains for these.
    let mut fps: u32 = 1_024;
    for _ in 0..9 {
        let period = std::time::Duration::from_secs_f64(1.0 / fps as f64);
        assert_eq!(frame_budget(fps).nanos, period.as_nanos(), "{fps}");
        fps *= 5;
    }
    for fps in (1..u32::MAX).step_by(65_537) {
        let period = std::time::Duration::from_secs_f64(1.0 / fps as f64);
        assert_eq!(frame_budget(fps).nanos, period.as_nanos(), "{fps}");
    }
}

#[test]
fn send_intervals_and_groups_are_listed() {
    let mut accumulator = Accumulator::new();
    let mut frame = test_frame(millis(1));
    frame.send_success = true;
    frame.total = Duration::from_millis(12);
    frame.completed_at = millis(13);
    frame.network_queue_depth = 2;
    frame.sent_bytes = 1_000_000;
    accumulator.add(&frame, 60);
    frame.completed_at = millis(30);
    frame.is_key_frame = true;
    frame.capture_path = CapturePath::DirectOverride;
    accumulator.add(&frame, 60);
    let summary = accumulator.summary(Duration::from_secs(1));
    assert_eq!(summary.stages_us.get("send_interval").unwrap().sum, 17_000);
    assert_eq!(summary.over_frame_budget, 0);
    assert_eq!(value(summary.socket_mbps), 16.0);
    assert_eq!(value(summary.encoded_mbps), 0.0016);
    let groups = &summary.host_total_by_path_and_frame_type_us;
    assert_eq!(groups.len(), 2);
    assert_eq!(groups.get("Composited/inter").unwrap().count, 1);
    assert_eq!(groups.get("DirectOverride/key").unwrap().max, 12_000);
    assert_eq!(summary.network_queue_depth_frames.max, 2);
}

#[test]
fn nothing_is_measured_in_no_time() {
    let summary = Accumulator::new().summary(Duration::zero());
    assert_eq!(value(summary.successful_fps), 0.0);
    assert_eq!(value(summary.encoded_mbps), 0.0);
    assert_eq!(summary.stages_us.len(), 0);
}

#[test]
fn a_raw_record_holds_what_was_measured() {
    let mut frame = test_frame(millis(105));
    frame.completed_at = millis(117);
    frame.capture_path = CapturePath::DirectOverride;
    frame.sent_datagrams = 9;
    let record = RawRecord::new(&frame, millis(100));
    assert_eq!(record.schema_version, 1);
    assert_eq!(record.capture_start_us, 5_000);
    assert_eq!(record.socket_complete_us, 17_000);
    assert_eq!(record.capture_path, "direct_override");
    assert_eq!(record.sent_datagrams, 9);
    assert_eq!(record.encoded_bytes, 100);
    assert_eq!(record.stages_us.get("capture"), Some(&2_000));
    assert_eq!(RawRecord::new(&frame, millis(200)).capture_start_us, 0);
    let mut log = RawLog::new();
    log.record(true);
    log.record(false);
    assert_eq!(log.dropped, 1);
}

#[test]
fn every_dropped_record_is_counted() {
    let mut log = RawLog::new();
    for queued in [true, false, true, true, false] {
        log.record(queued);
    }
    assert_eq!(log.finish(WriterEnd::Written), Ok(2));
    for end in [WriterEnd::Failed, WriterEnd::Panicked] {
        assert_eq!(log.finish(end), Err(end));
    }
}

#[test]
fn every_frame_is_counted_once() {
    let mut accumulator = Accumulator::new();
    let frame = FrameStats { send_success: true, ..test_frame(millis(1)) };
    let frames = [
        frame,
        FrameStats { send_success: false, ..frame },
        FrameStats { capture_path: CapturePath::Reencode, ..frame },
        FrameStats { is_key_frame: true, ..frame },
        FrameStats { capture_path: CapturePath::Direct, ..frame },
    ];
    for frame in frames {
        assert!(accumulator.has_room_for(&frame, 60));
        accumulator.add(&frame, 60);
    }
    let summary = accumulator.summary(Duration::from_secs(1));
    assert_eq!(
        (summary.successful_frames, summary.failed_frames, summary.reencoded_frames),
        (3, 1, 1)
    );
    let groups = &summary.host_total_by_path_and_frame_type_us;
    let grouped: u64 = (0..groups.len()).map(|i| groups.at(i).1.count).sum();
    assert_eq!(grouped, 4);
    assert_eq!(summary.stages_us.get("host_total").unwrap().count, 3);
    assert_eq!(summary.stages_us.get("send_interval").unwrap().count, 2);
    assert_eq!(summary.network_queue_depth_frames.count, 3);
}

#[test]
fn only_what_a_frame_raises_needs_room() {
    let mut accumulator = Accumulator::new();
    let full = FrameStats { send_success: true, sent_bytes: u64::MAX, ..test_frame(millis(1)) };
    accumulator.add(&full, 60);
    assert!(!accumulator.has_room_for(&full, 60));
    assert!(accumulator.has_room_for(&FrameStats { send_success: false, ..full }, 60));
    let again = FrameStats { capture_path: CapturePath::Reencode, ..full };
    assert!(accumulator.has_room_for(&again, 60));
}

#[test]
fn names_are_kept_in_order() {
    let mut names = map(&[("b", 2), ("a", 1), ("b", 3), ("ab", 4)]);
    let listed: Vec<&str> = (0..names.len()).map(|i| names.at(i).0).collect();
    assert_eq!(listed, ["a", "ab", "b"]);
    assert_eq!(names.get("b"), Some(&3));
    assert_eq!(names.remove("a"), Some(1));
    assert_eq!(names.remove("a"), None);
    assert!(!names.contains_key("a"));
}
