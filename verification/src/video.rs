//! The video stream: its settings, and what happens to the frames it sends.

use crate::metrics::{Counter, FrameStats, VideoDiagnostics};
use crate::net::Address;
use crate::time::{self, Duration, Instant};
use vstd::prelude::*;

verus! {

/// Configuration for the video stream.
#[derive(Clone, Copy, Debug, PartialEq, Eq, Structural)]
pub struct VideoStreamConfig {
    /// Port to use for streaming video data.
    pub port: u16,
    /// What percentage of data packets should be parity packets.
    pub fec_percentage: u8,
    /// Whether to enable video stream encryption (AES-128-GCM).
    pub encrypt: bool,
    /// Whether to log a warning when a single frame takes longer to encode and packetize
    /// than the frame budget.
    pub log_frame_spikes: bool,
}

impl VideoStreamConfig {
    /// What holds unless something else is configured.
    pub open spec fn usual() -> VideoStreamConfig {
        VideoStreamConfig { port: 47998, fec_percentage: 20, encrypt: false, log_frame_spikes: false }
    }
}

impl Default for VideoStreamConfig {
    fn default() -> (r: VideoStreamConfig)
        ensures
            r.port == 47998,
            r.fec_percentage == 20,
            !r.encrypt,
            !r.log_frame_spikes,
            r == VideoStreamConfig::usual(),
    {
        VideoStreamConfig { port: 47998, fec_percentage: 20, encrypt: false, log_frame_spikes: false }
    }
}

#[derive(Clone, Copy, Debug, PartialEq, Eq, Structural)]
pub enum VideoFormat {
    H264,
    Hevc,
    Av1,
}

impl Default for VideoFormat {
    fn default() -> (r: VideoFormat)
        ensures
            r == VideoFormat::H264,
    {
        VideoFormat::H264
    }
}

impl TryFrom<u32> for VideoFormat {
    type Error = ();

    fn try_from(value: u32) -> (r: Result<VideoFormat, ()>) {
        match value {
            0 => Ok(VideoFormat::H264),
            1 => Ok(VideoFormat::Hevc),
            2 => Ok(VideoFormat::Av1),
            _ => Err(()),
        }
    }
}

impl vstd::std_specs::convert::TryFromSpecImpl<u32> for VideoFormat {
    open spec fn obeys_try_from_spec() -> bool {
        true
    }

    open spec fn try_from_spec(value: u32) -> Result<VideoFormat, ()> {
        if value == 0 {
            Ok(VideoFormat::H264)
        } else if value == 1 {
            Ok(VideoFormat::Hevc)
        } else if value == 2 {
            Ok(VideoFormat::Av1)
        } else {
            Err(())
        }
    }
}

#[derive(Clone, Copy, Debug, PartialEq, Eq, Structural)]
pub enum VideoDynamicRange {
    Sdr,
    Hdr,
}

impl Default for VideoDynamicRange {
    fn default() -> (r: VideoDynamicRange)
        ensures
            r == VideoDynamicRange::Sdr,
    {
        VideoDynamicRange::Sdr
    }
}

impl TryFrom<u32> for VideoDynamicRange {
    type Error = ();

    fn try_from(value: u32) -> (r: Result<VideoDynamicRange, ()>) {
        match value {
            0 => Ok(VideoDynamicRange::Sdr),
            1 => Ok(VideoDynamicRange::Hdr),
            _ => Err(()),
        }
    }
}

impl vstd::std_specs::convert::TryFromSpecImpl<u32> for VideoDynamicRange {
    open spec fn obeys_try_from_spec() -> bool {
        true
    }

    open spec fn try_from_spec(value: u32) -> Result<VideoDynamicRange, ()> {
        if value == 0 {
            Ok(VideoDynamicRange::Sdr)
        } else if value == 1 {
            Ok(VideoDynamicRange::Hdr)
        } else {
            Err(())
        }
    }
}

#[derive(Clone, Copy, Debug, PartialEq, Eq, Structural)]
pub enum VideoChromaSampling {
    Yuv420,
    Yuv444,
}

impl Default for VideoChromaSampling {
    fn default() -> (r: VideoChromaSampling)
        ensures
            r == VideoChromaSampling::Yuv420,
    {
        VideoChromaSampling::Yuv420
    }
}

impl TryFrom<u32> for VideoChromaSampling {
    type Error = ();

    fn try_from(value: u32) -> (r: Result<VideoChromaSampling, ()>) {
        match value {
            0 => Ok(VideoChromaSampling::Yuv420),
            1 => Ok(VideoChromaSampling::Yuv444),
            _ => Err(()),
        }
    }
}

impl vstd::std_specs::convert::TryFromSpecImpl<u32> for VideoChromaSampling {
    open spec fn obeys_try_from_spec() -> bool {
        true
    }

    open spec fn try_from_spec(value: u32) -> Result<VideoChromaSampling, ()> {
        if value == 0 {
            Ok(VideoChromaSampling::Yuv420)
        } else if value == 1 {
            Ok(VideoChromaSampling::Yuv444)
        } else {
            Err(())
        }
    }
}

#[derive(Clone, Copy, Debug, PartialEq, Eq, Structural)]
pub struct VideoStreamContext {
    /// Width of the video stream in pixels.
    pub width: u32,
    /// Height of the video stream in pixels.
    pub height: u32,
    /// Frames per second of the video stream.
    pub fps: u32,
    /// Size of each encoded packet in bytes.
    pub packet_size: usize,
    /// Target bitrate for the video stream in bits per second.
    pub bitrate: usize,
    /// Minimum number of parity packets for each frame.
    pub minimum_fec_packets: u32,
    /// Whether to apply QoS markings to video stream packets.
    pub qos: bool,
    /// Video format to use for encoding the stream.
    pub video_format: VideoFormat,
    /// Dynamic range of the video stream.
    pub dynamic_range: VideoDynamicRange,
    /// Chroma sampling type for the video stream.
    pub chroma_sampling_type: VideoChromaSampling,
    /// Maximum number of reference frames for the video encoder.
    pub max_reference_frames: u32,
    /// Whether the client asked for full-range (0-255) rather than
    /// limited-range (16-235) luma.
    pub full_range: bool,
    /// Whether the client has enabled video encryption.
    pub encrypt_video: bool,
}

impl Default for VideoStreamContext {
    fn default() -> (r: VideoStreamContext)
        ensures
            r == (VideoStreamContext {
                width: 0,
                height: 0,
                fps: 0,
                packet_size: 0,
                bitrate: 0,
                minimum_fec_packets: 0,
                qos: false,
                video_format: VideoFormat::H264,
                dynamic_range: VideoDynamicRange::Sdr,
                chroma_sampling_type: VideoChromaSampling::Yuv420,
                max_reference_frames: 0,
                full_range: false,
                encrypt_video: false,
            }),
    {
        VideoStreamContext {
            width: 0,
            height: 0,
            fps: 0,
            packet_size: 0,
            bitrate: 0,
            minimum_fec_packets: 0,
            qos: false,
            video_format: VideoFormat::default(),
            dynamic_range: VideoDynamicRange::default(),
            chroma_sampling_type: VideoChromaSampling::default(),
            max_reference_frames: 0,
            full_range: false,
            encrypt_video: false,
        }
    }
}

/// The type-of-service marking of packets that are sent with QoS.
pub const QOS_TOS: u32 = 160;

/// One request for a key frame at a time.
pub const IDR_CAPACITY: usize = 1;

/// Room for a small burst of loss reports; the encode loop drains all that are pending.
pub const INVALIDATE_CAPACITY: usize = 16;

/// One reset request at a time.
pub const RESET_CAPACITY: usize = 1;

/// Frames between the encoder and the sender.
pub const PACKET_CAPACITY: usize = 128;

/// The start permits of a stream: the pipeline takes one, and so does the packet handler.
pub const START_PERMITS: usize = 2;

/// How a video stream is set up.
#[derive(Clone, Copy, Debug, PartialEq, Eq, Structural)]
pub struct StreamSetup {
    /// The type-of-service marking that the socket gets, if any.
    pub tos: Option<u32>,
    pub idr_capacity: usize,
    pub invalidate_capacity: usize,
    pub reset_capacity: usize,
    pub packet_capacity: usize,
}

impl StreamSetup {
    /// The set-up that a client's context asks for.
    pub open spec fn fitting(context: &VideoStreamContext) -> StreamSetup {
        StreamSetup {
            tos: if context.qos {
                Some(QOS_TOS)
            } else {
                None
            },
            idr_capacity: IDR_CAPACITY,
            invalidate_capacity: INVALIDATE_CAPACITY,
            reset_capacity: RESET_CAPACITY,
            packet_capacity: PACKET_CAPACITY,
        }
    }

    /// The set-up that a client's context asks for.
    pub fn for_context(context: &VideoStreamContext) -> (r: StreamSetup)
        ensures
            r.tos == if context.qos {
                Some(QOS_TOS)
            } else {
                None
            },
            r.idr_capacity == IDR_CAPACITY,
            r.invalidate_capacity == INVALIDATE_CAPACITY,
            r.reset_capacity == RESET_CAPACITY,
            r.packet_capacity == PACKET_CAPACITY,
            r == StreamSetup::fitting(context),
    {
        StreamSetup {
            tos: if context.qos {
                Some(QOS_TOS)
            } else {
                None
            },
            idr_capacity: IDR_CAPACITY,
            invalidate_capacity: INVALIDATE_CAPACITY,
            reset_capacity: RESET_CAPACITY,
            packet_capacity: PACKET_CAPACITY,
        }
    }
}

/// What became of the datagrams of one frame.
#[derive(Clone, Copy, Debug, PartialEq, Eq, Structural)]
pub struct SendReport {
    pub bytes: u64,
    pub datagrams: u64,
    pub errors: u64,
    /// Chunks that the kernel refused to segment and that went out shard by shard.
    pub fallback_chunks: u64,
}

impl Default for SendReport {
    fn default() -> (r: SendReport)
        ensures
            r == (SendReport { bytes: 0, datagrams: 0, errors: 0, fallback_chunks: 0 }),
    {
        SendReport { bytes: 0, datagrams: 0, errors: 0, fallback_chunks: 0 }
    }
}

/// A frame and its timing stay together through the network queue.
#[derive(Clone, Copy, Debug, PartialEq, Eq, Structural)]
pub struct PacketFrame {
    /// How many shards the frame was cut into.
    pub shard_count: usize,
    pub stats: FrameStats,
    pub enqueued_at: Instant,
}

/// What sending one frame adds to a counter.
pub open spec fn sent_count(counter: Counter, report: SendReport) -> u64 {
    match counter {
        Counter::SendFrames => 1,
        Counter::SendFailedFrames => if report.errors > 0 {
            1
        } else {
            0
        },
        Counter::SendErrors => report.errors,
        Counter::SendBytes => report.bytes,
        Counter::SendDatagrams => report.datagrams,
        Counter::GsoFallbackChunks => report.fallback_chunks,
        _ => 0,
    }
}

impl PacketFrame {
    /// The measurements of the frame once all its send attempts have finished.
    pub open spec fn completed(
        self,
        dequeued_at: Instant,
        completed_at: Instant,
        report: SendReport,
    ) -> FrameStats {
        FrameStats {
            completed_at,
            network_queue: Duration {
                nanos: time::elapsed_nanos(dequeued_at, self.enqueued_at) as u128,
            },
            network_send: Duration {
                nanos: time::elapsed_nanos(completed_at, dequeued_at) as u128,
            },
            total: Duration {
                nanos: time::elapsed_nanos(completed_at, self.stats.capture_started_at) as u128,
            },
            send_success: report.errors == 0,
            send_errors: report.errors,
            sent_bytes: report.bytes,
            sent_datagrams: report.datagrams,
            gso_fallback_chunks: report.fallback_chunks,
            ..self.stats
        }
    }

    /// Completes the measurements of a frame and counts what was sent.
    pub fn complete(
        self,
        dequeued_at: Instant,
        completed_at: Instant,
        report: SendReport,
        diagnostics: &mut VideoDiagnostics,
    ) -> (r: FrameStats)
        ensures
            r == self.completed(dequeued_at, completed_at, report),
            forall|c: Counter|
                final(diagnostics).count_of(c) == (old(diagnostics).count_of(c) + sent_count(
                    c,
                    report,
                )) % 0x1_0000_0000_0000_0000,
    {
        let mut stats: FrameStats = self.stats;
        stats.completed_at = completed_at;
        stats.network_queue = dequeued_at.duration_since(self.enqueued_at);
        stats.network_send = completed_at.duration_since(dequeued_at);
        stats.total = completed_at.duration_since(self.stats.capture_started_at);
        stats.send_success = report.errors == 0;
        stats.send_errors = report.errors;
        stats.sent_bytes = report.bytes;
        stats.sent_datagrams = report.datagrams;
        stats.gso_fallback_chunks = report.fallback_chunks;
        diagnostics.count(Counter::SendFrames);
        if report.errors > 0 {
            diagnostics.count(Counter::SendFailedFrames);
        }
        diagnostics.add(Counter::SendErrors, report.errors);
        diagnostics.add(Counter::SendBytes, report.bytes);
        diagnostics.add(Counter::SendDatagrams, report.datagrams);
        diagnostics.add(Counter::GsoFallbackChunks, report.fallback_chunks);
        stats
    }
}

/// Where the stages before the queue account for all the time up to it, the stages of a
/// completed frame account for its whole time: queue and socket are counted, and nothing
/// is counted twice.
pub proof fn lemma_completion_accounts_for_the_total(
    frame: PacketFrame,
    dequeued_at: Instant,
    completed_at: Instant,
    report: SendReport,
)
    requires
        frame.stats.capture_started_at.nanos <= frame.enqueued_at.nanos,
        frame.enqueued_at.nanos <= dequeued_at.nanos <= completed_at.nanos,
        frame.stats.enqueued_nanos() == time::elapsed_nanos(
            frame.enqueued_at,
            frame.stats.capture_started_at,
        ),
    ensures
        frame.completed(dequeued_at, completed_at, report).total.nanos == frame.completed(
            dequeued_at,
            completed_at,
            report,
        ).accounted_nanos(),
{
}

/// Refused segmentation is reported once in so many nanoseconds.
pub const SEND_WARN_INTERVAL: u128 = 1_000_000_000;

/// What a client sends to say where frames should go.
pub open spec fn is_ping(message: Seq<u8>) -> bool {
    message == seq![0x50u8, 0x49u8, 0x4eu8, 0x47u8]
}

fn check_ping(message: &[u8]) -> (r: bool)
    ensures
        r == is_ping(message@),
{
    let r: bool = message.len() == 4 && message[0] == 0x50 && message[1] == 0x49 && message[2]
        == 0x4e && message[3] == 0x47;
    proof {
        if r {
            assert(message@ =~= seq![0x50u8, 0x49u8, 0x4eu8, 0x47u8]);
        }
    }
    r
}

/// What the packet handler waits for.
pub enum PacketEvent<'a> {
    /// A frame came out of the packet channel.
    Dequeued { frame: PacketFrame, at: Instant },
    /// The packet channel was closed.
    ChannelClosed,
    /// All send attempts for a frame have finished.
    Sent { frame: PacketFrame, dequeued_at: Instant, completed_at: Instant, report: SendReport },
    /// A datagram came in.
    Message { bytes: &'a [u8], from: Address },
    /// The socket cannot receive.
    ReceiveFailed,
    /// The session is shutting down.
    Cancelled,
}

/// What the packet handler does next.
#[derive(Clone, Copy, Debug, PartialEq, Eq, Structural)]
pub enum PacketAction {
    /// Wait for the next frame or message.
    Wait,
    /// Send a frame to the client.
    Send { frame: PacketFrame, dequeued_at: Instant, to: Address },
    /// Publish the measurements of a frame, and report refused chunks where there are any
    /// to report.
    Publish { stats: FrameStats, refused_chunks: Option<u64> },
    /// Log a message of so many bytes that makes no sense.
    ReportUnknown { length: usize },
    /// End the handler, and with it the session.
    Stop,
}

/// What the packet handler remembers: where frames go, and when it last reported refused
/// chunks.
#[derive(Clone, Copy, Debug, PartialEq, Eq, Structural)]
pub struct PacketHandler {
    pub client: Option<Address>,
    pub last_send_warn: Option<Instant>,
}

impl PacketHandler {
    /// Whether refused chunks are worth a report.
    pub open spec fn reports(self, report: SendReport, now: Instant) -> bool {
        &&& report.fallback_chunks > 0
        &&& self.last_send_warn is None || time::elapsed_nanos(now, self.last_send_warn->0)
            >= SEND_WARN_INTERVAL
    }

    /// What an event asks for.
    pub open spec fn action(self, event: PacketEvent) -> PacketAction {
        match event {
            PacketEvent::Dequeued { frame, at } => match self.client {
                Some(to) if frame.shard_count > 0 => PacketAction::Send { frame, dequeued_at: at, to },
                _ => PacketAction::Wait,
            },
            PacketEvent::Sent { frame, dequeued_at, completed_at, report } => PacketAction::Publish {
                stats: frame.completed(dequeued_at, completed_at, report),
                refused_chunks: if self.reports(report, completed_at) {
                    Some(report.fallback_chunks)
                } else {
                    None
                },
            },
            PacketEvent::Message { bytes, from } => if is_ping(bytes@) {
                PacketAction::Wait
            } else {
                PacketAction::ReportUnknown { length: bytes@.len() as usize }
            },
            _ => PacketAction::Stop,
        }
    }

    /// What the handler remembers after an event.
    pub open spec fn after(self, event: PacketEvent) -> PacketHandler {
        match event {
            PacketEvent::Sent { frame, dequeued_at, completed_at, report } if self.reports(
                report,
                completed_at,
            ) => PacketHandler { last_send_warn: Some(completed_at), ..self },
            PacketEvent::Message { bytes, from } if is_ping(bytes@) => PacketHandler {
                client: Some(from),
                ..self
            },
            _ => self,
        }
    }

    /// What an event adds to a counter.
    pub open spec fn counted(self, event: PacketEvent, counter: Counter) -> u64 {
        match event {
            PacketEvent::Dequeued { .. } => if counter == Counter::NoClient && self.client is None {
                1
            } else {
                0
            },
            PacketEvent::Sent { frame, dequeued_at, completed_at, report } => sent_count(
                counter,
                report,
            ),
            _ => 0,
        }
    }

    /// Nobody to send to, and nothing reported.
    pub fn new() -> (r: PacketHandler)
        ensures
            r.client is None,
            r.last_send_warn is None,
    {
        PacketHandler { client: None, last_send_warn: None }
    }

    /// Takes one event and says what to do next.
    pub fn step(&mut self, event: PacketEvent, diagnostics: &mut VideoDiagnostics) -> (r:
        PacketAction)
        ensures
            r == old(self).action(event),
            *final(self) == old(self).after(event),
            forall|c: Counter|
                final(diagnostics).count_of(c) == (old(diagnostics).count_of(c) + old(self).counted(
                    event,
                    c,
                )) % 0x1_0000_0000_0000_0000,
    {
        match event {
            PacketEvent::Dequeued { frame, at } => match self.client {
                Some(to) => if frame.shard_count > 0 {
                    PacketAction::Send { frame, dequeued_at: at, to }
                } else {
                    PacketAction::Wait
                },
                None => {
                    diagnostics.count(Counter::NoClient);
                    PacketAction::Wait
                },
            },
            PacketEvent::ChannelClosed => PacketAction::Stop,
            PacketEvent::Sent { frame, dequeued_at, completed_at, report } => {
                let stats: FrameStats = frame.complete(dequeued_at, completed_at, report, diagnostics);
                let due: bool = match self.last_send_warn {
                    Some(last) => completed_at.duration_since(last).nanos >= SEND_WARN_INTERVAL,
                    None => true,
                };
                if report.fallback_chunks > 0 && due {
                    self.last_send_warn = Some(completed_at);
                    PacketAction::Publish { stats, refused_chunks: Some(report.fallback_chunks) }
                } else {
                    PacketAction::Publish { stats, refused_chunks: None }
                }
            },
            PacketEvent::Message { bytes, from } => {
                if check_ping(bytes) {
                    self.client = Some(from);
                    PacketAction::Wait
                } else {
                    PacketAction::ReportUnknown { length: bytes.len() }
                }
            },
            PacketEvent::ReceiveFailed => PacketAction::Stop,
            PacketEvent::Cancelled => PacketAction::Stop,
        }
    }
}

/// What a handler remembers after a series of events.
pub open spec fn after_events(handler: PacketHandler, events: Seq<PacketEvent>) -> PacketHandler
    decreases events.len(),
{
    if events.len() == 0 {
        handler
    } else {
        after_events(handler, events.drop_last()).after(events.last())
    }
}

/// Frames go to where the latest ping came from, whatever else happened since.
pub proof fn lemma_frames_follow_the_latest_ping(
    handler: PacketHandler,
    events: Seq<PacketEvent>,
    ping: int,
)
    requires
        0 <= ping < events.len(),
        events[ping] is Message,
        is_ping(events[ping]->bytes@),
        forall|i: int|
            ping < i < events.len() && #[trigger] events[i] is Message ==> !is_ping(
                events[i]->bytes@,
            ),
    ensures
        after_events(handler, events).client == Some(events[ping]->from),
    decreases events.len(),
{
    let rest = events.drop_last();
    let last = events[events.len() - 1];
    if ping < rest.len() {
        assert forall|i: int| ping < i < rest.len() && #[trigger] rest[i] is Message implies !is_ping(
            rest[i]->bytes@,
        ) by {
            assert(events[i] is Message);
        }
        lemma_frames_follow_the_latest_ping(handler, rest, ping);
        assert(last is Message ==> !is_ping(last->bytes@));
    }
}

/// Without a ping no frame is sent.
pub proof fn lemma_nothing_is_sent_without_a_ping(
    handler: PacketHandler,
    events: Seq<PacketEvent>,
    next: PacketEvent,
)
    requires
        handler.client is None,
        forall|i: int|
            0 <= i < events.len() && #[trigger] events[i] is Message ==> !is_ping(events[i]->bytes@),
    ensures
        !(after_events(handler, events).action(next) is Send),
        after_events(handler, events).client is None,
    decreases events.len(),
{
    if events.len() > 0 {
        let rest = events.drop_last();
        let last = events[events.len() - 1];
        assert forall|i: int| 0 <= i < rest.len() && #[trigger] rest[i] is Message implies !is_ping(
            rest[i]->bytes@,
        ) by {
            assert(events[i] is Message);
        }
        lemma_nothing_is_sent_without_a_ping(handler, rest, next);
        assert(last is Message ==> !is_ping(last->bytes@));
    }
}

/// Two reports of refused chunks are at least the interval apart.
pub proof fn lemma_reports_are_rare(
    handler: PacketHandler,
    first: Instant,
    events: Seq<PacketEvent>,
    report: SendReport,
    second: Instant,
)
    requires
        handler.last_send_warn == Some(first),
        after_events(handler, events).reports(report, second),
        forall|i: int|
            0 <= i < events.len() && #[trigger] events[i] is Sent ==> first.nanos
                <= events[i]->completed_at.nanos,
    ensures
        second.nanos >= first.nanos + SEND_WARN_INTERVAL,
{
    lemma_last_report_is_later(handler, first, events);
}

proof fn lemma_last_report_is_later(handler: PacketHandler, first: Instant, events: Seq<PacketEvent>)
    requires
        handler.last_send_warn == Some(first),
        forall|i: int|
            0 <= i < events.len() && #[trigger] events[i] is Sent ==> first.nanos
                <= events[i]->completed_at.nanos,
    ensures
        after_events(handler, events).last_send_warn is Some,
        after_events(handler, events).last_send_warn->0.nanos >= first.nanos,
    decreases events.len(),
{
    if events.len() > 0 {
        let rest = events.drop_last();
        let last = events[events.len() - 1];
        assert forall|i: int| 0 <= i < rest.len() && #[trigger] rest[i] is Sent implies first.nanos
            <= rest[i]->completed_at.nanos by {
            assert(events[i] is Sent);
        }
        lemma_last_report_is_later(handler, first, rest);
        assert(last is Sent ==> first.nanos <= last->completed_at.nanos);
    }
}

/// The published measurements carry the report of the sender unchanged, each number equal to
/// the rise of the counter of the same name, and say when the frame left. Nothing else about
/// the frame changes.
pub proof fn lemma_measurements_carry_the_report(
    frame: PacketFrame,
    dequeued_at: Instant,
    completed_at: Instant,
    report: SendReport,
)
    ensures
        ({
            let stats = frame.completed(dequeued_at, completed_at, report);
            &&& stats.sent_bytes == report.bytes == sent_count(Counter::SendBytes, report)
            &&& stats.sent_datagrams == report.datagrams == sent_count(
                Counter::SendDatagrams,
                report,
            )
            &&& stats.send_errors == report.errors == sent_count(Counter::SendErrors, report)
            &&& stats.gso_fallback_chunks == report.fallback_chunks == sent_count(
                Counter::GsoFallbackChunks,
                report,
            )
            &&& stats.send_success <==> report.errors == 0
            &&& stats.completed_at == completed_at
        }),
        ({
            let stats = frame.completed(dequeued_at, completed_at, report);
            let before = frame.stats;
            &&& stats.frame_number == before.frame_number
            &&& stats.capture_path == before.capture_path
            &&& stats.capture_started_at == before.capture_started_at
            &&& stats.buffer_age == before.buffer_age
            &&& stats.scene_wait == before.scene_wait
            &&& stats.timer_lateness == before.timer_lateness
            &&& stats.capture == before.capture
            &&& stats.render_wait == before.render_wait
            &&& stats.channel_wait == before.channel_wait
            &&& stats.import == before.import
            &&& stats.convert == before.convert
            &&& stats.submit == before.submit
            &&& stats.consumer_queue == before.consumer_queue
            &&& stats.encode_wait == before.encode_wait
            &&& stats.packetize == before.packetize
            &&& stats.send == before.send
            &&& stats.network_queue_depth == before.network_queue_depth
            &&& stats.encoded_bytes == before.encoded_bytes
            &&& stats.is_key_frame == before.is_key_frame
        }),
{
}

/// The times of a frame follow each other: from its capture to the end of its sends, from the
/// queue to the sender, and from the sender to the end of its sends.
pub proof fn lemma_times_follow_each_other(
    frame: PacketFrame,
    dequeued_at: Instant,
    completed_at: Instant,
    report: SendReport,
)
    requires
        frame.stats.capture_started_at.nanos <= frame.enqueued_at.nanos <= dequeued_at.nanos
            <= completed_at.nanos,
    ensures
        ({
            let stats = frame.completed(dequeued_at, completed_at, report);
            &&& frame.enqueued_at.nanos + stats.network_queue.nanos == dequeued_at.nanos
            &&& dequeued_at.nanos + stats.network_send.nanos == completed_at.nanos
            &&& frame.stats.capture_started_at.nanos + stats.total.nanos == completed_at.nanos
        }),
{
}

/// Every frame that was sent is counted, and counted as failed exactly if a send failed. What
/// does not concern the sender is not touched.
pub proof fn lemma_sent_frames_are_counted(counter: Counter, report: SendReport)
    ensures
        sent_count(Counter::SendFrames, report) == 1,
        sent_count(Counter::SendFailedFrames, report) <= sent_count(Counter::SendFrames, report),
        sent_count(Counter::SendFailedFrames, report) == 1 <==> report.errors > 0,
        sent_count(counter, report) > 0 ==> counter == Counter::SendFrames || counter
            == Counter::SendFailedFrames || counter == Counter::SendErrors || counter
            == Counter::SendBytes || counter == Counter::SendDatagrams || counter
            == Counter::GsoFallbackChunks,
{
}

/// A ping is spelled out: its four letters, and nothing after them.
pub proof fn lemma_pings_are_spelled_out(message: Seq<u8>)
    ensures
        is_ping(message) <==> message.len() == 4 && message[0] == 'P' as u8 && message[1]
            == 'I' as u8 && message[2] == 'N' as u8 && message[3] == 'G' as u8,
{
    assert('P' as u8 == 0x50 && 'I' as u8 == 0x49 && 'N' as u8 == 0x4e && 'G' as u8 == 0x47);
    if message.len() == 4 && message[0] == 0x50 && message[1] == 0x49 && message[2] == 0x4e
        && message[3] == 0x47 {
        assert(message =~= seq![0x50u8, 0x49u8, 0x4eu8, 0x47u8]);
    }
}

/// A frame that leaves the queue is sent as it is, with the time at which it left, to the
/// client that pinged. Without shards there is nothing to send; without a client it is counted,
/// once, and left.
pub proof fn lemma_dequeued_frames_are_sent(handler: PacketHandler, frame: PacketFrame, at: Instant)
    ensures
        ({
            let event = PacketEvent::Dequeued { frame, at };
            &&& handler.after(event) == handler
            &&& match (handler.client, handler.action(event)) {
                (Some(client), PacketAction::Send { frame: sent, dequeued_at, to }) => sent == frame
                    && dequeued_at == at && to == client && frame.shard_count != 0,
                (_, PacketAction::Wait) => handler.client is None || frame.shard_count == 0,
                _ => false,
            }
            &&& handler.counted(event, Counter::NoClient) == if handler.client is None {
                1int
            } else {
                0
            }
            &&& forall|counter: Counter|
                counter != Counter::NoClient ==> #[trigger] handler.counted(event, counter) == 0
        }),
{
}

/// The handler goes on until the queue is closed, the socket fails or the session ends, and
/// none of these counts as anything.
pub proof fn lemma_what_ends_the_handler(handler: PacketHandler, event: PacketEvent, counter: Counter)
    ensures
        handler.action(event) == PacketAction::Stop <==> event is ChannelClosed
            || event is ReceiveFailed || event is Cancelled,
        handler.action(event) == PacketAction::Stop ==> handler.after(event) == handler
            && handler.counted(event, counter) == 0,
{
}

/// A ping moves the stream to where it came from. Any other message is reported with its
/// length and changes nothing. No message counts as anything.
pub proof fn lemma_only_pings_move_the_stream(
    handler: PacketHandler,
    bytes: &[u8],
    from: Address,
    counter: Counter,
)
    requires
        bytes@.len() <= usize::MAX,
    ensures
        ({
            let event = PacketEvent::Message { bytes, from };
            &&& is_ping(bytes@) ==> handler.after(event).client == Some(from) && handler.action(event)
                == PacketAction::Wait
            &&& !is_ping(bytes@) ==> handler.after(event) == handler && handler.action(event)
                is ReportUnknown && handler.action(event)->length == bytes@.len()
            &&& handler.after(event).last_send_warn == handler.last_send_warn
            &&& handler.counted(event, counter) == 0
        }),
{
}

/// Whatever was sent is published and counted. Refused chunks are reported, with their number,
/// the first time, and then only after a whole second; a frame without any is not reported and
/// leaves the time of the last report as it was.
pub proof fn lemma_what_was_sent_is_published(
    handler: PacketHandler,
    frame: PacketFrame,
    dequeued_at: Instant,
    completed_at: Instant,
    report: SendReport,
)
    ensures
        ({
            let event = PacketEvent::Sent { frame, dequeued_at, completed_at, report };
            let action = handler.action(event);
            let due = match handler.last_send_warn {
                Some(last) => last.nanos + 1_000_000_000 <= completed_at.nanos,
                None => true,
            };
            let reported = report.fallback_chunks != 0 && due;
            &&& action is Publish
            &&& action->stats == frame.completed(dequeued_at, completed_at, report)
            &&& action->refused_chunks == if reported {
                Some(report.fallback_chunks)
            } else {
                None
            }
            &&& handler.after(event).last_send_warn == if reported {
                Some(completed_at)
            } else {
                handler.last_send_warn
            }
            &&& handler.after(event).client == handler.client
            &&& forall|counter: Counter| #[trigger]
                handler.counted(event, counter) == sent_count(counter, report)
        }),
{
}

/// Packets are marked exactly where the client asked for it, all with the same mark. One
/// request for a key frame and one for a reset can wait, sixteen reports of loss, and a hundred
/// and twenty-eight frames. Whatever else the client asks for does not matter.
pub proof fn lemma_streams_are_set_up_alike(context: &VideoStreamContext)
    ensures
        ({
            let setup = StreamSetup::fitting(context);
            &&& setup.tos is Some <==> context.qos
            &&& setup.tos is Some ==> setup.tos->0 == 0xa0
            &&& setup.idr_capacity == 1
            &&& setup.reset_capacity == 1
            &&& setup.invalidate_capacity == 16
            &&& setup.packet_capacity == 128
        }),
        START_PERMITS == 2,
{
}

/// What a client's numbers stand for. Numbers beyond the list stand for nothing.
pub proof fn lemma_what_numbers_stand_for(value: u32)
    ensures
        ({
            let format = <VideoFormat as vstd::std_specs::convert::TryFromSpec<
                u32,
            >>::try_from_spec(value);
            &&& format is Ok <==> value < 3
            &&& format == Ok::<VideoFormat, ()>(VideoFormat::H264) <==> value == 0
            &&& format == Ok::<VideoFormat, ()>(VideoFormat::Hevc) <==> value == 1
            &&& format == Ok::<VideoFormat, ()>(VideoFormat::Av1) <==> value == 2
        }),
        ({
            let range = <VideoDynamicRange as vstd::std_specs::convert::TryFromSpec<
                u32,
            >>::try_from_spec(value);
            &&& range is Ok <==> value < 2
            &&& range == Ok::<VideoDynamicRange, ()>(VideoDynamicRange::Sdr) <==> value == 0
            &&& range == Ok::<VideoDynamicRange, ()>(VideoDynamicRange::Hdr) <==> value == 1
        }),
        ({
            let sampling = <VideoChromaSampling as vstd::std_specs::convert::TryFromSpec<
                u32,
            >>::try_from_spec(value);
            &&& sampling is Ok <==> value < 2
            &&& sampling == Ok::<VideoChromaSampling, ()>(VideoChromaSampling::Yuv420) <==> value
                == 0
            &&& sampling == Ok::<VideoChromaSampling, ()>(VideoChromaSampling::Yuv444) <==> value
                == 1
        }),
{
}

/// A stream is usually sent in the clear from its own port, with one parity packet for every
/// five packets of data, and frames that take long are not logged.
pub proof fn lemma_streams_are_usually_plain()
    ensures
        5 * VideoStreamConfig::usual().fec_percentage == 100,
        VideoStreamConfig::usual().port == 47_998,
        !VideoStreamConfig::usual().encrypt,
        !VideoStreamConfig::usual().log_frame_spikes,
{
}

} // verus!
