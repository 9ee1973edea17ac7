//! Host-side measurement boundaries. No timestamp here implies client presentation.

use crate::names::NameMap;
use crate::time::{Duration, Instant, MAX_DURATION_NANOS};
use vstd::prelude::*;

verus! {

/// How a frame's image came to be.
#[derive(Clone, Copy, Debug, PartialEq, Eq, Structural)]
pub enum CapturePath {
    Composited,
    Direct,
    DirectOverride,
    /// Recovery encode using the previous image, not a new capture.
    Reencode,
}

impl Default for CapturePath {
    fn default() -> (r: CapturePath)
        ensures
            r == CapturePath::Composited,
    {
        CapturePath::Composited
    }
}

/// Monotonic counters survive lost stats messages. Static ticks are not drops.
#[derive(Clone, Copy, Debug, PartialEq, Eq, Structural)]
pub enum Counter {
    CaptureTicks,
    StaticSkips,
    PoolBusy,
    CaptureAttempts,
    CaptureExported,
    CaptureQueueFull,
    CaptureErrors,
    EncodeBackpressure,
    ImportErrors,
    ConvertErrors,
    SubmitErrors,
    Submitted,
    ReadbackErrors,
    PacketizeErrors,
    NoClient,
    SendFrames,
    SendFailedFrames,
    SendDatagrams,
    SendBytes,
    SendErrors,
    GsoFallbackChunks,
    CaptureVisibleUpdate,
}

/// The number of counters.
pub const COUNTERS: usize = 22;

/// Where a counter stands in the list of counters.
pub open spec fn counter_index(counter: Counter) -> int {
    match counter {
        Counter::CaptureTicks => 0,
        Counter::StaticSkips => 1,
        Counter::PoolBusy => 2,
        Counter::CaptureAttempts => 3,
        Counter::CaptureExported => 4,
        Counter::CaptureQueueFull => 5,
        Counter::CaptureErrors => 6,
        Counter::EncodeBackpressure => 7,
        Counter::ImportErrors => 8,
        Counter::ConvertErrors => 9,
        Counter::SubmitErrors => 10,
        Counter::Submitted => 11,
        Counter::ReadbackErrors => 12,
        Counter::PacketizeErrors => 13,
        Counter::NoClient => 14,
        Counter::SendFrames => 15,
        Counter::SendFailedFrames => 16,
        Counter::SendDatagrams => 17,
        Counter::SendBytes => 18,
        Counter::SendErrors => 19,
        Counter::GsoFallbackChunks => 20,
        Counter::CaptureVisibleUpdate => 21,
    }
}

/// The name under which a counter is reported.
pub open spec fn counter_name(counter: Counter) -> Seq<char> {
    match counter {
        Counter::CaptureTicks => "capture_ticks"@,
        Counter::StaticSkips => "static_skips"@,
        Counter::PoolBusy => "pool_busy"@,
        Counter::CaptureAttempts => "capture_attempts"@,
        Counter::CaptureExported => "capture_exported"@,
        Counter::CaptureQueueFull => "capture_queue_full"@,
        Counter::CaptureErrors => "capture_errors"@,
        Counter::EncodeBackpressure => "encode_backpressure"@,
        Counter::ImportErrors => "import_errors"@,
        Counter::ConvertErrors => "convert_errors"@,
        Counter::SubmitErrors => "submit_errors"@,
        Counter::Submitted => "submitted"@,
        Counter::ReadbackErrors => "readback_errors"@,
        Counter::PacketizeErrors => "packetize_errors"@,
        Counter::NoClient => "no_client"@,
        Counter::SendFrames => "send_frames"@,
        Counter::SendFailedFrames => "send_failed_frames"@,
        Counter::SendDatagrams => "send_datagrams"@,
        Counter::SendBytes => "send_bytes"@,
        Counter::SendErrors => "send_errors"@,
        Counter::GsoFallbackChunks => "gso_fallback_chunks"@,
        Counter::CaptureVisibleUpdate => "capture_visible_update"@,
    }
}

/// A few characters that tell the names of counters apart.
spec fn fingerprint(name: Seq<char>) -> (nat, char, char, char, char) {
    (name.len(), name[0], name[1], name[5], name[8])
}

spec fn counter_fingerprint(counter: Counter) -> (nat, char, char, char, char) {
    match counter {
        Counter::CaptureTicks => (13, 'c', 'a', 'r', 't'),
        Counter::StaticSkips => (12, 's', 't', 'c', 'k'),
        Counter::PoolBusy => (9, 'p', 'o', 'b', 'y'),
        Counter::CaptureAttempts => (16, 'c', 'a', 'r', 'a'),
        Counter::CaptureExported => (16, 'c', 'a', 'r', 'e'),
        Counter::CaptureQueueFull => (18, 'c', 'a', 'r', 'q'),
        Counter::CaptureErrors => (14, 'c', 'a', 'r', 'e'),
        Counter::EncodeBackpressure => (19, 'e', 'n', 'e', 'a'),
        Counter::ImportErrors => (13, 'i', 'm', 't', 'r'),
        Counter::ConvertErrors => (14, 'c', 'o', 'r', 'e'),
        Counter::SubmitErrors => (13, 's', 'u', 't', 'r'),
        Counter::Submitted => (9, 's', 'u', 't', 'd'),
        Counter::ReadbackErrors => (15, 'r', 'e', 'a', '_'),
        Counter::PacketizeErrors => (16, 'p', 'a', 't', 'e'),
        Counter::NoClient => (9, 'n', 'o', 'i', 't'),
        Counter::SendFrames => (11, 's', 'e', 'f', 'm'),
        Counter::SendFailedFrames => (18, 's', 'e', 'f', 'l'),
        Counter::SendDatagrams => (14, 's', 'e', 'd', 'a'),
        Counter::SendBytes => (10, 's', 'e', 'b', 'e'),
        Counter::SendErrors => (11, 's', 'e', 'e', 'o'),
        Counter::GsoFallbackChunks => (19, 'g', 's', 'a', 'b'),
        Counter::CaptureVisibleUpdate => (22, 'c', 'a', 'r', 'v'),
    }
}

proof fn lemma_fingerprint(counter: Counter)
    ensures
        fingerprint(counter_name(counter)) == counter_fingerprint(counter),
{
    match counter {
        Counter::CaptureTicks => reveal_strlit("capture_ticks"),
        Counter::StaticSkips => reveal_strlit("static_skips"),
        Counter::PoolBusy => reveal_strlit("pool_busy"),
        Counter::CaptureAttempts => reveal_strlit("capture_attempts"),
        Counter::CaptureExported => reveal_strlit("capture_exported"),
        Counter::CaptureQueueFull => reveal_strlit("capture_queue_full"),
        Counter::CaptureErrors => reveal_strlit("capture_errors"),
        Counter::EncodeBackpressure => reveal_strlit("encode_backpressure"),
        Counter::ImportErrors => reveal_strlit("import_errors"),
        Counter::ConvertErrors => reveal_strlit("convert_errors"),
        Counter::SubmitErrors => reveal_strlit("submit_errors"),
        Counter::Submitted => reveal_strlit("submitted"),
        Counter::ReadbackErrors => reveal_strlit("readback_errors"),
        Counter::PacketizeErrors => reveal_strlit("packetize_errors"),
        Counter::NoClient => reveal_strlit("no_client"),
        Counter::SendFrames => reveal_strlit("send_frames"),
        Counter::SendFailedFrames => reveal_strlit("send_failed_frames"),
        Counter::SendDatagrams => reveal_strlit("send_datagrams"),
        Counter::SendBytes => reveal_strlit("send_bytes"),
        Counter::SendErrors => reveal_strlit("send_errors"),
        Counter::GsoFallbackChunks => reveal_strlit("gso_fallback_chunks"),
        Counter::CaptureVisibleUpdate => reveal_strlit("capture_visible_update"),
    }
}

/// No two counters share a name.
pub proof fn lemma_counter_names_differ(a: Counter, b: Counter)
    ensures
        counter_name(a) == counter_name(b) ==> a == b,
{
    lemma_fingerprint(a);
    lemma_fingerprint(b);
}

impl Counter {
    /// The counter at a position of the list.
    fn nth(index: usize) -> (r: Counter)
        requires
            index < COUNTERS,
        ensures
            counter_index(r) == index,
    {
        match index {
            0 => Counter::CaptureTicks,
            1 => Counter::StaticSkips,
            2 => Counter::PoolBusy,
            3 => Counter::CaptureAttempts,
            4 => Counter::CaptureExported,
            5 => Counter::CaptureQueueFull,
            6 => Counter::CaptureErrors,
            7 => Counter::EncodeBackpressure,
            8 => Counter::ImportErrors,
            9 => Counter::ConvertErrors,
            10 => Counter::SubmitErrors,
            11 => Counter::Submitted,
            12 => Counter::ReadbackErrors,
            13 => Counter::PacketizeErrors,
            14 => Counter::NoClient,
            15 => Counter::SendFrames,
            16 => Counter::SendFailedFrames,
            17 => Counter::SendDatagrams,
            18 => Counter::SendBytes,
            19 => Counter::SendErrors,
            20 => Counter::GsoFallbackChunks,
            _ => Counter::CaptureVisibleUpdate,
        }
    }

    fn index(self) -> (r: usize)
        ensures
            r == counter_index(self),
            r < COUNTERS,
    {
        match self {
            Counter::CaptureTicks => 0,
            Counter::StaticSkips => 1,
            Counter::PoolBusy => 2,
            Counter::CaptureAttempts => 3,
            Counter::CaptureExported => 4,
            Counter::CaptureQueueFull => 5,
            Counter::CaptureErrors => 6,
            Counter::EncodeBackpressure => 7,
            Counter::ImportErrors => 8,
            Counter::ConvertErrors => 9,
            Counter::SubmitErrors => 10,
            Counter::Submitted => 11,
            Counter::ReadbackErrors => 12,
            Counter::PacketizeErrors => 13,
            Counter::NoClient => 14,
            Counter::SendFrames => 15,
            Counter::SendFailedFrames => 16,
            Counter::SendDatagrams => 17,
            Counter::SendBytes => 18,
            Counter::SendErrors => 19,
            Counter::GsoFallbackChunks => 20,
            Counter::CaptureVisibleUpdate => 21,
        }
    }

    /// The name under which this counter is reported.
    pub fn name(self) -> (r: &'static str)
        ensures
            r@ == counter_name(self),
    {
        match self {
            Counter::CaptureTicks => "capture_ticks",
            Counter::StaticSkips => "static_skips",
            Counter::PoolBusy => "pool_busy",
            Counter::CaptureAttempts => "capture_attempts",
            Counter::CaptureExported => "capture_exported",
            Counter::CaptureQueueFull => "capture_queue_full",
            Counter::CaptureErrors => "capture_errors",
            Counter::EncodeBackpressure => "encode_backpressure",
            Counter::ImportErrors => "import_errors",
            Counter::ConvertErrors => "convert_errors",
            Counter::SubmitErrors => "submit_errors",
            Counter::Submitted => "submitted",
            Counter::ReadbackErrors => "readback_errors",
            Counter::PacketizeErrors => "packetize_errors",
            Counter::NoClient => "no_client",
            Counter::SendFrames => "send_frames",
            Counter::SendFailedFrames => "send_failed_frames",
            Counter::SendDatagrams => "send_datagrams",
            Counter::SendBytes => "send_bytes",
            Counter::SendErrors => "send_errors",
            Counter::GsoFallbackChunks => "gso_fallback_chunks",
            Counter::CaptureVisibleUpdate => "capture_visible_update",
        }
    }
}

/// The counters of a video stream.
pub struct VideoDiagnostics {
    counters: Vec<u64>,
}

impl Default for VideoDiagnostics {
    fn default() -> (r: VideoDiagnostics)
        ensures
            forall|c: Counter| r.count_of(c) == 0,
    {
        VideoDiagnostics::new()
    }
}

impl VideoDiagnostics {
    #[verifier::type_invariant]
    spec fn well_formed(self) -> bool {
        self.counters@.len() == COUNTERS
    }

    /// What a counter stands at.
    pub closed spec fn count_of(&self, counter: Counter) -> u64 {
        self.counters@[counter_index(counter)]
    }

    /// All counters at zero.
    pub fn new() -> (r: VideoDiagnostics)
        ensures
            forall|c: Counter| r.count_of(c) == 0,
    {
        let mut counters: Vec<u64> = Vec::new();
        let mut i: usize = 0;
        while i < COUNTERS
            invariant
                i <= COUNTERS,
                counters@.len() == i,
                forall|k: int| 0 <= k < i ==> counters@[k] == 0,
            decreases COUNTERS - i,
        {
            counters.push(0);
            i = i + 1;
        }
        VideoDiagnostics { counters }
    }

    /// Counts one event.
    pub fn count(&mut self, counter: Counter)
        ensures
            final(self).count_of(counter) == (old(self).count_of(counter) + 1) % 0x1_0000_0000_0000_0000,
            forall|c: Counter| c != counter ==> final(self).count_of(c) == old(self).count_of(c),
    {
        self.add(counter, 1);
    }

    /// Counts `value` events; a full counter starts again from zero.
    pub fn add(&mut self, counter: Counter, value: u64)
        ensures
            final(self).count_of(counter) == (old(self).count_of(counter) + value)
                % 0x1_0000_0000_0000_0000,
            forall|c: Counter| c != counter ==> final(self).count_of(c) == old(self).count_of(c),
    {
        proof {
            use_type_invariant(&*self);
        }
        let i: usize = counter.index();
        let sum: u64 = self.counters[i].wrapping_add(value);
        self.counters[i] = sum;
    }

    /// Every counter under its name.
    pub fn snapshot(&self) -> (r: NameMap<u64>)
        ensures
            forall|c: Counter|
                #![trigger counter_name(c)]
                r@.contains_key(counter_name(c)) && r@[counter_name(c)] == self.count_of(c),
            forall|name: Seq<char>| #[trigger]
                r@.contains_key(name) ==> exists|c: Counter| counter_name(c) == name,
    {
        proof {
            use_type_invariant(self);
        }
        let mut r: NameMap<u64> = NameMap::new();
        let mut i: usize = 0;
        while i < COUNTERS
            invariant
                i <= COUNTERS,
                self.counters@.len() == COUNTERS,
                forall|c: Counter|
                    #![trigger counter_name(c)]
                    counter_index(c) < i ==> r@.contains_key(counter_name(c)) && r@[counter_name(c)]
                        == self.count_of(c),
                forall|name: Seq<char>| #[trigger]
                    r@.contains_key(name) ==> exists|c: Counter| counter_name(c) == name,
            decreases COUNTERS - i,
        {
            let counter: Counter = Counter::nth(i);
            r.insert(counter.name(), self.counters[i]);
            proof {
                assert forall|c: Counter|
                    #![trigger counter_name(c)]
                    counter_index(c) <= i implies r@.contains_key(counter_name(c))
                    && r@[counter_name(c)] == self.count_of(c) by {
                    lemma_counter_names_differ(c, counter);
                }
            }
            i = i + 1;
        }
        r
    }
}

/// One encoded frame, complete only after all socket send attempts finish.
/// Durations use the host monotonic clock. Socket completion means kernel
/// acceptance, not delivery to the network, client, decoder, or display.
#[derive(Clone, Copy, Debug, PartialEq, Eq, Structural)]
pub struct FrameStats {
    /// Frame number in the packet headers (resets on reconnect).
    pub frame_number: u32,
    pub capture_path: CapturePath,
    pub capture_started_at: Instant,
    pub completed_at: Instant,
    /// Applied attachment of the selected direct-capture buffer until capture.
    /// Absent for composition and re-encoding. Does not cover client rendering or
    /// time spent attached but not committed.
    pub buffer_age: Option<Duration>,
    /// First observed scene invalidation until capture begins.
    pub scene_wait: Option<Duration>,
    /// Actual capture start minus scheduled timer deadline.
    pub timer_lateness: Duration,
    /// Capture start through render or scanout export completion.
    pub capture: Duration,
    /// Wait for the compositor render fence; lies within `capture`.
    pub render_wait: Duration,
    pub channel_wait: Duration,
    pub import: Duration,
    pub convert: Duration,
    pub submit: Duration,
    /// Consumer scheduling and queue time; lies within `encode_wait`.
    pub consumer_queue: Duration,
    /// Submit completion until the encode result is observed ready.
    pub encode_wait: Duration,
    pub packetize: Duration,
    /// Time waiting for capacity in the outgoing frame channel.
    pub send: Duration,
    /// Channel publication until the sender dequeues this frame.
    pub network_queue: Duration,
    /// First socket attempt through completion of all attempts for the frame.
    pub network_send: Duration,
    /// Capture start through socket send completion.
    pub total: Duration,
    /// Queue occupancy just before publication, without this frame.
    pub network_queue_depth: usize,
    /// Whether every datagram was accepted by the socket.
    pub send_success: bool,
    pub send_errors: u64,
    pub sent_bytes: u64,
    pub sent_datagrams: u64,
    pub gso_fallback_chunks: u64,
    pub encoded_bytes: usize,
    pub is_key_frame: bool,
}

impl FrameStats {
    /// The stages from capture to publication in the network queue.
    pub open spec fn enqueued_nanos(&self) -> int {
        self.capture.nanos + self.channel_wait.nanos + self.import.nanos + self.convert.nanos
            + self.submit.nanos + self.encode_wait.nanos + self.packetize.nanos + self.send.nanos
    }

    /// The additive stages. Diagnostic subsets are left out on purpose.
    pub open spec fn accounted_nanos(&self) -> int {
        self.enqueued_nanos() + self.network_queue.nanos + self.network_send.nanos
    }

    /// The sum of the additive stages, which must be an expressible duration.
    pub fn accounted(&self) -> (r: Duration)
        requires
            self.accounted_nanos() <= MAX_DURATION_NANOS,
        ensures
            r.nanos == self.accounted_nanos(),
    {
        self.capture.plus(self.channel_wait).plus(self.import).plus(self.convert).plus(self.submit).plus(
            self.encode_wait,
        ).plus(self.packetize).plus(self.send).plus(self.network_queue).plus(self.network_send)
    }
}

/// Each additive stage counts once, and nothing else does: a frame on which a stage takes
/// longer takes as much longer in all, and the diagnostic subsets do not matter.
pub proof fn lemma_each_stage_counts_once(stats: FrameStats, slower: FrameStats)
    ensures
        slower.accounted_nanos() - stats.accounted_nanos() == (slower.capture.nanos
            - stats.capture.nanos) + (slower.channel_wait.nanos - stats.channel_wait.nanos) + (
        slower.import.nanos - stats.import.nanos) + (slower.convert.nanos - stats.convert.nanos) + (
        slower.submit.nanos - stats.submit.nanos) + (slower.encode_wait.nanos
            - stats.encode_wait.nanos) + (slower.packetize.nanos - stats.packetize.nanos) + (
        slower.send.nanos - stats.send.nanos) + (slower.network_queue.nanos
            - stats.network_queue.nanos) + (slower.network_send.nanos - stats.network_send.nanos),
        stats.accounted_nanos() >= stats.capture.nanos,
        stats.capture.nanos == 0 && stats.channel_wait.nanos == 0 && stats.import.nanos == 0
            && stats.convert.nanos == 0 && stats.submit.nanos == 0 && stats.encode_wait.nanos == 0
            && stats.packetize.nanos == 0 && stats.send.nanos == 0 && stats.network_queue.nanos
            == 0 && stats.network_send.nanos == 0 ==> stats.accounted_nanos() == 0,
{
}

/// The queue and the socket come on top of what a frame took until it was queued.
pub proof fn lemma_queue_and_socket_come_on_top(stats: FrameStats)
    ensures
        stats.enqueued_nanos() + stats.network_queue.nanos + stats.network_send.nanos
            == stats.accounted_nanos(),
{
}

/// The counters of captures and encodings bear the names of what they count.
pub proof fn lemma_capture_counters_are_named(counter: Counter)
    ensures
        counter == Counter::CaptureTicks ==> counter_name(counter) == "capture_ticks"@,
        counter == Counter::StaticSkips ==> counter_name(counter) == "static_skips"@,
        counter == Counter::PoolBusy ==> counter_name(counter) == "pool_busy"@,
        counter == Counter::CaptureAttempts ==> counter_name(counter) == "capture_attempts"@,
        counter == Counter::CaptureExported ==> counter_name(counter) == "capture_exported"@,
        counter == Counter::CaptureQueueFull ==> counter_name(counter) == "capture_queue_full"@,
        counter == Counter::CaptureErrors ==> counter_name(counter) == "capture_errors"@,
        counter == Counter::EncodeBackpressure ==> counter_name(counter) == "encode_backpressure"@,
        counter == Counter::ImportErrors ==> counter_name(counter) == "import_errors"@,
        counter == Counter::ConvertErrors ==> counter_name(counter) == "convert_errors"@,
        counter == Counter::SubmitErrors ==> counter_name(counter) == "submit_errors"@,
        counter == Counter::CaptureVisibleUpdate ==> counter_name(counter)
            == "capture_visible_update"@,
{
}

/// The counters of the sender bear the names of what they count.
pub proof fn lemma_sender_counters_are_named(counter: Counter)
    ensures
        counter_name(counter) == "send_frames"@ <==> counter == Counter::SendFrames,
        counter_name(counter) == "send_failed_frames"@ <==> counter == Counter::SendFailedFrames,
        counter_name(counter) == "send_datagrams"@ <==> counter == Counter::SendDatagrams,
        counter_name(counter) == "send_bytes"@ <==> counter == Counter::SendBytes,
        counter_name(counter) == "send_errors"@ <==> counter == Counter::SendErrors,
        counter_name(counter) == "gso_fallback_chunks"@ <==> counter == Counter::GsoFallbackChunks,
        counter_name(counter) == "no_client"@ <==> counter == Counter::NoClient,
        counter_name(counter) == "submitted"@ <==> counter == Counter::Submitted,
        counter_name(counter) == "readback_errors"@ <==> counter == Counter::ReadbackErrors,
        counter_name(counter) == "packetize_errors"@ <==> counter == Counter::PacketizeErrors,
{
    lemma_counter_names_differ(counter, Counter::SendFrames);
    lemma_counter_names_differ(counter, Counter::SendFailedFrames);
    lemma_counter_names_differ(counter, Counter::SendDatagrams);
    lemma_counter_names_differ(counter, Counter::SendBytes);
    lemma_counter_names_differ(counter, Counter::SendErrors);
    lemma_counter_names_differ(counter, Counter::GsoFallbackChunks);
    lemma_counter_names_differ(counter, Counter::NoClient);
    lemma_counter_names_differ(counter, Counter::Submitted);
    lemma_counter_names_differ(counter, Counter::ReadbackErrors);
    lemma_counter_names_differ(counter, Counter::PacketizeErrors);
}

/// Counters in the order of their list have one place each, and the places are filled without
/// a gap.
pub proof fn lemma_counters_have_places(a: Counter, b: Counter)
    ensures
        0 <= counter_index(a) < 22,
        counter_index(a) == counter_index(b) ==> a == b,
        COUNTERS == 22,
{
}

} // verus!
