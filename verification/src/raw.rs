//! Records of single frames.

use crate::metrics::{CapturePath, FrameStats};
use crate::names::NameMap;
use crate::report::{self, stages, us};
use crate::time::{self, Instant};
use vstd::prelude::*;

verus! {

/// Records that wait to be written. More are dropped, so that writing never holds up the
/// stream.
pub const RAW_CAPACITY: usize = 4096;

/// The version of the records' layout.
pub const RAW_SCHEMA: u64 = 1;

/// The name of a capture path in a record.
pub open spec fn path_label(path: CapturePath) -> Seq<char> {
    match path {
        CapturePath::Composited => "composited"@,
        CapturePath::Direct => "direct"@,
        CapturePath::DirectOverride => "direct_override"@,
        CapturePath::Reencode => "reencode"@,
    }
}

fn label(path: CapturePath) -> (r: &'static str)
    ensures
        r@ == path_label(path),
{
    match path {
        CapturePath::Composited => "composited",
        CapturePath::Direct => "direct",
        CapturePath::DirectOverride => "direct_override",
        CapturePath::Reencode => "reencode",
    }
}

/// What is written about a frame. Times are in microseconds since the streams began.
pub struct RawRecord {
    pub schema_version: u64,
    pub frame_number: u32,
    pub capture_start_us: u64,
    pub socket_complete_us: u64,
    pub capture_path: &'static str,
    pub key_frame: bool,
    pub send_success: bool,
    pub send_errors: u64,
    pub encoded_bytes: usize,
    pub sent_bytes: u64,
    pub sent_datagrams: u64,
    pub gso_fallback_chunks: u64,
    pub network_queue_depth: usize,
    pub stages_us: NameMap<u64>,
}

impl RawRecord {
    /// Whether this is what is written about a frame.
    pub open spec fn describes(&self, stats: &FrameStats, origin: Instant) -> bool {
        &&& self.schema_version == RAW_SCHEMA
        &&& self.frame_number == stats.frame_number
        &&& self.capture_start_us == report::micros(
            time::elapsed_nanos(stats.capture_started_at, origin),
        )
        &&& self.socket_complete_us == report::micros(
            time::elapsed_nanos(stats.completed_at, origin),
        )
        &&& self.capture_path@ == path_label(stats.capture_path)
        &&& self.key_frame == stats.is_key_frame
        &&& self.send_success == stats.send_success
        &&& self.send_errors == stats.send_errors
        &&& self.encoded_bytes == stats.encoded_bytes
        &&& self.sent_bytes == stats.sent_bytes
        &&& self.sent_datagrams == stats.sent_datagrams
        &&& self.gso_fallback_chunks == stats.gso_fallback_chunks
        &&& self.network_queue_depth == stats.network_queue_depth
        &&& self.stages_us@ == report::stage_values(stats)
    }

    /// What is to be written about a frame.
    pub fn new(stats: &FrameStats, origin: Instant) -> (r: RawRecord)
        requires
            report::measurable(stats),
        ensures
            r.describes(stats, origin),
    {
        RawRecord {
            schema_version: RAW_SCHEMA,
            frame_number: stats.frame_number,
            capture_start_us: us(stats.capture_started_at.duration_since(origin)),
            socket_complete_us: us(stats.completed_at.duration_since(origin)),
            capture_path: label(stats.capture_path),
            key_frame: stats.is_key_frame,
            send_success: stats.send_success,
            send_errors: stats.send_errors,
            encoded_bytes: stats.encoded_bytes,
            sent_bytes: stats.sent_bytes,
            sent_datagrams: stats.sent_datagrams,
            gso_fallback_chunks: stats.gso_fallback_chunks,
            network_queue_depth: stats.network_queue_depth,
            stages_us: stages(stats),
        }
    }
}

/// Counts the records that could not be queued. They are never passed over in silence.
#[derive(Clone, Copy, Debug, PartialEq, Eq, Structural)]
pub struct RawLog {
    pub dropped: u64,
}

/// How the writer of the records ended.
#[derive(Clone, Copy, Debug, PartialEq, Eq, Structural)]
pub enum WriterEnd {
    /// Every record that was queued is written.
    Written,
    /// A record could not be written.
    Failed,
    Panicked,
}

impl RawLog {
    /// What a record that was queued, or not, makes of the log.
    pub open spec fn recorded(self, queued: bool) -> RawLog {
        if queued {
            self
        } else {
            RawLog { dropped: (self.dropped + 1) as u64 }
        }
    }

    /// What records, one after another, make of the log.
    pub open spec fn recorded_all(self, queued: Seq<bool>) -> RawLog
        decreases queued.len(),
    {
        if queued.len() == 0 {
            self
        } else {
            self.recorded_all(queued.drop_last()).recorded(queued.last())
        }
    }

    /// What a log comes to once the writer has ended.
    pub open spec fn ended(self, end: WriterEnd) -> Result<u64, WriterEnd> {
        if end == WriterEnd::Written {
            Ok(self.dropped)
        } else {
            Err(end)
        }
    }

    pub fn new() -> (r: RawLog)
        ensures
            r.dropped == 0,
    {
        RawLog { dropped: 0 }
    }

    /// A record was queued, or not.
    pub fn record(&mut self, queued: bool)
        requires
            !queued ==> old(self).dropped < u64::MAX,
        ensures
            *final(self) == old(self).recorded(queued),
    {
        if !queued {
            self.dropped = self.dropped + 1;
        }
    }

    /// How many records were dropped, once the writer has ended. A writer that did not write
    /// all that was queued makes the whole log fail.
    pub fn finish(self, end: WriterEnd) -> (r: Result<u64, WriterEnd>)
        ensures
            r == if end == WriterEnd::Written {
                Ok(self.dropped)
            } else {
                Err::<u64, WriterEnd>(end)
            },
            r == self.ended(end),
    {
        match end {
            WriterEnd::Written => Ok(self.dropped),
            _ => Err(end),
        }
    }
}

/// No loss is silent: a log counts exactly the records that were not queued, and every other
/// record was queued.
pub proof fn lemma_every_dropped_record_is_counted(log: RawLog, queued: Seq<bool>)
    requires
        log.dropped + queued.len() <= u64::MAX,
    ensures
        log.recorded_all(queued).dropped == log.dropped + queued.filter(|q: bool| !q).len(),
        queued.len() == queued.filter(|q: bool| q).len() + queued.filter(|q: bool| !q).len(),
    decreases queued.len(),
{
    reveal(Seq::filter);
    if queued.len() > 0 {
        lemma_every_dropped_record_is_counted(log, queued.drop_last());
    }
}

/// A record says when a frame was captured and when its sends were complete, in whole
/// microseconds since the streams began, and carries what was sent unchanged.
pub proof fn lemma_records_tell_what_was_measured(
    record: RawRecord,
    stats: &FrameStats,
    origin: Instant,
)
    requires
        record.describes(stats, origin),
        origin.nanos <= stats.capture_started_at.nanos < 1_000 * u64::MAX,
        origin.nanos <= stats.completed_at.nanos < 1_000 * u64::MAX,
    ensures
        record.schema_version == 1,
        record.frame_number == stats.frame_number,
        1_000 * record.capture_start_us <= stats.capture_started_at.nanos - origin.nanos < 1_000
            * record.capture_start_us + 1_000,
        1_000 * record.socket_complete_us <= stats.completed_at.nanos - origin.nanos < 1_000
            * record.socket_complete_us + 1_000,
        record.sent_bytes == stats.sent_bytes,
        record.sent_datagrams == stats.sent_datagrams,
        record.send_errors == stats.send_errors,
        record.gso_fallback_chunks == stats.gso_fallback_chunks,
        record.encoded_bytes == stats.encoded_bytes,
        record.network_queue_depth == stats.network_queue_depth,
        record.key_frame == stats.is_key_frame,
        record.send_success == stats.send_success,
        record.stages_us@["host_total"@] == report::micros(stats.total.nanos as int),
        record.stages_us@["capture"@] == report::micros(stats.capture.nanos as int),
{
    report::lemma_stages_by_name(stats);
}

/// A record names the way in which a frame was captured.
pub proof fn lemma_records_name_the_path(record: RawRecord, stats: &FrameStats, origin: Instant)
    requires
        record.describes(stats, origin),
    ensures
        stats.capture_path == CapturePath::Composited ==> record.capture_path@ == "composited"@,
        stats.capture_path == CapturePath::Direct ==> record.capture_path@ == "direct"@,
        stats.capture_path == CapturePath::DirectOverride ==> record.capture_path@
            == "direct_override"@,
        stats.capture_path == CapturePath::Reencode ==> record.capture_path@ == "reencode"@,
{
}

/// Four thousand and ninety-six records can wait to be written.
pub proof fn lemma_records_can_wait()
    ensures
        RAW_CAPACITY == 4 * 1_024,
        RAW_SCHEMA == 1,
{
}

/// A log that begins empty and was written comes to the number of records that were not queued.
/// Where the writer failed or panicked, it comes to that, however many records there were.
pub proof fn lemma_what_a_log_comes_to(queued: Seq<bool>)
    requires
        queued.len() <= u64::MAX,
    ensures
        ({
            let log = (RawLog { dropped: 0 }).recorded_all(queued);
            &&& log.ended(WriterEnd::Written) matches Ok(dropped) && dropped == queued.len()
                - queued.filter(|q: bool| q).len()
            &&& log.ended(WriterEnd::Failed) == Err::<u64, WriterEnd>(WriterEnd::Failed)
            &&& log.ended(WriterEnd::Panicked) == Err::<u64, WriterEnd>(WriterEnd::Panicked)
        }),
{
    lemma_every_dropped_record_is_counted(RawLog { dropped: 0 }, queued);
}

} // verus!
