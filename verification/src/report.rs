//! What a benchmark run reports: stage distributions, counts and rates.

use crate::metrics::FrameStats;
use crate::names::{self, NameMap};
use crate::time::{Duration, MAX_DURATION_NANOS};
use vstd::prelude::*;

verus! {

/// Whole microseconds of a number of nanoseconds, as far as 64 bits go.
pub open spec fn micros(nanos: int) -> u64 {
    if nanos / 1_000 > u64::MAX {
        u64::MAX
    } else {
        (nanos / 1_000) as u64
    }
}

/// A duration in microseconds, rounded down, at most `u64::MAX`.
pub fn us(duration: Duration) -> (r: u64)
    ensures
        r == micros(duration.nanos as int),
{
    let whole: u128 = duration.as_micros();
    if whole > u64::MAX as u128 {
        u64::MAX
    } else {
        whole as u64
    }
}

/// Where the stages of a frame, and its age joined to its latency, are expressible durations.
pub open spec fn measurable(stats: &FrameStats) -> bool {
    &&& stats.accounted_nanos() <= MAX_DURATION_NANOS
    &&& stats.buffer_age matches Some(age) ==> age.nanos + stats.total.nanos <= MAX_DURATION_NANOS
}

/// Whether the durations of a frame can be added up.
pub fn is_measurable(stats: &FrameStats) -> (r: bool)
    ensures
        r == measurable(stats),
{
    let mut left: u128 = MAX_DURATION_NANOS;
    let stages: [Duration; 10] = [
        stats.capture,
        stats.channel_wait,
        stats.import,
        stats.convert,
        stats.submit,
        stats.encode_wait,
        stats.packetize,
        stats.send,
        stats.network_queue,
        stats.network_send,
    ];
    let mut i: usize = 0;
    proof {
        reveal_with_fuel(stage_sum, 11);
        assert(stage_sum(stages@, 10) == stats.accounted_nanos());
    }
    while i < 10
        invariant
            i <= 10,
            left == MAX_DURATION_NANOS - stage_sum(stages@, i as int),
            stage_sum(stages@, 10) == stats.accounted_nanos(),
        decreases 10 - i,
    {
        if stages[i].nanos > left {
            proof {
                lemma_stage_sum_grows(stages@, i + 1, 10);
            }
            return false;
        }
        left = left - stages[i].nanos;
        i = i + 1;
    }
    match stats.buffer_age {
        Some(age) => age.nanos <= MAX_DURATION_NANOS && stats.total.nanos <= MAX_DURATION_NANOS
            - age.nanos,
        None => true,
    }
}

/// The sum of the first few of some durations.
spec fn stage_sum(stages: Seq<Duration>, n: int) -> int
    decreases n,
{
    if n <= 0 {
        0
    } else {
        stage_sum(stages, n - 1) + stages[n - 1].nanos
    }
}

proof fn lemma_stage_sum_grows(stages: Seq<Duration>, n: int, m: int)
    requires
        0 <= n <= m,
    ensures
        stage_sum(stages, n) <= stage_sum(stages, m),
    decreases m,
{
    if n < m {
        lemma_stage_sum_grows(stages, n, m - 1);
    }
}

/// The latency that the additive stages leave unexplained.
pub open spec fn unaccounted_nanos(stats: &FrameStats) -> int {
    if stats.total.nanos >= stats.accounted_nanos() {
        stats.total.nanos - stats.accounted_nanos()
    } else {
        0
    }
}

/// The stages that every frame has, in microseconds.
pub open spec fn common_stages(stats: &FrameStats) -> Map<Seq<char>, u64> {
    Map::<Seq<char>, u64>::empty().insert("host_total"@, micros(stats.total.nanos as int)).insert(
        "capture"@,
        micros(stats.capture.nanos as int),
    ).insert("channel_wait"@, micros(stats.channel_wait.nanos as int)).insert(
        "import"@,
        micros(stats.import.nanos as int),
    ).insert("convert"@, micros(stats.convert.nanos as int)).insert(
        "submit"@,
        micros(stats.submit.nanos as int),
    ).insert("encode_wait"@, micros(stats.encode_wait.nanos as int)).insert(
        "packetize"@,
        micros(stats.packetize.nanos as int),
    ).insert("enqueue_wait"@, micros(stats.send.nanos as int)).insert(
        "network_queue"@,
        micros(stats.network_queue.nanos as int),
    ).insert("network_send"@, micros(stats.network_send.nanos as int)).insert(
        "timer_lateness"@,
        micros(stats.timer_lateness.nanos as int),
    ).insert("render_wait"@, micros(stats.render_wait.nanos as int)).insert(
        "consumer_queue"@,
        micros(stats.consumer_queue.nanos as int),
    ).insert("unaccounted"@, micros(unaccounted_nanos(stats)))
}

/// All stages of a frame, in microseconds. The age of the source buffer is there only if
/// the frame has one, and so is the wait of the scene.
pub open spec fn stage_values(stats: &FrameStats) -> Map<Seq<char>, u64> {
    let common = common_stages(stats);
    let aged = match stats.buffer_age {
        Some(age) => common.insert("buffer_age"@, micros(age.nanos as int)).insert(
            "buffer_to_send"@,
            micros(age.nanos + stats.total.nanos),
        ),
        None => common,
    };
    match stats.scene_wait {
        Some(wait) => aged.insert("scene_wait"@, micros(wait.nanos as int)),
        None => aged,
    }
}

/// The stages of a frame, in microseconds, by name.
pub fn stages(stats: &FrameStats) -> (r: NameMap<u64>)
    requires
        measurable(stats),
    ensures
        r@ == stage_values(stats),
{
    let mut r: NameMap<u64> = NameMap::new();
    r.insert("host_total", us(stats.total));
    r.insert("capture", us(stats.capture));
    r.insert("channel_wait", us(stats.channel_wait));
    r.insert("import", us(stats.import));
    r.insert("convert", us(stats.convert));
    r.insert("submit", us(stats.submit));
    r.insert("encode_wait", us(stats.encode_wait));
    r.insert("packetize", us(stats.packetize));
    r.insert("enqueue_wait", us(stats.send));
    r.insert("network_queue", us(stats.network_queue));
    r.insert("network_send", us(stats.network_send));
    r.insert("timer_lateness", us(stats.timer_lateness));
    r.insert("render_wait", us(stats.render_wait));
    r.insert("consumer_queue", us(stats.consumer_queue));
    r.insert("unaccounted", us(stats.total.saturating_sub(stats.accounted())));
    if let Some(age) = stats.buffer_age {
        r.insert("buffer_age", us(age));
        r.insert("buffer_to_send", us(age.plus(stats.total)));
    }
    if let Some(wait) = stats.scene_wait {
        r.insert("scene_wait", us(wait));
    }
    r
}

/// The length and the first two letters of a name, which tell the stages apart.
spec fn mark(name: Seq<char>) -> (nat, char, char) {
    (name.len(), name[0], name[1])
}

proof fn lemma_stage_marks()
    ensures
        mark("host_total"@) == (10nat, 'h', 'o'),
        mark("capture"@) == (7nat, 'c', 'a'),
        mark("channel_wait"@) == (12nat, 'c', 'h'),
        mark("import"@) == (6nat, 'i', 'm'),
        mark("convert"@) == (7nat, 'c', 'o'),
        mark("submit"@) == (6nat, 's', 'u'),
        mark("encode_wait"@) == (11nat, 'e', 'n'),
        mark("packetize"@) == (9nat, 'p', 'a'),
        mark("enqueue_wait"@) == (12nat, 'e', 'n'),
        mark("network_queue"@) == (13nat, 'n', 'e'),
        mark("network_send"@) == (12nat, 'n', 'e'),
        mark("timer_lateness"@) == (14nat, 't', 'i'),
        mark("render_wait"@) == (11nat, 'r', 'e'),
        mark("consumer_queue"@) == (14nat, 'c', 'o'),
        mark("unaccounted"@) == (11nat, 'u', 'n'),
        mark("buffer_age"@) == (10nat, 'b', 'u'),
        mark("buffer_to_send"@) == (14nat, 'b', 'u'),
        mark("scene_wait"@) == (10nat, 's', 'c'),
{
    reveal_strlit("host_total");
    reveal_strlit("capture");
    reveal_strlit("channel_wait");
    reveal_strlit("import");
    reveal_strlit("convert");
    reveal_strlit("submit");
    reveal_strlit("encode_wait");
    reveal_strlit("packetize");
    reveal_strlit("enqueue_wait");
    reveal_strlit("network_queue");
    reveal_strlit("network_send");
    reveal_strlit("timer_lateness");
    reveal_strlit("render_wait");
    reveal_strlit("consumer_queue");
    reveal_strlit("unaccounted");
    reveal_strlit("buffer_age");
    reveal_strlit("buffer_to_send");
    reveal_strlit("scene_wait");
}

/// Every stage is found under its own name.
pub proof fn lemma_stages_by_name(stats: &FrameStats)
    ensures
        ({
            let values = stage_values(stats);
            &&& values["host_total"@] == micros(stats.total.nanos as int)
            &&& values["capture"@] == micros(stats.capture.nanos as int)
            &&& values["channel_wait"@] == micros(stats.channel_wait.nanos as int)
            &&& values["import"@] == micros(stats.import.nanos as int)
            &&& values["convert"@] == micros(stats.convert.nanos as int)
            &&& values["submit"@] == micros(stats.submit.nanos as int)
            &&& values["encode_wait"@] == micros(stats.encode_wait.nanos as int)
            &&& values["packetize"@] == micros(stats.packetize.nanos as int)
            &&& values["enqueue_wait"@] == micros(stats.send.nanos as int)
            &&& values["network_queue"@] == micros(stats.network_queue.nanos as int)
            &&& values["network_send"@] == micros(stats.network_send.nanos as int)
            &&& values["timer_lateness"@] == micros(stats.timer_lateness.nanos as int)
            &&& values["render_wait"@] == micros(stats.render_wait.nanos as int)
            &&& values["consumer_queue"@] == micros(stats.consumer_queue.nanos as int)
            &&& values["unaccounted"@] == micros(unaccounted_nanos(stats))
            &&& stats.buffer_age matches Some(age) ==> values["buffer_age"@] == micros(
                age.nanos as int,
            ) && values["buffer_to_send"@] == micros(age.nanos + stats.total.nanos)
            &&& stats.scene_wait matches Some(wait) ==> values["scene_wait"@] == micros(
                wait.nanos as int,
            )
            &&& values.contains_key("buffer_age"@) <==> stats.buffer_age is Some
            &&& values.contains_key("buffer_to_send"@) <==> stats.buffer_age is Some
            &&& values.contains_key("scene_wait"@) <==> stats.scene_wait is Some
        }),
{
    lemma_stage_marks();
}

/// Every frame has a latency.
pub proof fn lemma_has_host_total(stats: &FrameStats)
    ensures
        stage_values(stats).contains_key("host_total"@),
{
}

/// No stage of a frame begins like the times of its receipt do.
pub proof fn lemma_stages_are_no_receipts(stats: &FrameStats, name: Seq<char>)
    requires
        stage_values(stats).contains_key(name),
    ensures
        name[0] != 'l',
{
    lemma_stage_marks();
}

/// The time between two frames is no stage of either.
pub proof fn lemma_intervals_are_no_stage(stats: &FrameStats)
    ensures
        !stage_values(stats).contains_key("send_interval"@),
{
    lemma_stage_marks();
    reveal_strlit("send_interval");
    assert("send_interval"@[1] == 'e' && "send_interval"@.len() == 13);
}

/// The additive stages and what they leave unaccounted for make up the whole latency, unless
/// the stages exceed it.
pub proof fn lemma_stages_add_up(stats: &FrameStats)
    ensures
        stats.accounted_nanos() <= stats.total.nanos ==> stats.accounted_nanos()
            + unaccounted_nanos(stats) == stats.total.nanos,
        stats.accounted_nanos() >= stats.total.nanos ==> unaccounted_nanos(stats) == 0,
{
}

/// How far a counter rose from one snapshot to a later one.
pub open spec fn rise(end: u64, start: Map<Seq<char>, u64>, name: Seq<char>) -> int {
    let from = if start.contains_key(name) {
        start[name] as int
    } else {
        0
    };
    if end >= from {
        end - from
    } else {
        0
    }
}

/// Whether a map says how far each counter of `end` rose since `start`.
pub open spec fn is_delta(
    delta: Map<Seq<char>, u64>,
    end: Map<Seq<char>, u64>,
    start: Map<Seq<char>, u64>,
) -> bool {
    &&& delta.dom() == end.dom()
    &&& forall|name: Seq<char>| #[trigger]
        end.contains_key(name) ==> delta[name] == rise(end[name], start, name)
}

/// How far each counter of `end` rose since `start`.
pub fn counter_delta(end: &NameMap<u64>, start: &NameMap<u64>) -> (r: NameMap<u64>)
    ensures
        is_delta(r@, end@, start@),
{
    let mut r: NameMap<u64> = NameMap::new();
    let n: usize = end.len();
    let mut i: usize = 0;
    while i < n
        invariant
            i <= n,
            n == end.names().len(),
            names::lists(end.names(), end@),
            forall|name: Seq<char>| #[trigger]
                r@.contains_key(name) <==> end.names().take(i as int).contains(name),
            forall|name: Seq<char>| #[trigger]
                r@.contains_key(name) ==> r@[name] == rise(end@[name], start@, name),
        decreases n - i,
    {
        let (name, value) = end.at(i);
        let from: u64 = match start.get(name) {
            Some(v) => *v,
            None => 0,
        };
        r.insert(name, value.saturating_sub(from));
        proof {
            names::lemma_take_next(end.names(), i as int);
        }
        i = i + 1;
    }
    proof {
        assert(end.names().take(n as int) =~= end.names());
        assert(r@.dom() =~= end@.dom());
    }
    r
}

/// The value of a counter, zero where it is missing.
pub open spec fn count_in(counters: Map<Seq<char>, u64>, name: Seq<char>) -> u64 {
    if counters.contains_key(name) {
        counters[name]
    } else {
        0
    }
}

/// Submitted frames that came to an end, one way or another.
pub open spec fn ended_frames(counters: Map<Seq<char>, u64>) -> int {
    count_in(counters, "readback_errors"@) + count_in(counters, "packetize_errors"@) + count_in(
        counters,
        "no_client"@,
    ) + count_in(counters, "send_frames"@)
}

/// Submitted frames that have not come to an end.
pub open spec fn outstanding_frames(counters: Map<Seq<char>, u64>) -> int {
    if count_in(counters, "submitted"@) >= ended_frames(counters) {
        count_in(counters, "submitted"@) - ended_frames(counters)
    } else {
        0
    }
}

fn count_or_zero(counters: &NameMap<u64>, name: &str) -> (r: u64)
    ensures
        r == count_in(counters@, name@),
{
    match counters.get(name) {
        Some(v) => *v,
        None => 0,
    }
}

/// Whether the frames that came to an end can be counted in 64 bits.
pub fn countable(counters: &NameMap<u64>) -> (r: bool)
    ensures
        r == (ended_frames(counters@) <= u64::MAX),
{
    let ended: u128 = count_or_zero(counters, "readback_errors") as u128 + count_or_zero(
        counters,
        "packetize_errors",
    ) as u128 + count_or_zero(counters, "no_client") as u128 + count_or_zero(
        counters,
        "send_frames",
    ) as u128;
    ended <= u64::MAX as u128
}

/// Submitted frames without a terminal outcome at the counter snapshot.
/// This exposes work censored by the end of the measurement window.
pub fn outstanding(counters: &NameMap<u64>) -> (r: u64)
    requires
        ended_frames(counters@) <= u64::MAX,
    ensures
        r == outstanding_frames(counters@),
{
    let ended: u64 = count_or_zero(counters, "readback_errors") + count_or_zero(
        counters,
        "packetize_errors",
    ) + count_or_zero(counters, "no_client") + count_or_zero(counters, "send_frames");
    count_or_zero(counters, "submitted").saturating_sub(ended)
}

/// Microseconds are rounded down: they never exceed what they stand for, and fall short of it
/// by less than one. They end where 64 bits do.
pub proof fn lemma_micros_round_down(nanos: int)
    requires
        0 <= nanos,
    ensures
        1_000 * micros(nanos) <= nanos,
        micros(nanos) < u64::MAX ==> nanos < 1_000 * micros(nanos) + 1_000,
{
}

/// What takes longer is not shown as shorter, and a time that is made up of two others is
/// shown as their sum, or one microsecond more.
pub proof fn lemma_micros_add_up(a: int, b: int)
    requires
        0 <= a,
        0 <= b,
    ensures
        micros(a) <= micros(a + b),
        micros(a + b) < u64::MAX ==> micros(a) + micros(b) <= micros(a + b) <= micros(a) + micros(b)
            + 1,
{
}

/// A frame can be measured exactly if the sum of its stages, and its age with its latency,
/// stay within what a clock can tell: less than 2^64 seconds.
pub proof fn lemma_measurable_sums(stats: &FrameStats)
    ensures
        measurable(stats) <==> stats.accounted_nanos() < 18_446_744_073_709_551_616_000_000_000
            && match stats.buffer_age {
            Some(age) => age.nanos + stats.total.nanos < 18_446_744_073_709_551_616_000_000_000,
            None => true,
        },
{
}

/// A frame has no stages but those that are listed, fifteen in any case and three at most
/// besides.
pub proof fn lemma_no_other_stages(stats: &FrameStats, name: Seq<char>)
    requires
        stage_values(stats).contains_key(name),
    ensures
        name == "host_total"@ || name == "capture"@ || name == "channel_wait"@ || name == "import"@
            || name == "convert"@ || name == "submit"@ || name == "encode_wait"@ || name
            == "packetize"@ || name == "enqueue_wait"@ || name == "network_queue"@ || name
            == "network_send"@ || name == "timer_lateness"@ || name == "render_wait"@ || name
            == "consumer_queue"@ || name == "unaccounted"@ || name == "buffer_age"@ || name
            == "buffer_to_send"@ || name == "scene_wait"@,
{
}

/// How far a counter rose, added to where it stood, gives where it stands. One that was not
/// there rose from zero, one that fell did not rise, and no counter is left out or made up.
pub proof fn lemma_delta_closes_the_gap(
    delta: Map<Seq<char>, u64>,
    end: Map<Seq<char>, u64>,
    start: Map<Seq<char>, u64>,
    name: Seq<char>,
)
    requires
        is_delta(delta, end, start),
    ensures
        delta.contains_key(name) <==> end.contains_key(name),
        end.contains_key(name) && !start.contains_key(name) ==> delta[name] == end[name],
        end.contains_key(name) && start.contains_key(name) && start[name] <= end[name]
            ==> start[name] + delta[name] == end[name],
        end.contains_key(name) && start.contains_key(name) && end[name] <= start[name]
            ==> delta[name] == 0,
{
    if end.contains_key(name) {
        assert(delta.dom().contains(name));
    }
    assert(delta.contains_key(name) == delta.dom().contains(name));
}

/// Every submitted frame is outstanding or has one of four ends.
pub proof fn lemma_submitted_frames_end_or_are_outstanding(
    counters: Map<Seq<char>, u64>,
    unread: u64,
    unpacked: u64,
    unsent: u64,
    sent: u64,
    submitted: u64,
)
    requires
        forall|name: Seq<char>| #[trigger]
            counters.contains_key(name) <==> name == "readback_errors"@ || name
                == "packetize_errors"@ || name == "no_client"@ || name == "send_frames"@ || name
                == "submitted"@,
        counters["readback_errors"@] == unread,
        counters["packetize_errors"@] == unpacked,
        counters["no_client"@] == unsent,
        counters["send_frames"@] == sent,
        counters["submitted"@] == submitted,
    ensures
        unread + unpacked + unsent + sent <= submitted ==> outstanding_frames(counters) + unread
            + unpacked + unsent + sent == submitted,
        unread + unpacked + unsent + sent >= submitted ==> outstanding_frames(counters) == 0,
        ended_frames(counters) == unread + unpacked + unsent + sent,
{
}

/// A counter that is missing counts like one that stands at zero.
pub proof fn lemma_missing_counters_are_zero(counters: Map<Seq<char>, u64>, name: Seq<char>)
    requires
        !counters.contains_key(name),
    ensures
        ended_frames(counters.insert(name, 0)) == ended_frames(counters),
        outstanding_frames(counters.insert(name, 0)) == outstanding_frames(counters),
        count_in(counters, name) == 0,
{
}

} // verus!
