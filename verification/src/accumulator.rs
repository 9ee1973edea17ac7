//! Accumulates the frames of a measurement window.

use crate::distribution::{Distribution, DistributionSummary};
use crate::metrics::{CapturePath, FrameStats};
use crate::names::{self, NameMap};
use crate::report::{self, stages, us};
use crate::sums;
use crate::time::{self, Duration, Instant};
use vstd::prelude::*;
use vstd::string::*;

verus! {

/// Frame rates for which half a nanosecond remains and the period is rounded down. The period
/// is the double nearest to `1 / fps` seconds. It is exact for the first of these, where the
/// tie goes to the even number of nanoseconds; for the others it lies below the half.
pub open spec fn half_rounds_down(fps: u32) -> bool {
    fps == 1_024 || fps == 16_000_000 || fps == 80_000_000
}

/// The time that one frame has, to the nearest nanosecond.
pub open spec fn frame_budget_nanos(fps: u32) -> int {
    let whole: int = 1_000_000_000int / (fps as int);
    let rest: int = 1_000_000_000int % (fps as int);
    if 2 * rest < fps || (2 * rest == fps && half_rounds_down(fps)) {
        whole
    } else {
        whole + 1
    }
}

/// The time that one frame has at a frame rate.
pub fn frame_budget(fps: u32) -> (r: Duration)
    requires
        fps > 0,
    ensures
        r.nanos == frame_budget_nanos(fps),
{
    let whole: u128 = 1_000_000_000 / fps as u128;
    let rest: u128 = 1_000_000_000 % fps as u128;
    let half_down: bool = fps == 1_024 || fps == 16_000_000 || fps == 80_000_000;
    if 2 * rest < fps as u128 || (2 * rest == fps as u128 && half_down) {
        Duration { nanos: whole }
    } else {
        Duration { nanos: whole + 1 }
    }
}

/// The name of a capture path.
pub open spec fn path_name(path: CapturePath) -> Seq<char> {
    match path {
        CapturePath::Composited => "Composited"@,
        CapturePath::Direct => "Direct"@,
        CapturePath::DirectOverride => "DirectOverride"@,
        CapturePath::Reencode => "Reencode"@,
    }
}

/// The group that a frame's latency is also listed under: capture path and frame type.
pub open spec fn group_of(path: CapturePath, key_frame: bool) -> Seq<char> {
    path_name(path) + "/"@ + if key_frame {
        "key"@
    } else {
        "inter"@
    }
}

fn group_name(path: CapturePath, key_frame: bool) -> (r: String)
    ensures
        r@ == group_of(path, key_frame),
{
    let mut name: String = match path {
        CapturePath::Composited => "Composited",
        CapturePath::Direct => "Direct",
        CapturePath::DirectOverride => "DirectOverride",
        CapturePath::Reencode => "Reencode",
    }.to_owned();
    name.append("/");
    name.append(
        if key_frame {
            "key"
        } else {
            "inter"
        },
    );
    name
}

/// The values listed under a name, none where the name is missing.
pub open spec fn listed(map: Map<Seq<char>, Seq<u64>>, name: Seq<char>) -> Seq<u64> {
    if map.contains_key(name) {
        map[name]
    } else {
        Seq::empty()
    }
}

/// One more value under a name.
pub open spec fn appended(
    map: Map<Seq<char>, Seq<u64>>,
    name: Seq<char>,
    value: u64,
) -> Map<Seq<char>, Seq<u64>> {
    map.insert(name, listed(map, name).push(value))
}

/// One more value under each name of `values`.
pub open spec fn all_appended(
    map: Map<Seq<char>, Seq<u64>>,
    values: Map<Seq<char>, u64>,
) -> Map<Seq<char>, Seq<u64>> {
    Map::new(
        |name: Seq<char>| map.contains_key(name) || values.contains_key(name),
        |name: Seq<char>|
            if values.contains_key(name) {
                listed(map, name).push(values[name])
            } else {
                map[name]
            },
    )
}

/// What has been accumulated.
#[verifier::ext_equal]
pub ghost struct Tally {
    pub stages: Map<Seq<char>, Seq<u64>>,
    pub groups: Map<Seq<char>, Seq<u64>>,
    pub queue_depth: Seq<u64>,
    pub successful_frames: u64,
    pub failed_frames: u64,
    pub reencoded_frames: u64,
    pub over_budget: u64,
    pub encoded_bytes: u64,
    pub sent_bytes: u64,
    pub previous_completion: Option<Instant>,
    pub incomplete_receipts: u64,
}

impl Tally {
    /// The values of a stage.
    pub open spec fn values_of_stage(self, stage: Seq<char>) -> Seq<u64> {
        listed(self.stages, stage)
    }

    /// A frame whose send failed only counts as failed.
    pub open spec fn failed(self) -> Tally {
        Tally { failed_frames: (self.failed_frames + 1) as u64, ..self }
    }

    /// A frame that was sent is listed in its group.
    pub open spec fn grouped(self, stats: &FrameStats) -> Tally {
        Tally {
            groups: appended(
                self.groups,
                group_of(stats.capture_path, stats.is_key_frame),
                report::micros(stats.total.nanos as int),
            ),
            ..self
        }
    }

    /// A successful new capture enters the stages, the rates and the frame budget.
    pub open spec fn captured(self, stats: &FrameStats, fps: u32) -> Tally {
        let stages = all_appended(self.stages, report::stage_values(stats));
        Tally {
            successful_frames: (self.successful_frames + 1) as u64,
            encoded_bytes: (self.encoded_bytes + stats.encoded_bytes) as u64,
            sent_bytes: (self.sent_bytes + stats.sent_bytes) as u64,
            over_budget: if stats.total.nanos > frame_budget_nanos(fps) {
                (self.over_budget + 1) as u64
            } else {
                self.over_budget
            },
            stages: match self.previous_completion {
                Some(previous) => appended(
                    stages,
                    "send_interval"@,
                    report::micros(time::elapsed_nanos(stats.completed_at, previous)),
                ),
                None => stages,
            },
            queue_depth: self.queue_depth.push(stats.network_queue_depth as u64),
            previous_completion: Some(stats.completed_at),
            ..self
        }
    }

    /// What one more frame makes of the tally. Failures and recovery frames enter neither
    /// the stage distributions nor the rates.
    pub open spec fn added(self, stats: &FrameStats, fps: u32) -> Tally {
        if !stats.send_success {
            self.failed()
        } else if stats.capture_path == CapturePath::Reencode {
            let grouped = self.grouped(stats);
            Tally { reencoded_frames: (grouped.reencoded_frames + 1) as u64, ..grouped }
        } else {
            self.grouped(stats).captured(stats, fps)
        }
    }

    /// One more value of a stage.
    pub open spec fn recorded(self, stage: Seq<char>, value: u64) -> Tally {
        Tally { stages: appended(self.stages, stage, value), ..self }
    }

    /// The list of a frame's group has room for its latency.
    pub open spec fn group_has_room(self, stats: &FrameStats) -> bool {
        listed(self.groups, group_of(stats.capture_path, stats.is_key_frame)).len() < u64::MAX
    }

    /// A receipt is given up.
    pub open spec fn given_up(self) -> Tally {
        Tally { incomplete_receipts: (self.incomplete_receipts + 1) as u64, ..self }
    }

    /// The counts that a frame raises have room for it, and so have the lists that it extends.
    pub open spec fn has_room_for(self, stats: &FrameStats, fps: u32) -> bool {
        if !stats.send_success {
            self.failed_frames < u64::MAX
        } else if stats.capture_path == CapturePath::Reencode {
            self.group_has_room(stats) && self.reencoded_frames < u64::MAX
        } else {
            &&& self.group_has_room(stats)
            &&& self.successful_frames < u64::MAX
            &&& self.encoded_bytes + stats.encoded_bytes <= u64::MAX
            &&& self.sent_bytes + stats.sent_bytes <= u64::MAX
            &&& stats.total.nanos > frame_budget_nanos(fps) ==> self.over_budget < u64::MAX
            &&& self.queue_depth.len() < u64::MAX
            &&& forall|stage: Seq<char>| #[trigger]
                report::stage_values(stats).contains_key(stage) ==> self.values_of_stage(
                    stage,
                ).len() < u64::MAX
            &&& self.previous_completion is Some ==> self.values_of_stage("send_interval"@).len()
                < u64::MAX
        }
    }
}

/// The values of each distribution.
spec fn values_of(map: Map<Seq<char>, Distribution>) -> Map<Seq<char>, Seq<u64>> {
    map.map_values(|d: Distribution| d@)
}

spec fn all_well_formed(map: Map<Seq<char>, Distribution>) -> bool {
    forall|name: Seq<char>| #[trigger] map.contains_key(name) ==> map[name].well_formed()
}

/// Accumulates measured frames. Latency and rates cover successful new captures only.
pub struct Accumulator {
    stages: NameMap<Distribution>,
    groups: NameMap<Distribution>,
    queue_depth: Distribution,
    successful_frames: u64,
    failed_frames: u64,
    reencoded_frames: u64,
    over_budget: u64,
    encoded_bytes: u64,
    sent_bytes: u64,
    previous_completion: Option<Instant>,
    incomplete_receipts: u64,
}

impl View for Accumulator {
    type V = Tally;

    closed spec fn view(&self) -> Tally {
        Tally {
            stages: values_of(self.stages@),
            groups: values_of(self.groups@),
            queue_depth: self.queue_depth@,
            successful_frames: self.successful_frames,
            failed_frames: self.failed_frames,
            reencoded_frames: self.reencoded_frames,
            over_budget: self.over_budget,
            encoded_bytes: self.encoded_bytes,
            sent_bytes: self.sent_bytes,
            previous_completion: self.previous_completion,
            incomplete_receipts: self.incomplete_receipts,
        }
    }
}

/// Adds a value to the distribution of a name, which starts empty.
fn append(map: &mut NameMap<Distribution>, name: &str, value: u64)
    requires
        all_well_formed(old(map)@),
        listed(values_of(old(map)@), name@).len() < u64::MAX,
    ensures
        all_well_formed(final(map)@),
        values_of(final(map)@) == appended(values_of(old(map)@), name@, value),
{
    let ghost before = map@;
    let mut distribution: Distribution = match map.remove(name) {
        Some(d) => d,
        None => Distribution::new(),
    };
    distribution.add(value);
    map.insert(name, distribution);
    proof {
        assert(values_of(map@) =~= appended(values_of(before), name@, value));
    }
}

impl Accumulator {
    /// The distributions are well-formed.
    pub closed spec fn well_formed(&self) -> bool {
        &&& all_well_formed(self.stages@)
        &&& all_well_formed(self.groups@)
        &&& self.queue_depth.well_formed()
    }

    /// Nothing accumulated yet.
    pub open spec fn nothing() -> Tally {
        Tally {
            stages: Map::empty(),
            groups: Map::empty(),
            queue_depth: Seq::empty(),
            successful_frames: 0,
            failed_frames: 0,
            reencoded_frames: 0,
            over_budget: 0,
            encoded_bytes: 0,
            sent_bytes: 0,
            previous_completion: None,
            incomplete_receipts: 0,
        }
    }

    pub fn new() -> (r: Accumulator)
        ensures
            r.well_formed(),
            r@ == Accumulator::nothing(),
    {
        let r: Accumulator = Accumulator {
            stages: NameMap::new(),
            groups: NameMap::new(),
            queue_depth: Distribution::new(),
            successful_frames: 0,
            failed_frames: 0,
            reencoded_frames: 0,
            over_budget: 0,
            encoded_bytes: 0,
            sent_bytes: 0,
            previous_completion: None,
            incomplete_receipts: 0,
        };
        proof {
            assert(r@ =~= Accumulator::nothing());
        }
        r
    }

    /// Adds one value of a stage.
    pub fn record(&mut self, stage: &str, value: u64)
        requires
            old(self).well_formed(),
            listed(old(self)@.stages, stage@).len() < u64::MAX,
        ensures
            final(self).well_formed(),
            final(self)@ == old(self)@.recorded(stage@, value),
    {
        append(&mut self.stages, stage, value);
    }

    pub fn successful(&self) -> (r: u64)
        ensures
            r == self@.successful_frames,
    {
        self.successful_frames
    }

    pub fn failed(&self) -> (r: u64)
        ensures
            r == self@.failed_frames,
    {
        self.failed_frames
    }

    /// Counts one frame whose shards have not all come in.
    pub fn give_up_receipt(&mut self)
        requires
            old(self).well_formed(),
            old(self)@.incomplete_receipts < u64::MAX,
        ensures
            final(self).well_formed(),
            final(self)@ == (Tally {
                incomplete_receipts: (old(self)@.incomplete_receipts + 1) as u64,
                ..old(self)@
            }),
            final(self)@ == old(self)@.given_up(),
    {
        self.incomplete_receipts = self.incomplete_receipts + 1;
    }

    /// Accounts for one completed frame of a stream of `fps` frames per second.
    pub fn add(&mut self, stats: &FrameStats, fps: u32)
        requires
            old(self).well_formed(),
            stats.send_success && stats.capture_path != CapturePath::Reencode ==> fps > 0
                && report::measurable(stats),
            old(self)@.has_room_for(stats, fps),
        ensures
            final(self).well_formed(),
            final(self)@ == old(self)@.added(stats, fps),
    {
        let ghost before = self@;
        proof {
            report::lemma_intervals_are_no_stage(stats);
        }
        if !stats.send_success {
            self.failed_frames = self.failed_frames + 1;
            return;
        }
        let group: String = group_name(stats.capture_path, stats.is_key_frame);
        append(&mut self.groups, &group, us(stats.total));
        if stats.capture_path == CapturePath::Reencode {
            self.reencoded_frames = self.reencoded_frames + 1;
            return;
        }
        self.successful_frames = self.successful_frames + 1;
        self.encoded_bytes = self.encoded_bytes + stats.encoded_bytes as u64;
        self.sent_bytes = self.sent_bytes + stats.sent_bytes;
        if stats.total.nanos > frame_budget(fps).nanos {
            self.over_budget = self.over_budget + 1;
        }
        let values: NameMap<u64> = stages(stats);
        self.record_all(&values);
        self.queue_depth.add(stats.network_queue_depth as u64);
        if let Some(previous) = self.previous_completion {
            self.record("send_interval", us(stats.completed_at.duration_since(previous)));
        }
        self.previous_completion = Some(stats.completed_at);
        proof {
            assert(self@ =~= before.added(stats, fps));
        }
    }

    fn record_all(&mut self, values: &NameMap<u64>)
        requires
            old(self).well_formed(),
            forall|name: Seq<char>| #[trigger]
                values@.contains_key(name) ==> old(self)@.values_of_stage(name).len() < u64::MAX,
        ensures
            final(self).well_formed(),
            final(self)@ == (Tally {
                stages: all_appended(old(self)@.stages, values@),
                ..old(self)@
            }),
    {
        let ghost before = self@;
        let n: usize = values.len();
        let mut i: usize = 0;
        while i < n
            invariant
                i <= n,
                n == values.names().len(),
                names::lists(values.names(), values@),
                self.well_formed(),
                before == old(self)@,
                forall|name: Seq<char>| #[trigger]
                    values@.contains_key(name) ==> before.values_of_stage(name).len() < u64::MAX,
                self@ == (Tally { stages: self@.stages, ..before }),
                forall|name: Seq<char>| #[trigger]
                    self@.stages.contains_key(name) <==> before.stages.contains_key(name)
                        || values.names().take(i as int).contains(name),
                forall|name: Seq<char>| #[trigger]
                    self@.stages.contains_key(name) ==> self@.stages[name]
                        == if values.names().take(i as int).contains(name) {
                        listed(before.stages, name).push(values@[name])
                    } else {
                        before.stages[name]
                    },
            decreases n - i,
        {
            let (name, value) = values.at(i);
            let ghost done = values.names().take(i as int);
            let ghost prior = self@.stages;
            proof {
                names::lemma_not_earlier(values.names(), i as int);
                assert(!done.contains(name@));
            }
            self.record(name, *value);
            proof {
                names::lemma_take_next(values.names(), i as int);
            }
            i = i + 1;
        }
        proof {
            assert(values.names().take(n as int) =~= values.names());
            assert(self@.stages =~= all_appended(before.stages, values@));
        }
    }

    /// Whether the counts and lists have room for a frame of a stream of `fps` frames per
    /// second.
    pub fn has_room_for(&self, stats: &FrameStats, fps: u32) -> (r: bool)
        requires
            self.well_formed(),
            stats.send_success && stats.capture_path != CapturePath::Reencode ==> fps > 0
                && report::measurable(stats),
        ensures
            r == self@.has_room_for(stats, fps),
    {
        if !stats.send_success {
            return self.failed_frames < u64::MAX;
        }
        let group: String = group_name(stats.capture_path, stats.is_key_frame);
        if !has_room(&self.groups, &group) {
            return false;
        }
        if stats.capture_path == CapturePath::Reencode {
            return self.reencoded_frames < u64::MAX;
        }
        let values: NameMap<u64> = stages(stats);
        self.successful_frames < u64::MAX && self.encoded_bytes <= u64::MAX
            - stats.encoded_bytes as u64 && self.sent_bytes <= u64::MAX - stats.sent_bytes && (
        stats.total.nanos <= frame_budget(fps).nanos || self.over_budget < u64::MAX)
            && self.queue_depth.count() < u64::MAX && all_have_room(&self.stages, &values) && (
        self.previous_completion.is_none() || has_room(&self.stages, "send_interval"))
    }

    /// What a window of length `elapsed` comes to.
    pub fn summary(&self, elapsed: Duration) -> (r: Summary)
        requires
            self.well_formed(),
        ensures
            r.describes(self@, elapsed),
    {
        Summary {
            measured: elapsed,
            successful_frames: self.successful_frames,
            failed_frames: self.failed_frames,
            reencoded_frames: self.reencoded_frames,
            successful_fps: Rate::per_second(self.successful_frames as u128, elapsed),
            encoded_mbps: Rate::megabits_per_second(self.encoded_bytes, elapsed),
            socket_mbps: Rate::megabits_per_second(self.sent_bytes, elapsed),
            over_frame_budget: self.over_budget,
            incomplete_receipts: self.incomplete_receipts,
            stages_us: summaries(&self.stages),
            host_total_by_path_and_frame_type_us: summaries(&self.groups),
            network_queue_depth_frames: self.queue_depth.summary(),
        }
    }
}

/// Whether the distribution of a name can take one more value.
fn has_room(map: &NameMap<Distribution>, name: &str) -> (r: bool)
    requires
        all_well_formed(map@),
    ensures
        r == (listed(values_of(map@), name@).len() < u64::MAX),
{
    match map.get(name) {
        Some(distribution) => distribution.count() < u64::MAX,
        None => true,
    }
}

/// Whether the distribution of each name can take one more value.
fn all_have_room(map: &NameMap<Distribution>, values: &NameMap<u64>) -> (r: bool)
    requires
        all_well_formed(map@),
    ensures
        r <==> forall|name: Seq<char>| #[trigger]
            values@.contains_key(name) ==> listed(values_of(map@), name).len() < u64::MAX,
{
    let n: usize = values.len();
    let mut i: usize = 0;
    while i < n
        invariant
            i <= n,
            n == values.names().len(),
            names::lists(values.names(), values@),
            all_well_formed(map@),
            forall|k: int|
                0 <= k < i ==> listed(values_of(map@), #[trigger] values.names()[k]).len() < u64::MAX,
        decreases n - i,
    {
        let (name, _value) = values.at(i);
        if !has_room(map, name) {
            return false;
        }
        i = i + 1;
    }
    proof {
        assert forall|name: Seq<char>| #[trigger] values@.contains_key(name) implies listed(
            values_of(map@),
            name,
        ).len() < u64::MAX by {
            assert(values.names()[values.names().index_of(name)] == name);
        }
    }
    true
}

/// A summary for each distribution of the map.
fn summaries(map: &NameMap<Distribution>) -> (r: NameMap<DistributionSummary>)
    requires
        all_well_formed(map@),
    ensures
        sum_up(r@, values_of(map@)),
{
    let mut r: NameMap<DistributionSummary> = NameMap::new();
    let n: usize = map.len();
    let mut i: usize = 0;
    while i < n
        invariant
            i <= n,
            n == map.names().len(),
            names::lists(map.names(), map@),
            all_well_formed(map@),
            forall|name: Seq<char>| #[trigger]
                r@.contains_key(name) <==> map.names().take(i as int).contains(name),
            forall|name: Seq<char>| #[trigger]
                r@.contains_key(name) ==> r@[name].describes(map@[name]@),
        decreases n - i,
    {
        let (name, distribution) = map.at(i);
        r.insert(name, distribution.summary());
        proof {
            names::lemma_take_next(map.names(), i as int);
        }
        i = i + 1;
    }
    proof {
        assert(map.names().take(n as int) =~= map.names());
        assert(r@.dom() =~= values_of(map@).dom());
    }
    r
}

/// Whether there is a summary for each list of values, and no other.
pub open spec fn sum_up(
    summaries: Map<Seq<char>, DistributionSummary>,
    values: Map<Seq<char>, Seq<u64>>,
) -> bool {
    &&& summaries.dom() == values.dom()
    &&& forall|name: Seq<char>| #[trigger]
        values.contains_key(name) ==> summaries[name].describes(values[name])
}

/// An exact rate: a quotient whose denominator is positive.
#[derive(Clone, Copy, Debug, PartialEq, Eq, Structural)]
pub struct Rate {
    pub numerator: u128,
    pub denominator: u128,
}

impl Rate {
    /// `amount` for each second of `elapsed`; zero where no time passed.
    pub open spec fn is_per_second(self, amount: int, elapsed: Duration) -> bool {
        if elapsed.nanos > 0 {
            self.numerator == amount * 1_000_000_000 && self.denominator == elapsed.nanos
        } else {
            self.numerator == 0 && self.denominator == 1
        }
    }

    /// `bytes` in millions of bits for each second of `elapsed`; zero where no time passed.
    pub open spec fn is_megabits_per_second(self, bytes: u64, elapsed: Duration) -> bool {
        if elapsed.nanos > 0 {
            self.numerator == bytes * 8 * 1_000 && self.denominator == elapsed.nanos
        } else {
            self.numerator == 0 && self.denominator == 1
        }
    }

    pub fn per_second(amount: u128, elapsed: Duration) -> (r: Rate)
        requires
            amount * 1_000_000_000 <= u128::MAX,
        ensures
            r.is_per_second(amount as int, elapsed),
    {
        if elapsed.nanos > 0 {
            Rate { numerator: amount * 1_000_000_000, denominator: elapsed.nanos }
        } else {
            Rate { numerator: 0, denominator: 1 }
        }
    }

    pub fn megabits_per_second(bytes: u64, elapsed: Duration) -> (r: Rate)
        ensures
            r.is_megabits_per_second(bytes, elapsed),
    {
        if elapsed.nanos > 0 {
            Rate { numerator: bytes as u128 * 8 * 1_000, denominator: elapsed.nanos }
        } else {
            Rate { numerator: 0, denominator: 1 }
        }
    }
}

/// What a measurement window comes to.
pub struct Summary {
    pub measured: Duration,
    pub successful_frames: u64,
    pub failed_frames: u64,
    pub reencoded_frames: u64,
    pub successful_fps: Rate,
    pub encoded_mbps: Rate,
    pub socket_mbps: Rate,
    pub over_frame_budget: u64,
    pub incomplete_receipts: u64,
    pub stages_us: NameMap<DistributionSummary>,
    pub host_total_by_path_and_frame_type_us: NameMap<DistributionSummary>,
    pub network_queue_depth_frames: DistributionSummary,
}

impl Summary {
    /// Whether this sums up a tally over a window of length `elapsed`.
    pub open spec fn describes(&self, tally: Tally, elapsed: Duration) -> bool {
        &&& self.measured == elapsed
        &&& self.successful_frames == tally.successful_frames
        &&& self.failed_frames == tally.failed_frames
        &&& self.reencoded_frames == tally.reencoded_frames
        &&& self.successful_fps.is_per_second(tally.successful_frames as int, elapsed)
        &&& self.encoded_mbps.is_megabits_per_second(tally.encoded_bytes, elapsed)
        &&& self.socket_mbps.is_megabits_per_second(tally.sent_bytes, elapsed)
        &&& self.over_frame_budget == tally.over_budget
        &&& self.incomplete_receipts == tally.incomplete_receipts
        &&& sum_up(self.stages_us@, tally.stages)
        &&& sum_up(self.host_total_by_path_and_frame_type_us@, tally.groups)
        &&& self.network_queue_depth_frames.describes(tally.queue_depth)
    }
}

/// Failures and recovery frames improve neither latency nor rates: whatever a report derives
/// from new captures stays as it was.
pub proof fn lemma_only_new_captures_count(tally: Tally, stats: &FrameStats, fps: u32)
    requires
        !stats.send_success || stats.capture_path == CapturePath::Reencode,
    ensures
        ({
            let after = tally.added(stats, fps);
            &&& after.stages == tally.stages
            &&& after.queue_depth == tally.queue_depth
            &&& after.successful_frames == tally.successful_frames
            &&& after.encoded_bytes == tally.encoded_bytes
            &&& after.sent_bytes == tally.sent_bytes
            &&& after.over_budget == tally.over_budget
            &&& after.previous_completion == tally.previous_completion
            &&& !stats.send_success ==> after.groups == tally.groups
        }),
{
}

/// What frames, one after another, make of a tally.
pub open spec fn added_all(tally: Tally, frames: Seq<FrameStats>, fps: u32) -> Tally
    decreases frames.len(),
{
    if frames.len() == 0 {
        tally
    } else {
        added_all(tally, frames.drop_last(), fps).added(&frames.last(), fps)
    }
}

/// How many values are listed under each name.
pub open spec fn lengths(map: Map<Seq<char>, Seq<u64>>) -> Map<Seq<char>, nat> {
    map.map_values(|values: Seq<u64>| values.len())
}

/// One more value under a name is one more value in all.
proof fn lemma_appended_length(map: Map<Seq<char>, Seq<u64>>, name: Seq<char>, value: u64)
    requires
        map.dom().finite(),
    ensures
        appended(map, name, value).dom().finite(),
        sums::total(lengths(appended(map, name, value))) == sums::total(lengths(map)) + 1,
{
    assert(lengths(map).dom() =~= map.dom());
    assert(lengths(appended(map, name, value)) =~= lengths(map).insert(
        name,
        listed(map, name).len() + 1,
    ));
    sums::lemma_total_after_insert(lengths(map), name, listed(map, name).len() + 1);
}

/// Every frame is counted exactly once, as successful, failed or re-encoded. Every successful
/// one has its latency and its queue depth listed, and all but the first the time since the one
/// before. Every one that is successful or re-encoded has its latency listed in one group.
pub proof fn lemma_every_frame_is_counted(frames: Seq<FrameStats>, fps: u32)
    requires
        frames.len() <= u64::MAX,
    ensures
        ({
            let tally = added_all(Accumulator::nothing(), frames, fps);
            &&& tally.successful_frames + tally.failed_frames + tally.reencoded_frames
                == frames.len()
            &&& tally.values_of_stage("host_total"@).len() == tally.successful_frames
            &&& tally.queue_depth.len() == tally.successful_frames
            &&& tally.previous_completion is Some <==> tally.successful_frames > 0
            &&& tally.values_of_stage("send_interval"@).len() == if tally.successful_frames > 0 {
                tally.successful_frames - 1
            } else {
                0
            }
            &&& tally.groups.dom().finite()
            &&& sums::total(lengths(tally.groups)) == tally.successful_frames
                + tally.reencoded_frames
            &&& tally.over_budget <= tally.successful_frames
            &&& tally.incomplete_receipts == 0
        }),
    decreases frames.len(),
{
    if frames.len() > 0 {
        lemma_every_frame_is_counted(frames.drop_last(), fps);
        let before = added_all(Accumulator::nothing(), frames.drop_last(), fps);
        reveal_strlit("host_total");
        reveal_strlit("send_interval");
        assert("host_total"@.len() != "send_interval"@.len());
        let stats = frames.last();
        report::lemma_has_host_total(&stats);
        report::lemma_intervals_are_no_stage(&stats);
        lemma_appended_length(
            before.groups,
            group_of(stats.capture_path, stats.is_key_frame),
            report::micros(stats.total.nanos as int),
        );
    } else {
        assert(lengths(Map::empty()) =~= Map::<Seq<char>, nat>::empty());
    }
}

/// How many values each summary is about.
pub open spec fn counts(map: Map<Seq<char>, DistributionSummary>) -> Map<Seq<char>, nat> {
    map.map_values(|summary: DistributionSummary| summary.count as nat)
}

/// How many values the summary of a name is about, none where the name is missing.
pub open spec fn count_of(map: Map<Seq<char>, DistributionSummary>, name: Seq<char>) -> nat {
    if map.contains_key(name) {
        map[name].count as nat
    } else {
        0
    }
}

/// The summary of frames accounts for every one of them.
pub proof fn lemma_summary_accounts_for_every_frame(
    summary: Summary,
    frames: Seq<FrameStats>,
    fps: u32,
    elapsed: Duration,
)
    requires
        frames.len() <= u64::MAX,
        summary.describes(added_all(Accumulator::nothing(), frames, fps), elapsed),
    ensures
        summary.successful_frames + summary.failed_frames + summary.reencoded_frames
            == frames.len(),
        sums::total(counts(summary.host_total_by_path_and_frame_type_us@))
            == summary.successful_frames + summary.reencoded_frames,
        count_of(summary.stages_us@, "host_total"@) == summary.successful_frames,
        summary.network_queue_depth_frames.count == summary.successful_frames,
        count_of(summary.stages_us@, "send_interval"@) == if summary.successful_frames > 0 {
            summary.successful_frames - 1
        } else {
            0
        },
        summary.over_frame_budget <= summary.successful_frames,
{
    let tally = added_all(Accumulator::nothing(), frames, fps);
    lemma_every_frame_is_counted(frames, fps);
    assert(counts(summary.host_total_by_path_and_frame_type_us@) =~= lengths(tally.groups));
}

/// The time that one frame has is as near to its share of a second as whole nanoseconds allow,
/// and of two that are as near, the longer one, but for the three rates that are rounded down.
pub proof fn lemma_frame_budget_is_nearest(fps: u32)
    requires
        fps > 0,
    ensures
        2 * (frame_budget_nanos(fps) * fps - 1_000_000_000) <= fps,
        2 * (1_000_000_000 - frame_budget_nanos(fps) * fps) <= fps,
        2 * (1_000_000_000 - frame_budget_nanos(fps) * fps) == fps ==> fps == 1_024 || fps
            == 16_000_000 || fps == 80_000_000,
        2 * (frame_budget_nanos(fps) * fps - 1_000_000_000) == fps ==> fps != 1_024 && fps
            != 16_000_000 && fps != 80_000_000,
{
    let n: int = fps as int;
    let whole: int = 1_000_000_000int / n;
    let rest: int = 1_000_000_000int % n;
    vstd::arithmetic::div_mod::lemma_fundamental_div_mod(1_000_000_000, n);
    assert(n * whole + rest == 1_000_000_000);
    assert(whole * n == n * whole) by (nonlinear_arith);
    assert((whole + 1) * n == n * whole + n) by (nonlinear_arith);
    assert(0 <= rest < n);
}

/// The group of a frame names how it was captured and what type it is.
pub proof fn lemma_groups_are_named(path: CapturePath, key_frame: bool)
    ensures
        group_of(CapturePath::Composited, true) == "Composited/key"@,
        group_of(CapturePath::Composited, false) == "Composited/inter"@,
        group_of(CapturePath::Direct, true) == "Direct/key"@,
        group_of(CapturePath::Direct, false) == "Direct/inter"@,
        group_of(CapturePath::DirectOverride, true) == "DirectOverride/key"@,
        group_of(CapturePath::DirectOverride, false) == "DirectOverride/inter"@,
        group_of(CapturePath::Reencode, true) == "Reencode/key"@,
        group_of(CapturePath::Reencode, false) == "Reencode/inter"@,
        group_of(path, key_frame) == group_of(path, true) <==> key_frame,
{
    reveal_strlit("/");
    reveal_strlit("key");
    reveal_strlit("inter");
    reveal_strlit("Composited");
    reveal_strlit("Direct");
    reveal_strlit("DirectOverride");
    reveal_strlit("Reencode");
    reveal_strlit("Composited/key");
    reveal_strlit("Composited/inter");
    reveal_strlit("Direct/key");
    reveal_strlit("Direct/inter");
    reveal_strlit("DirectOverride/key");
    reveal_strlit("DirectOverride/inter");
    reveal_strlit("Reencode/key");
    reveal_strlit("Reencode/inter");
    assert(group_of(CapturePath::Composited, true) =~= "Composited/key"@);
    assert(group_of(CapturePath::Composited, false) =~= "Composited/inter"@);
    assert(group_of(CapturePath::Direct, true) =~= "Direct/key"@);
    assert(group_of(CapturePath::Direct, false) =~= "Direct/inter"@);
    assert(group_of(CapturePath::DirectOverride, true) =~= "DirectOverride/key"@);
    assert(group_of(CapturePath::DirectOverride, false) =~= "DirectOverride/inter"@);
    assert(group_of(CapturePath::Reencode, true) =~= "Reencode/key"@);
    assert(group_of(CapturePath::Reencode, false) =~= "Reencode/inter"@);
    assert(group_of(path, true).len() == path_name(path).len() + 4);
    assert(group_of(path, false).len() == path_name(path).len() + 6);
}

/// What a new capture that was sent adds: one frame, its bytes, its queue depth, one value to
/// each of its stages, its latency to its group, the time since the capture before it, and one
/// frame over budget where it took longer than it had.
pub proof fn lemma_what_a_new_capture_adds(tally: Tally, stats: &FrameStats, fps: u32)
    requires
        tally.has_room_for(stats, fps),
        stats.send_success,
        stats.capture_path != CapturePath::Reencode,
    ensures
        ({
            let after = tally.added(stats, fps);
            &&& after.successful_frames == tally.successful_frames + 1
            &&& after.failed_frames == tally.failed_frames
            &&& after.reencoded_frames == tally.reencoded_frames
            &&& after.encoded_bytes == tally.encoded_bytes + stats.encoded_bytes
            &&& after.sent_bytes == tally.sent_bytes + stats.sent_bytes
            &&& after.over_budget == tally.over_budget + if stats.total.nanos > frame_budget_nanos(
                fps,
            ) {
                1int
            } else {
                0
            }
            &&& after.incomplete_receipts == tally.incomplete_receipts
            &&& after.previous_completion == Some(stats.completed_at)
            &&& after.queue_depth.drop_last() == tally.queue_depth
            &&& after.queue_depth.last() == stats.network_queue_depth
        }),
        ({
            let after = tally.added(stats, fps);
            let latencies = after.values_of_stage("host_total"@);
            &&& latencies.drop_last() == tally.values_of_stage("host_total"@)
            &&& 1_000 * latencies.last() <= stats.total.nanos
            &&& latencies.last() < u64::MAX ==> stats.total.nanos < 1_000 * latencies.last() + 1_000
            &&& forall|stage: Seq<char>| #[trigger]
                report::stage_values(stats).contains_key(stage) ==> after.values_of_stage(stage)
                    == tally.values_of_stage(stage).push(report::stage_values(stats)[stage])
            &&& forall|stage: Seq<char>|
                stage != "send_interval"@ && !report::stage_values(stats).contains_key(stage)
                    ==> #[trigger] after.values_of_stage(stage) == tally.values_of_stage(stage)
        }),
        ({
            let after = tally.added(stats, fps).values_of_stage("send_interval"@);
            let before = tally.values_of_stage("send_interval"@);
            match tally.previous_completion {
                Some(previous) => {
                    &&& after.drop_last() == before
                    &&& previous.nanos <= stats.completed_at.nanos ==> 1_000 * after.last()
                        <= stats.completed_at.nanos - previous.nanos && (after.last() < u64::MAX
                        ==> stats.completed_at.nanos - previous.nanos < 1_000 * after.last() + 1_000)
                    &&& stats.completed_at.nanos <= previous.nanos ==> after.last() == 0
                },
                None => after == before,
            }
        }),
{
    reveal_strlit("host_total");
    reveal_strlit("send_interval");
    assert("host_total"@.len() != "send_interval"@.len());
    report::lemma_has_host_total(stats);
    report::lemma_intervals_are_no_stage(stats);
    report::lemma_stages_by_name(stats);
    let after = tally.added(stats, fps);
    assert(after.queue_depth.drop_last() =~= tally.queue_depth);
    assert(after.values_of_stage("host_total"@).drop_last() =~= tally.values_of_stage(
        "host_total"@,
    ));
    if tally.previous_completion is Some {
        assert(after.values_of_stage("send_interval"@).drop_last() =~= tally.values_of_stage(
            "send_interval"@,
        ));
    }
}

/// What becomes of other frames: a failed send is counted as failed, and nothing more. A second
/// encoding of an old image that was sent is counted as such.
pub proof fn lemma_what_other_frames_add(tally: Tally, stats: &FrameStats, fps: u32)
    requires
        tally.has_room_for(stats, fps),
    ensures
        !stats.send_success ==> tally.added(stats, fps) == (Tally {
            failed_frames: (tally.failed_frames + 1) as u64,
            ..tally
        }) && tally.added(stats, fps).failed_frames == tally.failed_frames + 1,
        stats.send_success && stats.capture_path == CapturePath::Reencode ==> tally.added(
            stats,
            fps,
        ).reencoded_frames == tally.reencoded_frames + 1 && tally.added(stats, fps).failed_frames
            == tally.failed_frames,
{
}

/// Every frame that was sent, captured anew or not, has its latency listed under how it was
/// captured and what type it is, and under nothing else.
pub proof fn lemma_latency_is_grouped(tally: Tally, stats: &FrameStats, fps: u32, other: Seq<char>)
    requires
        stats.send_success,
        other != group_of(stats.capture_path, stats.is_key_frame),
    ensures
        ({
            let after = listed(
                tally.added(stats, fps).groups,
                group_of(stats.capture_path, stats.is_key_frame),
            );
            &&& after.drop_last() == listed(
                tally.groups,
                group_of(stats.capture_path, stats.is_key_frame),
            )
            &&& 1_000 * after.last() <= stats.total.nanos
            &&& after.last() < u64::MAX ==> stats.total.nanos < 1_000 * after.last() + 1_000
            &&& listed(tally.added(stats, fps).groups, other) == listed(tally.groups, other)
        }),
{
    let group = group_of(stats.capture_path, stats.is_key_frame);
    assert(listed(tally.added(stats, fps).groups, group).drop_last() =~= listed(tally.groups, group));
}

/// What a summary reports is what was counted: a rate, multiplied by the length of the window,
/// gives the amount back, in frames and in millions of bits, and over no time every rate is
/// zero.
pub proof fn lemma_rates_give_the_amounts_back(summary: Summary, tally: Tally, elapsed: Duration)
    requires
        summary.describes(tally, elapsed),
    ensures
        summary.successful_fps.denominator > 0,
        summary.encoded_mbps.denominator > 0,
        summary.socket_mbps.denominator > 0,
        elapsed.nanos > 0 ==> summary.successful_fps.numerator * elapsed.nanos
            == tally.successful_frames * 1_000_000_000 * summary.successful_fps.denominator,
        elapsed.nanos > 0 ==> summary.encoded_mbps.numerator * 1_000_000 * elapsed.nanos
            == tally.encoded_bytes * 8 * 1_000_000_000 * summary.encoded_mbps.denominator,
        elapsed.nanos > 0 ==> summary.socket_mbps.numerator * 1_000_000 * elapsed.nanos
            == tally.sent_bytes * 8 * 1_000_000_000 * summary.socket_mbps.denominator,
        elapsed.nanos == 0 ==> summary.successful_fps.numerator == 0
            && summary.encoded_mbps.numerator == 0 && summary.socket_mbps.numerator == 0,
        summary.measured == elapsed,
{
    if elapsed.nanos > 0 {
        let nanos = elapsed.nanos as int;
        assert((tally.encoded_bytes * 8 * 1_000) * 1_000_000 * nanos == tally.encoded_bytes * 8
            * 1_000_000_000 * nanos) by (nonlinear_arith);
        assert((tally.sent_bytes * 8 * 1_000) * 1_000_000 * nanos == tally.sent_bytes * 8
            * 1_000_000_000 * nanos) by (nonlinear_arith);
    }
}

/// Every list of values has a summary under its own name, and no other name has one: that of a
/// stage among the stages, that of a group among the groups.
pub proof fn lemma_every_list_is_summed_up(
    summary: Summary,
    tally: Tally,
    elapsed: Duration,
    name: Seq<char>,
)
    requires
        summary.describes(tally, elapsed),
    ensures
        summary.stages_us@.contains_key(name) <==> tally.stages.contains_key(name),
        summary.host_total_by_path_and_frame_type_us@.contains_key(name)
            <==> tally.groups.contains_key(name),
        tally.stages.contains_key(name) ==> summary.stages_us@[name].count
            == tally.stages[name].len() && summary.stages_us@[name].sum
            == crate::distribution::total(tally.stages[name]),
        tally.groups.contains_key(name) ==> summary.host_total_by_path_and_frame_type_us@[name].count
            == tally.groups[name].len() && summary.host_total_by_path_and_frame_type_us@[name].sum
            == crate::distribution::total(tally.groups[name]),
        summary.network_queue_depth_frames.count == tally.queue_depth.len(),
        summary.network_queue_depth_frames.sum == crate::distribution::total(tally.queue_depth),
        summary.incomplete_receipts == tally.incomplete_receipts,
        summary.failed_frames == tally.failed_frames,
        summary.over_frame_budget == tally.over_budget,
{
    assert(summary.stages_us@.contains_key(name) == summary.stages_us@.dom().contains(name));
    assert(summary.host_total_by_path_and_frame_type_us@.contains_key(name)
        == summary.host_total_by_path_and_frame_type_us@.dom().contains(name));
}

/// Room is denied to a frame only where a count or a list is at the end of its range.
pub proof fn lemma_there_is_room_before_the_end(tally: Tally, stats: &FrameStats, fps: u32)
    requires
        tally.successful_frames < u64::MAX,
        tally.failed_frames < u64::MAX,
        tally.reencoded_frames < u64::MAX,
        tally.over_budget < u64::MAX,
        tally.encoded_bytes + stats.encoded_bytes <= u64::MAX,
        tally.sent_bytes + stats.sent_bytes <= u64::MAX,
        tally.queue_depth.len() < u64::MAX,
        forall|stage: Seq<char>| #[trigger] tally.values_of_stage(stage).len() < u64::MAX,
        forall|group: Seq<char>| #[trigger] listed(tally.groups, group).len() < u64::MAX,
    ensures
        tally.has_room_for(stats, fps),
{
}

/// A receipt that is given up is counted, and touches neither frames nor times nor amounts.
pub proof fn lemma_given_up_receipts_are_counted(tally: Tally, stage: Seq<char>)
    requires
        tally.incomplete_receipts < u64::MAX,
    ensures
        tally.given_up().incomplete_receipts == tally.incomplete_receipts + 1,
        tally.given_up().values_of_stage(stage) == tally.values_of_stage(stage),
        tally.given_up().successful_frames == tally.successful_frames,
        tally.given_up().failed_frames == tally.failed_frames,
        tally.given_up().reencoded_frames == tally.reencoded_frames,
        tally.given_up().over_budget == tally.over_budget,
        tally.given_up().encoded_bytes == tally.encoded_bytes,
        tally.given_up().sent_bytes == tally.sent_bytes,
        tally.given_up().previous_completion == tally.previous_completion,
{
}

} // verus!
