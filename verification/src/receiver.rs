//! Loopback observation of the emitted shards. This checks that every shard of a frame is
//! received; it is not a decoder or client.

use crate::net::Address;
use crate::sums;
use crate::time::{self, Duration, Instant};
use std::collections::{BTreeMap, HashSet};
use vstd::prelude::*;

verus! {

broadcast use {
    vstd::std_specs::btree::group_btree_axioms,
    vstd::std_specs::hash::group_hash_axioms,
};

/// Frames that are kept at most, even if nobody asks for them.
pub const MAX_FRAMES: usize = 1024;

/// Bytes before the payload of a video datagram: RTP header (12), padding (4), stream packet
/// index (4), frame index (4), rest of the video header (8).
pub const HEADER_BYTES: usize = 32;

/// The first byte of every video datagram.
pub const RTP_MARK: u8 = 0x90;

/// When the shards of a frame arrived, and which.
#[verifier::ext_equal]
pub ghost struct Arrival {
    pub first: Instant,
    pub last: Instant,
    pub indices: Set<u32>,
}

/// The shards of one frame that have arrived.
pub struct Receipt {
    pub first: Instant,
    pub last: Instant,
    pub indices: HashSet<u32>,
}

impl View for Receipt {
    type V = Arrival;

    open spec fn view(&self) -> Arrival {
        Arrival { first: self.first, last: self.last, indices: self.indices@ }
    }
}

impl Receipt {
    /// The number of different shards that have arrived.
    pub fn shards(&self) -> (r: usize)
        ensures
            r == self@.indices.len(),
    {
        self.indices.len()
    }

    /// When the first shard arrived.
    pub fn first(&self) -> (r: Instant)
        ensures
            r == self@.first,
    {
        self.first
    }

    /// When the last shard that was not a duplicate arrived.
    pub fn last(&self) -> (r: Instant)
        ensures
            r == self@.last,
    {
        self.last
    }
}

#[derive(Clone, Copy, Debug, PartialEq, Eq, Structural)]
pub struct ReceiverCounters {
    pub datagrams: u64,
    pub bytes: u64,
    pub duplicates: u64,
    pub malformed: u64,
    pub evicted_frames: u64,
    pub errors: u64,
}

/// Four bytes, the least significant first.
pub open spec fn little_endian(bytes: Seq<u8>, at: int) -> u32 {
    (bytes[at] + 0x100 * bytes[at + 1] + 0x1_0000 * bytes[at + 2] + 0x100_0000 * bytes[at + 3]) as u32
}

fn read_little_endian(bytes: &[u8], at: usize) -> (r: u32)
    requires
        at + 4 <= bytes@.len(),
    ensures
        r == little_endian(bytes@, at as int),
{
    bytes[at] as u32 + 0x100 * bytes[at + 1] as u32 + 0x1_0000 * bytes[at + 2] as u32 + 0x100_0000
        * bytes[at + 3] as u32
}

/// Whether a datagram cannot be a shard of the video stream.
pub open spec fn is_malformed(bytes: Seq<u8>) -> bool {
    bytes.len() < HEADER_BYTES || bytes[0] != RTP_MARK
}

/// The frame that a shard belongs to.
pub open spec fn frame_index(bytes: Seq<u8>) -> u32 {
    little_endian(bytes, 20)
}

/// The index of a shard in the stream.
pub open spec fn packet_index(bytes: Seq<u8>) -> u32 {
    little_endian(bytes, 16)
}

/// The lowest frame.
pub open spec fn oldest(frames: Map<u32, Arrival>) -> u32 {
    choose|k: u32|
        #![trigger frames.contains_key(k)]
        frames.contains_key(k) && forall|o: u32| #[trigger] frames.contains_key(o) ==> k <= o
}

/// A datagram, and when it came in.
pub ghost struct Datagram {
    pub bytes: Seq<u8>,
    pub at: Instant,
}

/// What has been received.
#[verifier::ext_equal]
pub ghost struct Received {
    pub frames: Map<u32, Arrival>,
    pub counters: ReceiverCounters,
}

impl Received {
    /// No more frames are kept than there is room for, and of each at least one shard has
    /// arrived.
    pub open spec fn well_formed(self) -> bool {
        &&& self.frames.dom().finite()
        &&& self.frames.len() <= MAX_FRAMES
        &&& forall|frame: u32| #[trigger]
            self.frames.contains_key(frame) ==> self.frames[frame].indices.finite()
                && self.frames[frame].indices.len() > 0
    }

    /// A frame's arrival once a shard has come in; a duplicate changes nothing.
    pub open spec fn arrival(self, frame: u32, index: u32, at: Instant) -> Arrival {
        if !self.frames.contains_key(frame) {
            Arrival { first: at, last: at, indices: set![index] }
        } else if self.frames[frame].indices.contains(index) {
            self.frames[frame]
        } else {
            Arrival {
                first: self.frames[frame].first,
                last: at,
                indices: self.frames[frame].indices.insert(index),
            }
        }
    }

    pub open spec fn is_duplicate(self, frame: u32, index: u32) -> bool {
        self.frames.contains_key(frame) && self.frames[frame].indices.contains(index)
    }

    /// What one more datagram makes of it.
    pub open spec fn recorded(self, bytes: Seq<u8>, at: Instant) -> Received {
        let counted = ReceiverCounters {
            datagrams: (self.counters.datagrams + 1) as u64,
            bytes: (self.counters.bytes + bytes.len()) as u64,
            ..self.counters
        };
        if is_malformed(bytes) {
            Received {
                counters: ReceiverCounters { malformed: (counted.malformed + 1) as u64, ..counted },
                ..self
            }
        } else {
            let frame = frame_index(bytes);
            let index = packet_index(bytes);
            let frames = self.frames.insert(frame, self.arrival(frame, index, at));
            let duplicates = if self.is_duplicate(frame, index) {
                (counted.duplicates + 1) as u64
            } else {
                counted.duplicates
            };
            if self.evicts(bytes) {
                Received {
                    frames: frames.remove(oldest(frames)),
                    counters: ReceiverCounters {
                        duplicates,
                        evicted_frames: (counted.evicted_frames + 1) as u64,
                        ..counted
                    },
                }
            } else {
                Received { frames, counters: ReceiverCounters { duplicates, ..counted } }
            }
        }
    }

    /// One more socket error.
    pub open spec fn with_error(self) -> Received {
        Received {
            counters: ReceiverCounters { errors: (self.counters.errors + 1) as u64, ..self.counters },
            ..self
        }
    }

    /// What an attempt to receive or to send makes of it, that met with an error or not.
    pub open spec fn attempted(self, error: bool) -> Received {
        if error {
            self.with_error()
        } else {
            self
        }
    }

    /// Whether every shard of a frame that was sent as `expected` datagrams has arrived.
    pub open spec fn is_complete(self, frame: u32, expected: u64) -> bool {
        self.frames.contains_key(frame) && self.frames[frame].indices.len() == expected
    }

    /// What is left when a frame is forgotten.
    pub open spec fn without(self, frame: u32) -> Received {
        Received { frames: self.frames.remove(frame), ..self }
    }

    /// What a request for a frame that was sent as `expected` datagrams leaves.
    pub open spec fn asked_for(self, frame: u32, expected: u64) -> Received {
        if self.is_complete(frame, expected) {
            self.without(frame)
        } else {
            self
        }
    }

    /// Whether a shard leaves more frames than are kept, so that one has to go.
    pub open spec fn evicts(self, bytes: Seq<u8>) -> bool {
        self.frames.dom().insert(frame_index(bytes)).len() > MAX_FRAMES
    }

    /// Whether the counters that a datagram raises have room for it.
    pub open spec fn has_room_for(self, bytes: Seq<u8>) -> bool {
        &&& self.counters.datagrams < u64::MAX
        &&& self.counters.bytes + bytes.len() <= u64::MAX
        &&& if is_malformed(bytes) {
            self.counters.malformed < u64::MAX
        } else {
            &&& self.is_duplicate(frame_index(bytes), packet_index(bytes))
                ==> self.counters.duplicates < u64::MAX
            &&& self.evicts(bytes) ==> self.counters.evicted_frames < u64::MAX
        }
    }

    /// Nothing received yet.
    pub open spec fn nothing() -> Received {
        Received {
            frames: Map::empty(),
            counters: ReceiverCounters {
                datagrams: 0,
                bytes: 0,
                duplicates: 0,
                malformed: 0,
                evicted_frames: 0,
                errors: 0,
            },
        }
    }

    /// What datagrams, one after another, make of it.
    pub open spec fn recorded_all(self, row: Seq<Datagram>) -> Received
        decreases row.len(),
    {
        if row.len() == 0 {
            self
        } else {
            self.recorded_all(row.drop_last()).recorded(row.last().bytes, row.last().at)
        }
    }

    /// How many shards of each frame have arrived.
    pub open spec fn shard_counts(self) -> Map<u32, nat> {
        self.frames.map_values(|arrival: Arrival| arrival.indices.len())
    }
}

/// What a receiver has seen.
pub struct State {
    frames: BTreeMap<u32, Receipt>,
    counters: ReceiverCounters,
}

spec fn arrivals(frames: Map<u32, Receipt>) -> Map<u32, Arrival> {
    frames.map_values(|r: Receipt| r@)
}

impl View for State {
    type V = Received;

    closed spec fn view(&self) -> Received {
        Received { frames: arrivals(self.frames@), counters: self.counters }
    }
}

/// The lowest key of a map that is not empty.
fn lowest_key(frames: &BTreeMap<u32, Receipt>) -> (r: u32)
    requires
        frames@.len() > 0,
    ensures
        frames@.contains_key(r),
        forall|o: u32| #[trigger] frames@.contains_key(o) ==> r <= o,
{
    let mut best: Option<u32> = None;
    for key in it: frames.keys()
        invariant
            it.seq().unref().to_set() == frames@.dom(),
            it.index() == 0 <==> best is None,
            best matches Some(b) ==> frames@.contains_key(b) && forall|i: int|
                0 <= i < it.index() ==> b <= *#[trigger] it.seq()[i],
    {
        proof {
            assert(it.seq().unref().to_set().contains(*key)) by {
                assert(it.seq().unref()[it.index() as int] == *key);
            }
        }
        best = match best {
            Some(b) => if b <= *key {
                Some(b)
            } else {
                Some(*key)
            },
            None => Some(*key),
        };
    }
    best.unwrap()
}

impl State {
    pub fn new() -> (r: State)
        ensures
            r@ == Received::nothing(),
            r@.well_formed(),
    {
        let r: State = State {
            frames: BTreeMap::new(),
            counters: ReceiverCounters {
                datagrams: 0,
                bytes: 0,
                duplicates: 0,
                malformed: 0,
                evicted_frames: 0,
                errors: 0,
            },
        };
        proof {
            assert(r@.frames =~= Map::<u32, Arrival>::empty());
        }
        r
    }

    /// Takes note of one datagram.
    pub fn record(&mut self, bytes: &[u8], at: Instant)
        requires
            old(self)@.has_room_for(bytes@),
        ensures
            final(self)@ == old(self)@.recorded(bytes@, at),
            old(self)@.well_formed() ==> final(self)@.well_formed(),
    {
        let ghost before = self@;
        proof {
            if before.well_formed() {
                lemma_recording_stays_well_formed(before, bytes@, at);
            }
        }
        self.counters.datagrams = self.counters.datagrams + 1;
        self.counters.bytes = self.counters.bytes + bytes.len() as u64;
        if bytes.len() < HEADER_BYTES || bytes[0] != RTP_MARK {
            self.counters.malformed = self.counters.malformed + 1;
            return;
        }
        let frame: u32 = read_little_endian(bytes, 20);
        let index: u32 = read_little_endian(bytes, 16);
        let mut receipt: Receipt = match self.frames.remove(&frame) {
            Some(r) => r,
            None => Receipt { first: at, last: at, indices: HashSet::new() },
        };
        if receipt.indices.insert(index) {
            receipt.last = at;
        } else {
            self.counters.duplicates = self.counters.duplicates + 1;
        }
        let ghost joined = before.frames.insert(frame, before.arrival(frame, index, at));
        proof {
            assert(receipt@ =~= before.arrival(frame, index, at));
        }
        self.frames.insert(frame, receipt);
        proof {
            assert(arrivals(self.frames@) =~= joined);
            assert(joined.dom() =~= self.frames@.dom());
        }
        // Bound memory if nobody asks for the frames or they never complete.
        if self.frames.len() > MAX_FRAMES {
            let lowest: u32 = lowest_key(&self.frames);
            self.frames.remove(&lowest);
            self.counters.evicted_frames = self.counters.evicted_frames + 1;
            proof {
                assert(joined.contains_key(lowest));
                assert(forall|o: u32| #[trigger] joined.contains_key(o) ==> lowest <= o);
                assert(oldest(joined) == lowest);
                assert(arrivals(self.frames@) =~= joined.remove(lowest));
            }
        }
        proof {
            assert(self@ =~= before.recorded(bytes@, at));
        }
    }

    /// Hands out a frame of which every shard has arrived.
    pub fn take_complete(&mut self, frame: u32, expected: u64) -> (r: Option<Receipt>)
        ensures
            final(self)@.counters == old(self)@.counters,
            if old(self)@.is_complete(frame, expected) {
                &&& r matches Some(receipt)
                &&& receipt@ == old(self)@.frames[frame]
                &&& final(self)@.frames == old(self)@.frames.remove(frame)
            } else {
                r is None && final(self)@ == old(self)@
            },
            old(self)@.well_formed() ==> final(self)@.well_formed(),
            old(self)@.well_formed() && expected == 0 ==> r is None,
            final(self)@ == old(self)@.asked_for(frame, expected),
            r is Some <==> old(self)@.is_complete(frame, expected),
    {
        let ghost before = self@;
        let complete: bool = match self.frames.get(&frame) {
            Some(r) => r.indices.len() as u64 == expected,
            None => false,
        };
        if complete {
            let r: Option<Receipt> = self.frames.remove(&frame);
            proof {
                assert(self@.frames =~= before.frames.remove(frame));
                if before.well_formed() {
                    lemma_forgetting_stays_well_formed(before, frame);
                }
            }
            r
        } else {
            None
        }
    }

    /// Forgets a frame.
    pub fn discard(&mut self, frame: u32)
        ensures
            final(self)@.counters == old(self)@.counters,
            final(self)@.frames == old(self)@.frames.remove(frame),
            old(self)@.well_formed() ==> final(self)@.well_formed(),
            final(self)@ == old(self)@.without(frame),
    {
        let ghost before = self@;
        self.frames.remove(&frame);
        proof {
            assert(self@.frames =~= before.frames.remove(frame));
            if before.well_formed() {
                lemma_forgetting_stays_well_formed(before, frame);
            }
        }
    }

    fn count_error(&mut self)
        requires
            old(self)@.counters.errors < u64::MAX,
        ensures
            final(self)@ == old(self)@.with_error(),
    {
        self.counters.errors = self.counters.errors + 1;
    }

    /// Whether the counters that a datagram raises have room for it.
    pub fn has_room_for(&self, bytes: &[u8]) -> (r: bool)
        ensures
            r == self@.has_room_for(bytes@),
    {
        let c: ReceiverCounters = self.counters;
        if c.datagrams == u64::MAX || c.bytes > u64::MAX - bytes.len() as u64 {
            return false;
        }
        if bytes.len() < HEADER_BYTES || bytes[0] != RTP_MARK {
            return c.malformed < u64::MAX;
        }
        let frame: u32 = read_little_endian(bytes, 20);
        let index: u32 = read_little_endian(bytes, 16);
        proof {
            assert(arrivals(self.frames@).dom() =~= self.frames@.dom());
        }
        match self.frames.get(&frame) {
            Some(receipt) => {
                proof {
                    assert(self@.frames.dom().insert(frame) =~= self@.frames.dom());
                }
                (!receipt.indices.contains(&index) || c.duplicates < u64::MAX) && (
                self.frames.len() <= MAX_FRAMES || c.evicted_frames < u64::MAX)
            },
            None => self.frames.len() < MAX_FRAMES || c.evicted_frames < u64::MAX,
        }
    }

    pub fn counters(&self) -> (r: ReceiverCounters)
        ensures
            r == self@.counters,
    {
        self.counters
    }

    /// What has arrived of a frame.
    pub fn receipt(&self, frame: u32) -> (r: Option<&Receipt>)
        ensures
            match r {
                Some(receipt) => self@.frames.contains_key(frame) && receipt@
                    == self@.frames[frame],
                None => !self@.frames.contains_key(frame),
            },
    {
        self.frames.get(&frame)
    }
}

/// Forgetting a frame keeps the bounds of what was received.
pub proof fn lemma_forgetting_stays_well_formed(received: Received, frame: u32)
    requires
        received.well_formed(),
    ensures
        (Received { frames: received.frames.remove(frame), ..received }).well_formed(),
{
    assert(received.frames.remove(frame).dom() =~= received.frames.dom().remove(frame));
}

/// Recording a datagram keeps the bounds of what was received.
pub proof fn lemma_recording_stays_well_formed(received: Received, bytes: Seq<u8>, at: Instant)
    requires
        received.well_formed(),
    ensures
        received.recorded(bytes, at).well_formed(),
{
    lemma_memory_is_bounded(received, bytes, at);
    if !is_malformed(bytes) {
        let frame = frame_index(bytes);
        let index = packet_index(bytes);
        let arrival = received.arrival(frame, index, at);
        assert(arrival.indices.contains(index));
        assert(arrival.indices.finite() && arrival.indices.len() > 0);
    }
}

/// A frame of which no shard is expected is never complete.
pub proof fn lemma_no_shards_are_never_complete(received: Received, frame: u32)
    requires
        received.well_formed(),
    ensures
        !received.is_complete(frame, 0),
{
}

/// What recording a shard does. The frames stay within their bound: one is evicted exactly if
/// the shard begins a frame while there is no room, and it is the lowest of all, which can be
/// the new one. Every other frame stays as it is. The shard's own frame, if it is kept, has the
/// shard besides those that it had; its first arrival stands, and its last moves only for a
/// shard that is new to it.
pub proof fn lemma_what_recording_a_shard_does(received: Received, bytes: Seq<u8>, at: Instant)
    requires
        received.well_formed(),
        !is_malformed(bytes),
        received.evicts(bytes) ==> received.counters.evicted_frames < u64::MAX,
    ensures
        ({
            let frame = frame_index(bytes);
            let index = packet_index(bytes);
            let known = received.frames.contains_key(frame);
            let after = received.recorded(bytes, at);
            let evicts = !known && received.frames.len() == MAX_FRAMES;
            let all = received.frames.dom().insert(frame);
            &&& after.well_formed()
            &&& after.counters.evicted_frames == received.counters.evicted_frames + if evicts {
                1int
            } else {
                0
            }
            &&& !evicts ==> after.frames.dom() == all
            &&& evicts ==> exists|lowest: u32|
                #![trigger all.contains(lowest)]
                all.contains(lowest) && after.frames.dom() == all.remove(lowest) && forall|o: u32| #[trigger]
                    all.contains(o) ==> lowest <= o
            &&& forall|o: u32|
                o != frame && #[trigger] after.frames.contains_key(o) ==> after.frames[o]
                    == received.frames[o]
            &&& after.frames.contains_key(frame) ==> after.frames[frame] == if !known {
                Arrival { first: at, last: at, indices: set![index] }
            } else {
                Arrival {
                    first: received.frames[frame].first,
                    last: if received.frames[frame].indices.contains(index) {
                        received.frames[frame].last
                    } else {
                        at
                    },
                    indices: received.frames[frame].indices.insert(index),
                }
            }
        }),
{
    let frame = frame_index(bytes);
    let index = packet_index(bytes);
    let known = received.frames.contains_key(frame);
    let joined = received.frames.insert(frame, received.arrival(frame, index, at));
    let all = received.frames.dom().insert(frame);
    lemma_recording_stays_well_formed(received, bytes, at);
    assert(joined.dom() =~= all);
    if received.is_duplicate(frame, index) {
        assert(received.frames[frame].indices.insert(index) =~= received.frames[frame].indices);
    }
    if joined.len() > MAX_FRAMES {
        lemma_oldest(joined);
        let lowest = oldest(joined);
        assert(joined.remove(lowest).dom() =~= all.remove(lowest));
        assert(all.contains(lowest));
        assert forall|o: u32| #[trigger] all.contains(o) implies lowest <= o by {
            assert(joined.contains_key(o));
        }
    }
}

/// What one more datagram makes of the count of all shards: one that is new to its frame adds
/// one, unless a frame has to go.
proof fn lemma_new_shards_are_kept(received: Received, bytes: Seq<u8>, at: Instant)
    requires
        received.well_formed(),
    ensures
        ({
            let after = sums::total(received.recorded(bytes, at).shard_counts());
            let sum = sums::total(received.shard_counts()) + if is_malformed(bytes)
                || received.is_duplicate(frame_index(bytes), packet_index(bytes)) {
                0nat
            } else {
                1
            };
            after <= sum && (is_malformed(bytes) || !received.evicts(bytes) ==> after == sum)
        }),
{
    let counts = received.shard_counts();
    assert(counts.dom() =~= received.frames.dom());
    if !is_malformed(bytes) {
        let frame = frame_index(bytes);
        let arrival = received.arrival(frame, packet_index(bytes), at);
        let joined = Received { frames: received.frames.insert(frame, arrival), ..received };
        sums::lemma_total_after_insert(counts, frame, arrival.indices.len());
        assert(joined.shard_counts() =~= counts.insert(frame, arrival.indices.len()));
        if !received.frames.contains_key(frame) {
            assert(arrival.indices =~= Set::<u32>::empty().insert(packet_index(bytes)));
        }
        if received.evicts(bytes) {
            assert(joined.frames.dom() =~= received.frames.dom().insert(frame));
            lemma_oldest(joined.frames);
            let lowest = oldest(joined.frames);
            let after = received.recorded(bytes, at);
            sums::lemma_total_splits(joined.shard_counts(), lowest);
            assert(after.shard_counts() =~= joined.shard_counts().remove(lowest));
        } else {
            assert(received.recorded(bytes, at).frames == joined.frames);
            assert(received.recorded(bytes, at).shard_counts() =~= joined.shard_counts());
        }
    } else {
        assert(received.recorded(bytes, at).shard_counts() =~= counts);
    }
}

/// Every datagram is accounted for: it is malformed, a duplicate, or a shard that its frame
/// keeps, as long as no frame was evicted. Evicted frames only lose shards.
pub proof fn lemma_every_datagram_is_accounted_for(row: Seq<Datagram>)
    requires
        row.len() <= u64::MAX,
    ensures
        ({
            let after = Received::nothing().recorded_all(row);
            let counted = after.counters.malformed + after.counters.duplicates + sums::total(
                after.shard_counts(),
            );
            &&& after.well_formed()
            &&& after.counters.datagrams == row.len()
            &&& counted <= after.counters.datagrams
            &&& after.counters.evicted_frames == 0 ==> counted == after.counters.datagrams
            &&& after.counters.evicted_frames <= row.len()
        }),
    decreases row.len(),
{
    if row.len() == 0 {
        assert(Received::nothing().shard_counts() =~= Map::<u32, nat>::empty());
    } else {
        let rest = row.drop_last();
        let before = Received::nothing().recorded_all(rest);
        let Datagram { bytes, at } = row.last();
        lemma_every_datagram_is_accounted_for(rest);
        lemma_new_shards_are_kept(before, bytes, at);
        lemma_recording_stays_well_formed(before, bytes, at);
    }
}

/// A memory bound: no more than `MAX_FRAMES` frames are ever kept.
pub proof fn lemma_memory_is_bounded(received: Received, bytes: Seq<u8>, at: Instant)
    requires
        received.frames.dom().finite(),
        received.frames.len() <= MAX_FRAMES,
    ensures
        received.recorded(bytes, at).frames.dom().finite(),
        received.recorded(bytes, at).frames.len() <= MAX_FRAMES,
{
    if !is_malformed(bytes) {
        let frame = frame_index(bytes);
        let frames = received.frames.insert(
            frame,
            received.arrival(frame, packet_index(bytes), at),
        );
        assert(frames.dom() =~= received.frames.dom().insert(frame));
        if frames.len() > MAX_FRAMES {
            lemma_oldest(frames);
            assert(frames.remove(oldest(frames)).dom() =~= frames.dom().remove(oldest(frames)));
        }
    }
}

/// Only the lowest frame is ever dropped for want of room.
pub proof fn lemma_oldest(frames: Map<u32, Arrival>)
    requires
        frames.dom().finite(),
        frames.len() > 0,
    ensures
        frames.contains_key(oldest(frames)),
        forall|o: u32| #[trigger] frames.contains_key(o) ==> oldest(frames) <= o,
{
    let k = lemma_lowest_exists(frames.dom());
    assert(frames.contains_key(k));
    assert forall|o: u32| #[trigger] frames.contains_key(o) implies k <= o by {}
}

proof fn lemma_lowest_exists(keys: Set<u32>) -> (k: u32)
    requires
        keys.finite(),
        keys.len() > 0,
    ensures
        keys.contains(k),
        forall|o: u32| #[trigger] keys.contains(o) ==> k <= o,
    decreases keys.len(),
{
    let some = keys.choose();
    let rest = keys.remove(some);
    if rest.len() == 0 {
        assert forall|o: u32| #[trigger] keys.contains(o) implies some <= o by {
            if o != some {
                assert(rest.contains(o));
                assert(rest.len() > 0);
            }
        }
        some
    } else {
        let k = lemma_lowest_exists(rest);
        let best = if some <= k {
            some
        } else {
            k
        };
        assert forall|o: u32| #[trigger] keys.contains(o) implies best <= o by {
            if o != some {
                assert(rest.contains(o));
            }
        }
        best
    }
}

/// A duplicate shard changes neither what has arrived of its frame nor when.
pub proof fn lemma_duplicates_change_no_arrival(received: Received, bytes: Seq<u8>, at: Instant)
    requires
        received.frames.dom().finite(),
        received.frames.len() <= MAX_FRAMES,
        !is_malformed(bytes),
        received.is_duplicate(frame_index(bytes), packet_index(bytes)),
    ensures
        received.recorded(bytes, at).frames == received.frames,
{
    let frame = frame_index(bytes);
    let frames = received.frames.insert(frame, received.arrival(frame, packet_index(bytes), at));
    assert(frames =~= received.frames);
}

/// A shard that is new to its frame is counted once, and its arrival is the frame's last.
pub proof fn lemma_new_shard_arrives(received: Received, bytes: Seq<u8>, at: Instant)
    requires
        received.frames.dom().finite(),
        received.frames.len() < MAX_FRAMES,
        forall|k: u32| #[trigger]
            received.frames.contains_key(k) ==> received.frames[k].indices.finite(),
        !is_malformed(bytes),
        !received.is_duplicate(frame_index(bytes), packet_index(bytes)),
    ensures
        ({
            let frame = frame_index(bytes);
            let after = received.recorded(bytes, at).frames;
            let shards = if received.frames.contains_key(frame) {
                received.frames[frame].indices.len()
            } else {
                0
            };
            &&& after.contains_key(frame)
            &&& after[frame].last == at
            &&& after[frame].indices.len() == shards + 1
        }),
{
    let frame = frame_index(bytes);
    let index = packet_index(bytes);
    let frames = received.frames.insert(frame, received.arrival(frame, index, at));
    assert(frames.dom() =~= received.frames.dom().insert(frame));
    if !received.frames.contains_key(frame) {
        assert(Set::<u32>::empty().insert(index).len() == 1);
        assert(set![index] =~= Set::<u32>::empty().insert(index));
    }
}

/// Why nothing was received.
#[derive(Clone, Copy, Debug, PartialEq, Eq, Structural)]
pub enum ReceiveFailure {
    WouldBlock,
    TimedOut,
    Interrupted,
    Other,
}

/// Time between two greetings, which tell the sender where to send to.
pub const PING_INTERVAL_SECS: u64 = 1;

/// Whether it is time to greet the server again.
pub open spec fn greets_again(pinged_at: Instant, now: Instant) -> bool {
    time::elapsed_nanos(now, pinged_at) >= PING_INTERVAL_SECS * 1_000_000_000
}

/// What a datagram from some source makes of what was received from a server.
pub open spec fn heard(
    received: Received,
    server: Address,
    source: Address,
    bytes: Seq<u8>,
    at: Instant,
) -> Received {
    if source == server {
        received.recorded(bytes, at)
    } else {
        received
    }
}

/// Whether nothing more can be received after a failure.
pub open spec fn is_lasting(failure: ReceiveFailure) -> bool {
    failure == ReceiveFailure::Other
}

/// The loop that receives from one server.
pub struct Watch {
    server: Address,
    pinged_at: Instant,
}

impl Watch {
    /// The server that this loop receives from.
    pub closed spec fn server(&self) -> Address {
        self.server
    }

    /// When the server was last greeted.
    pub closed spec fn pinged_at(&self) -> Instant {
        self.pinged_at
    }

    pub fn new(server: Address, now: Instant) -> (r: Watch)
        ensures
            r.server() == server,
            r.pinged_at() == now,
    {
        Watch { server, pinged_at: now }
    }

    /// Whether a datagram from a source counts.
    pub fn listens_to(&self, source: Address) -> (r: bool)
        ensures
            r == (source == self.server()),
    {
        source == self.server
    }

    /// A datagram came in; only those of the server count.
    pub fn received(&self, state: &mut State, source: Address, bytes: &[u8], at: Instant)
        requires
            source == self.server() ==> old(state)@.has_room_for(bytes@),
        ensures
            final(state)@ == if source == self.server() {
                old(state)@.recorded(bytes@, at)
            } else {
                old(state)@
            },
            final(state)@ == heard(old(state)@, self.server(), source, bytes@, at),
    {
        if self.listens_to(source) {
            state.record(bytes, at);
        }
    }

    /// Nothing came in. Tells whether to go on receiving; a lasting failure is counted.
    pub fn failed(&self, state: &mut State, failure: ReceiveFailure) -> (r: bool)
        requires
            failure == ReceiveFailure::Other ==> old(state)@.counters.errors < u64::MAX,
        ensures
            r == (failure != ReceiveFailure::Other),
            r == !is_lasting(failure),
            final(state)@ == if r {
                old(state)@
            } else {
                old(state)@.with_error()
            },
            final(state)@ == old(state)@.attempted(is_lasting(failure)),
    {
        match failure {
            ReceiveFailure::Other => {
                state.count_error();
                false
            },
            _ => true,
        }
    }

    /// Whether it is time to greet the server again.
    pub fn ping_due(&self, now: Instant) -> (r: bool)
        ensures
            r == (time::elapsed_nanos(now, self.pinged_at()) >= PING_INTERVAL_SECS * 1_000_000_000),
            r == greets_again(self.pinged_at(), now),
    {
        now.duration_since(self.pinged_at).nanos >= Duration::from_secs(PING_INTERVAL_SECS).nanos
    }

    /// The server was greeted again, or could not be.
    pub fn pinged(&mut self, state: &mut State, sent: bool, now: Instant)
        requires
            !sent ==> old(state)@.counters.errors < u64::MAX,
        ensures
            final(self).server() == old(self).server(),
            final(self).pinged_at() == now,
            final(state)@ == if sent {
                old(state)@
            } else {
                old(state)@.with_error()
            },
            final(state)@ == old(state)@.attempted(!sent),
    {
        if !sent {
            state.count_error();
        }
        self.pinged_at = now;
    }
}

/// Every datagram that is long enough for the headers and begins as the stream's do is taken
/// as a shard, whatever follows. It is not counted as malformed. The four bytes from the
/// seventeenth on tell its index, the next four its frame, the least significant first. The
/// index belongs to what has arrived of the frame, or the frame had to go for want of room,
/// which can happen only where 1024 others are kept.
pub proof fn lemma_long_enough_datagrams_are_shards(
    received: Received,
    bytes: Seq<u8>,
    at: Instant,
    index: u32,
    frame: u32,
)
    requires
        received.well_formed(),
        received.has_room_for(bytes),
        bytes.len() >= 32,
        bytes[0] == 0x90,
        index == bytes[16] + 0x100 * bytes[17] + 0x1_0000 * bytes[18] + 0x100_0000 * bytes[19],
        frame == bytes[20] + 0x100 * bytes[21] + 0x1_0000 * bytes[22] + 0x100_0000 * bytes[23],
    ensures
        ({
            let after = received.recorded(bytes, at);
            let known = received.frames.contains_key(frame);
            let duplicate = known && received.frames[frame].indices.contains(index);
            &&& after.counters.malformed == received.counters.malformed
            &&& after.counters.duplicates == received.counters.duplicates + if duplicate {
                1int
            } else {
                0
            }
            &&& after.frames.contains_key(frame) ==> after.frames[frame].indices.contains(index)
            &&& !after.frames.contains_key(frame) ==> !known && received.frames.len() == 1024
                && after.counters.evicted_frames == received.counters.evicted_frames + 1
            &&& known || received.frames.len() < 1024 ==> after.frames.contains_key(frame)
                && after.counters.evicted_frames == received.counters.evicted_frames
            &&& after.frames.contains_key(frame) ==> after.frames[frame].first == if known {
                received.frames[frame].first
            } else {
                at
            }
            &&& after.frames.contains_key(frame) && !duplicate ==> after.frames[frame].last == at
            &&& duplicate ==> after.frames == received.frames
        }),
{
    assert(frame == frame_index(bytes));
    assert(index == packet_index(bytes));
    lemma_what_recording_a_shard_does(received, bytes, at);
    if received.is_duplicate(frame, index) {
        lemma_duplicates_change_no_arrival(received, bytes, at);
    }
    let all = received.frames.dom().insert(frame);
    if received.frames.contains_key(frame) {
        assert(all =~= received.frames.dom());
    }
}

/// A datagram that is too short for the headers, or begins otherwise than the stream's do, is
/// counted as malformed and changes nothing that has arrived.
pub proof fn lemma_other_datagrams_are_malformed(received: Received, bytes: Seq<u8>, at: Instant)
    requires
        received.has_room_for(bytes),
        bytes.len() < 32 || bytes[0] != 0x90,
    ensures
        ({
            let after = received.recorded(bytes, at);
            &&& after.counters.malformed == received.counters.malformed + 1
            &&& after.counters.duplicates == received.counters.duplicates
            &&& after.counters.evicted_frames == received.counters.evicted_frames
            &&& after.frames == received.frames
        }),
{
}

/// Every datagram counts once, with all its bytes, and none counts as an error of the socket.
pub proof fn lemma_every_datagram_counts_once(received: Received, bytes: Seq<u8>, at: Instant)
    requires
        received.has_room_for(bytes),
    ensures
        received.recorded(bytes, at).counters.datagrams == received.counters.datagrams + 1,
        received.recorded(bytes, at).counters.bytes == received.counters.bytes + bytes.len(),
        received.recorded(bytes, at).counters.errors == received.counters.errors,
        received.counters.errors < u64::MAX ==> received.with_error().counters.errors
            == received.counters.errors + 1,
        received.with_error().counters.datagrams == received.counters.datagrams,
        received.with_error().counters.bytes == received.counters.bytes,
        received.with_error().counters.malformed == received.counters.malformed,
        received.with_error().counters.duplicates == received.counters.duplicates,
        received.with_error().counters.evicted_frames == received.counters.evicted_frames,
        received.with_error().frames == received.frames,
{
}

/// A frame is complete for just one number of datagrams: one for its first shard, and one more
/// for every shard that is new to it. A duplicate does not make it more complete.
pub proof fn lemma_completeness_counts_shards(
    received: Received,
    bytes: Seq<u8>,
    at: Instant,
    shards: u64,
)
    requires
        received.well_formed(),
        !is_malformed(bytes),
        received.frames.len() < MAX_FRAMES,
        shards < u64::MAX,
    ensures
        ({
            let frame = frame_index(bytes);
            let after = received.recorded(bytes, at);
            let duplicate = received.is_duplicate(frame, packet_index(bytes));
            &&& !received.frames.contains_key(frame) ==> (after.is_complete(frame, shards) <==> shards
                == 1)
            &&& duplicate ==> (after.is_complete(frame, shards) <==> received.is_complete(
                frame,
                shards,
            ))
            &&& received.frames.contains_key(frame) && !duplicate ==> (after.is_complete(
                frame,
                (shards + 1) as u64,
            ) <==> received.is_complete(frame, shards))
        }),
        forall|frame: u32|
            !received.frames.contains_key(frame) ==> !#[trigger] received.is_complete(frame, shards),
        forall|frame: u32, other: u64|
            #![trigger received.is_complete(frame, shards), received.is_complete(frame, other)]
            received.is_complete(frame, shards) && received.is_complete(frame, other) ==> shards
                == other,
{
    let frame = frame_index(bytes);
    if received.is_duplicate(frame, packet_index(bytes)) {
        lemma_duplicates_change_no_arrival(received, bytes, at);
    } else {
        lemma_new_shard_arrives(received, bytes, at);
    }
}

/// A frame is handed out once, whole, and only for the number of datagrams that it was sent as.
/// A frame that is forgotten is not handed out at all. No other frame is touched, and nothing
/// is counted.
pub proof fn lemma_frames_are_handed_out_once(
    received: Received,
    frame: u32,
    expected: u64,
    other: u32,
)
    ensures
        ({
            let after = received.asked_for(frame, expected);
            &&& !after.is_complete(frame, expected)
            &&& received.is_complete(frame, expected) ==> !after.frames.contains_key(frame)
            &&& !received.is_complete(frame, expected) ==> after == received
            &&& other != frame ==> (after.frames.contains_key(other)
                <==> received.frames.contains_key(other))
            &&& other != frame && received.frames.contains_key(other) ==> after.frames[other]
                == received.frames[other]
            &&& after.counters == received.counters
        }),
        ({
            let after = received.without(frame);
            &&& !after.frames.contains_key(frame)
            &&& other != frame ==> (after.frames.contains_key(other)
                <==> received.frames.contains_key(other))
            &&& other != frame && received.frames.contains_key(other) ==> after.frames[other]
                == received.frames[other]
            &&& after.counters == received.counters
        }),
{
}

/// The server is greeted once a second.
pub proof fn lemma_the_server_is_greeted_every_second(pinged_at: Instant, now: Instant)
    ensures
        greets_again(pinged_at, now) <==> pinged_at.nanos + 1_000_000_000 <= now.nanos,
{
}

/// Room is denied to a datagram only where a counter is at the end of its range.
pub proof fn lemma_there_is_room_before_the_end(received: Received, bytes: Seq<u8>)
    requires
        received.counters.datagrams < u64::MAX,
        received.counters.bytes + bytes.len() <= u64::MAX,
        received.counters.malformed < u64::MAX,
        received.counters.duplicates < u64::MAX,
        received.counters.evicted_frames < u64::MAX,
    ensures
        received.has_room_for(bytes),
{
}

/// A new receiver has seen nothing, and of what it has seen later the bound is 1024 frames.
pub proof fn lemma_receivers_start_empty(frame: u32)
    ensures
        !Received::nothing().frames.contains_key(frame),
        Received::nothing().counters.datagrams == 0,
        Received::nothing().counters.bytes == 0,
        Received::nothing().counters.malformed == 0,
        Received::nothing().counters.duplicates == 0,
        Received::nothing().counters.evicted_frames == 0,
        Received::nothing().counters.errors == 0,
        Received::nothing().well_formed(),
        MAX_FRAMES == 1024,
{
}

/// Only the server is listened to: a datagram from anywhere else, another port of the same host
/// too, changes nothing, and one from the server counts.
pub proof fn lemma_only_the_server_is_listened_to(
    received: Received,
    server: Address,
    source: Address,
    bytes: Seq<u8>,
    at: Instant,
)
    ensures
        source != server ==> heard(received, server, source, bytes, at) == received,
        received.counters.datagrams < u64::MAX ==> heard(
            received,
            server,
            server,
            bytes,
            at,
        ).counters.datagrams == received.counters.datagrams + 1,
{
}

/// A wait that took too long and one that was disturbed do not last; anything else does.
pub proof fn lemma_what_failures_last(failure: ReceiveFailure)
    ensures
        failure == ReceiveFailure::WouldBlock || failure == ReceiveFailure::TimedOut || failure
            == ReceiveFailure::Interrupted <==> !is_lasting(failure),
{
}

/// An error is counted once, and changes nothing else; an attempt without one changes nothing.
pub proof fn lemma_errors_are_counted(received: Received)
    requires
        received.counters.errors < u64::MAX,
    ensures
        received.attempted(false) == received,
        ({
            let after = received.attempted(true);
            &&& after.counters.errors == received.counters.errors + 1
            &&& after.counters.datagrams == received.counters.datagrams
            &&& after.counters.bytes == received.counters.bytes
            &&& after.counters.duplicates == received.counters.duplicates
            &&& after.counters.malformed == received.counters.malformed
            &&& after.counters.evicted_frames == received.counters.evicted_frames
            &&& after.frames == received.frames
        }),
{
}

} // verus!
