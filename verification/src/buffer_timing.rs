//! The time of the applied buffer attachment, independent of callback-only commits.
//! Serves direct capture alone, where the selected source buffer is unambiguous.

use crate::time::{self, Duration, Instant};
use vstd::prelude::*;

verus! {

/// What a commit attaches to a surface: a buffer, known by its number, or none any more.
#[derive(Clone, Copy, Debug, PartialEq, Eq, Structural)]
pub enum Attachment {
    NewBuffer(u64),
    Removed,
}

/// The buffer that a surface shows, and when its attachment was applied.
pub struct BufferCommit {
    timing: Option<(u64, Instant)>,
}

impl View for BufferCommit {
    type V = Option<(u64, Instant)>;

    closed spec fn view(&self) -> Option<(u64, Instant)> {
        self.timing
    }
}

/// What a commit makes of the buffer that a surface shows.
pub open spec fn applied(
    timing: Option<(u64, Instant)>,
    synchronized: bool,
    attachment: Option<Attachment>,
    now: Instant,
) -> Option<(u64, Instant)> {
    match attachment {
        Some(Attachment::NewBuffer(buffer)) if !synchronized => Some((buffer, now)),
        Some(Attachment::Removed) if !synchronized => None,
        _ => timing,
    }
}

/// How long before `capture` the attachment of `buffer` was applied, in nanoseconds.
pub open spec fn age_of(timing: Option<(u64, Instant)>, buffer: u64, capture: Instant) -> Option<
    int,
> {
    match timing {
        Some((shown, applied_at)) if shown == buffer => Some(
            time::elapsed_nanos(capture, applied_at),
        ),
        _ => None,
    }
}

impl BufferCommit {
    pub fn new() -> (r: BufferCommit)
        ensures
            r@ is None,
    {
        BufferCommit { timing: None }
    }

    /// To be called before the buffer handler consumes the applied attachment.
    /// Synchronized children are left out on purpose: direct capture selects a toplevel or
    /// override surface, never a child with pending synchronized state.
    pub fn record(&mut self, synchronized: bool, attachment: Option<Attachment>, now: Instant)
        ensures
            final(self)@ == match attachment {
                Some(Attachment::NewBuffer(buffer)) if !synchronized => Some((buffer, now)),
                Some(Attachment::Removed) if !synchronized => None,
                _ => old(self)@,
            },
            final(self)@ == applied(old(self)@, synchronized, attachment, now),
    {
        if synchronized {
            return;
        }
        match attachment {
            Some(Attachment::NewBuffer(buffer)) => {
                self.timing = Some((buffer, now));
            },
            Some(Attachment::Removed) => {
                self.timing = None;
            },
            None => {},
        }
    }

    /// How long before `capture` the attachment of `buffer` was applied, if that is what the
    /// surface shows.
    pub fn age(&self, buffer: u64, capture: Instant) -> (r: Option<Duration>)
        ensures
            match self@ {
                Some((shown, applied_at)) if shown == buffer => r is Some && r->0.nanos
                    == time::elapsed_nanos(capture, applied_at),
                _ => r is None,
            },
            r is Some <==> age_of(self@, buffer, capture) is Some,
            r is Some ==> r->0.nanos == age_of(self@, buffer, capture)->0,
    {
        match self.timing {
            Some((id, committed_at)) => if id == buffer {
                Some(capture.duration_since(committed_at))
            } else {
                None
            },
            None => None,
        }
    }
}

/// A buffer ages from the moment that its attachment is applied, and no other buffer has an age
/// then. It can be attached again, and starts again.
pub proof fn lemma_buffers_age_from_their_attachment(
    timing: Option<(u64, Instant)>,
    buffer: u64,
    other: u64,
    now: Instant,
    capture: Instant,
)
    ensures
        ({
            let after = applied(timing, false, Some(Attachment::NewBuffer(buffer)), now);
            let age = age_of(after, buffer, capture);
            &&& age is Some
            &&& now.nanos <= capture.nanos ==> now.nanos + age->0 == capture.nanos
            &&& capture.nanos <= now.nanos ==> age->0 == 0
            &&& other != buffer ==> age_of(after, other, capture) is None
        }),
{
}

/// A surface whose buffer was removed shows none. A commit that attaches nothing leaves the age
/// of a buffer alone, and so does any commit of a synchronized child.
pub proof fn lemma_what_leaves_the_age_alone(
    timing: Option<(u64, Instant)>,
    attachment: Option<Attachment>,
    synchronized: bool,
    buffer: u64,
    now: Instant,
    capture: Instant,
)
    ensures
        age_of(applied(timing, false, Some(Attachment::Removed), now), buffer, capture) is None,
        age_of(applied(timing, synchronized, None, now), buffer, capture) == age_of(
            timing,
            buffer,
            capture,
        ),
        age_of(applied(timing, true, attachment, now), buffer, capture) == age_of(
            timing,
            buffer,
            capture,
        ),
        age_of(None, buffer, capture) is None,
{
}

} // verus!
