//! Who decides about the end of a session, and who carries it out.
//!
//! A supervisor owns the cleanup from before the first unit is created, so that whoever
//! gives up waiting cannot cancel it. The handle that the session manager holds only asks for
//! it.

use vstd::prelude::*;

verus! {

/// Why a session ends.
#[derive(Clone, Copy, Debug, PartialEq, Eq, Structural)]
pub enum SessionShutdownReason {
    UserStopped,
    ManagerShutdown,
    VideoPacketHandlerStopped,
}

/// What a session's owner, its supervisor and its compositor agree on.
#[derive(Clone, Copy, Debug, PartialEq, Eq, Structural)]
pub struct Lifecycle {
    /// Nothing may be launched any more.
    pub stopping: bool,
    /// The reason for which the owner asked for the end.
    pub requested: Option<SessionShutdownReason>,
    /// Whether the compositor, if there is one, has closed its X connection for good.
    pub x11_released: Option<bool>,
}

/// What can happen to a session's lifecycle.
pub ghost enum LifecycleEvent {
    Request(SessionShutdownReason),
    Stopping,
    Compositor,
    Release,
}

/// What an event makes of a lifecycle.
pub open spec fn lived(life: Lifecycle, event: LifecycleEvent) -> Lifecycle {
    match event {
        LifecycleEvent::Request(reason) => Lifecycle {
            stopping: true,
            requested: if life.requested is None {
                Some(reason)
            } else {
                life.requested
            },
            ..life
        },
        LifecycleEvent::Stopping => Lifecycle { stopping: true, ..life },
        LifecycleEvent::Compositor => if !life.stopping && life.x11_released is None {
            Lifecycle { x11_released: Some(false), ..life }
        } else {
            life
        },
        LifecycleEvent::Release => if life.x11_released is Some {
            Lifecycle { x11_released: Some(true), ..life }
        } else {
            life
        },
    }
}

impl Lifecycle {
    /// Whether no X connection of the compositor stands in the way of ending Xwayland.
    pub open spec fn is_clear(self) -> bool {
        self.x11_released != Some(false)
    }

    /// Whether the owner has asked for the end.
    pub open spec fn is_asked(self) -> bool {
        self.requested is Some
    }

    /// Whether a compositor may begin.
    pub open spec fn admits(self) -> bool {
        !self.stopping && self.x11_released is None
    }

    pub fn new() -> (r: Lifecycle)
        ensures
            !r.stopping,
            r.requested is None,
            r.x11_released is None,
    {
        Lifecycle { stopping: false, requested: None, x11_released: None }
    }

    /// Asks for the end of the session. The first reason stands. Tells whether this is the
    /// first.
    pub fn request_stop(&mut self, reason: SessionShutdownReason) -> (r: bool)
        ensures
            r == (old(self).requested is None),
            r == !old(self).is_asked(),
            *final(self) == lived(*old(self), LifecycleEvent::Request(reason)),
    {
        self.stopping = true;
        if self.requested.is_some() {
            return false;
        }
        self.requested = Some(reason);
        true
    }

    /// The supervisor begins to end the session.
    pub fn begin_stopping(&mut self)
        ensures
            *final(self) == lived(*old(self), LifecycleEvent::Stopping),
    {
        self.stopping = true;
    }

    pub fn is_stopping(&self) -> (r: bool)
        ensures
            r == self.stopping,
    {
        self.stopping
    }

    /// Admits the session's one compositor, unless the session is ending.
    pub fn begin_compositor(&mut self) -> (r: Result<(), ()>)
        ensures
            r is Ok <==> !old(self).stopping && old(self).x11_released is None,
            r is Ok <==> old(self).admits(),
            *final(self) == lived(*old(self), LifecycleEvent::Compositor),
    {
        if self.stopping || self.x11_released.is_some() {
            return Err(());
        }
        self.x11_released = Some(false);
        Ok(())
    }

    /// The compositor has closed its X connection, or is gone.
    pub fn release_x11(&mut self)
        ensures
            *final(self) == lived(*old(self), LifecycleEvent::Release),
    {
        if self.x11_released.is_some() {
            self.x11_released = Some(true);
        }
    }

    /// Whether no X connection of the compositor stands in the way of ending Xwayland.
    pub fn is_x11_released(&self) -> (r: bool)
        ensures
            r == (self.x11_released != Some(false)),
            r == self.is_clear(),
    {
        match self.x11_released {
            Some(released) => released,
            None => true,
        }
    }
}

/// What a row of events makes of a lifecycle.
pub open spec fn lived_through(life: Lifecycle, events: Seq<LifecycleEvent>) -> Lifecycle
    decreases events.len(),
{
    if events.len() == 0 {
        life
    } else {
        lived(lived_through(life, events.drop_last()), events.last())
    }
}

/// Once a session is stopping, it stays so, the reason that was given first stands, and no
/// compositor that was not there can come and hold an X connection.
pub proof fn lemma_stopping_is_final(life: Lifecycle, events: Seq<LifecycleEvent>)
    requires
        life.stopping,
    ensures
        lived_through(life, events).stopping,
        life.requested is Some ==> lived_through(life, events).requested == life.requested,
        life.x11_released != Some(false) ==> lived_through(life, events).x11_released
            == life.x11_released,
    decreases events.len(),
{
    if events.len() > 0 {
        lemma_stopping_is_final(life, events.drop_last());
    }
}

/// A closed X connection is not opened again.
pub proof fn lemma_release_is_final(life: Lifecycle, events: Seq<LifecycleEvent>)
    requires
        life.x11_released == Some(true),
    ensures
        lived_through(life, events).x11_released == Some(true),
    decreases events.len(),
{
    if events.len() > 0 {
        lemma_release_is_final(life, events.drop_last());
    }
}

/// What the supervisor is doing.
#[derive(Clone, Copy, Debug, PartialEq, Eq, Structural)]
pub enum Duty {
    /// Create the units of the session.
    Initialize,
    /// Wait for a reason to end it.
    AwaitStop,
    /// Carry out its end.
    Terminate { reason: SessionShutdownReason },
    /// Tell everybody that it has ended; shut down the server where it has not ended well.
    Conclude { reason: SessionShutdownReason, success: bool, shut_down_server: bool },
}

/// What the supervisor learns.
#[derive(Clone, Copy, Debug, PartialEq, Eq, Structural)]
pub enum News {
    /// The units were created, or not, and whoever asked for the session is still there, or
    /// not.
    Initialized { success: bool, accepted: bool },
    /// The owner asked for the end, with a reason, or is gone.
    Requested(Option<SessionShutdownReason>),
    /// The session is ending on its own.
    SessionStopped(SessionShutdownReason),
    /// The server is shutting down.
    ServerShutdown,
    /// The processes of the session have ended, or not.
    Terminated { success: bool },
}

impl Duty {
    /// What the supervisor turns to. News that does not concern what it is doing changes
    /// nothing.
    pub open spec fn next(self, news: News) -> Duty {
        match (self, news) {
            (Duty::Initialize, News::Initialized { success, accepted }) => if success && accepted {
                Duty::AwaitStop
            } else {
                Duty::Terminate { reason: SessionShutdownReason::UserStopped }
            },
            (Duty::AwaitStop, News::Requested(Some(reason))) => Duty::Terminate { reason },
            (Duty::AwaitStop, News::Requested(None)) => Duty::Terminate {
                reason: SessionShutdownReason::UserStopped,
            },
            (Duty::AwaitStop, News::SessionStopped(reason)) => Duty::Terminate { reason },
            (Duty::AwaitStop, News::ServerShutdown) => Duty::Terminate {
                reason: SessionShutdownReason::ManagerShutdown,
            },
            (Duty::Terminate { reason }, News::Terminated { success }) => Duty::Conclude {
                reason,
                success,
                shut_down_server: !success,
            },
            _ => self,
        }
    }

    /// Takes news.
    pub fn step(&mut self, news: News)
        ensures
            *final(self) == old(self).next(news),
    {
        match *self {
            Duty::Initialize => match news {
                News::Initialized { success, accepted } => {
                    *self = if success && accepted {
                        Duty::AwaitStop
                    } else {
                        Duty::Terminate { reason: SessionShutdownReason::UserStopped }
                    };
                },
                _ => {},
            },
            Duty::AwaitStop => match news {
                News::Requested(Some(reason)) => {
                    *self = Duty::Terminate { reason };
                },
                News::Requested(None) => {
                    *self = Duty::Terminate { reason: SessionShutdownReason::UserStopped };
                },
                News::SessionStopped(reason) => {
                    *self = Duty::Terminate { reason };
                },
                News::ServerShutdown => {
                    *self = Duty::Terminate { reason: SessionShutdownReason::ManagerShutdown };
                },
                _ => {},
            },
            Duty::Terminate { reason } => match news {
                News::Terminated { success } => {
                    *self = Duty::Conclude { reason, success, shut_down_server: !success };
                },
                _ => {},
            },
            Duty::Conclude { .. } => {},
        }
    }
}

/// What a supervisor turns to after a row of news.
pub open spec fn turned_to(news: Seq<News>) -> Duty
    decreases news.len(),
{
    if news.len() == 0 {
        Duty::Initialize
    } else {
        turned_to(news.drop_last()).next(news.last())
    }
}

/// The cleanup is never left out: a session that has ended was terminated before, whether its
/// units had been created or not, for the reason that is told in the end. The server is shut
/// down exactly where the cleanup failed.
pub proof fn lemma_cleanup_is_never_skipped(news: Seq<News>)
    requires
        turned_to(news) is Conclude,
    ensures
        exists|i: int|
            0 <= i < news.len() && #[trigger] terminated_at(news, i, turned_to(news)->Conclude_reason)
                && news[i]->Terminated_success == turned_to(news)->Conclude_success,
        turned_to(news)->shut_down_server == !turned_to(news)->Conclude_success,
    decreases news.len(),
{
    let rest = news.drop_last();
    assert(news.take(news.len() - 1) =~= rest);
    if turned_to(rest) is Conclude {
        lemma_cleanup_is_never_skipped(rest);
        let reason = turned_to(news)->Conclude_reason;
        let i = choose|i: int|
            0 <= i < rest.len() && #[trigger] terminated_at(rest, i, reason)
                && rest[i]->Terminated_success == turned_to(rest)->Conclude_success;
        assert(rest.take(i) =~= news.take(i));
        assert(terminated_at(news, i, reason));
    } else {
        assert(terminated_at(news, news.len() - 1, turned_to(news)->Conclude_reason));
    }
}

/// The processes of the session were terminated, for a reason.
pub open spec fn terminated_at(news: Seq<News>, i: int, reason: SessionShutdownReason) -> bool {
    turned_to(news.take(i)) == (Duty::Terminate { reason }) && news[i] is Terminated
}

/// What becomes of a request for a new session.
#[derive(Clone, Copy, Debug, PartialEq, Eq, Structural)]
pub enum Creation {
    /// The session is there.
    Owned,
    /// Its units could not be created: report that once they are cleaned up.
    FailedAfterCleanup,
    /// The supervisor is gone.
    Failed,
}

/// What the supervisor's report on the creation of the units means.
pub open spec fn created(report: Option<Result<(), ()>>) -> Creation {
    match report {
        Some(Ok(())) => Creation::Owned,
        Some(Err(())) => Creation::FailedAfterCleanup,
        None => Creation::Failed,
    }
}

/// What the supervisor's report on the creation of the units means.
pub fn creation(report: Option<Result<(), ()>>) -> (r: Creation)
    ensures
        r == match report {
            Some(Ok(())) => Creation::Owned,
            Some(Err(())) => Creation::FailedAfterCleanup,
            None => Creation::Failed,
        },
        r == created(report),
{
    match report {
        Some(Ok(())) => Creation::Owned,
        Some(Err(())) => Creation::FailedAfterCleanup,
        None => Creation::Failed,
    }
}

/// What a lifecycle remembers: a request stops the session and gives the reason, unless one was
/// given before; a compositor is admitted while the session is neither stopping nor has one,
/// and holds its X connection until it releases it.
pub proof fn lemma_what_a_lifecycle_remembers(life: Lifecycle, reason: SessionShutdownReason)
    ensures
        ({
            let after = lived(life, LifecycleEvent::Request(reason));
            &&& after.stopping
            &&& life.requested is None ==> after.requested == Some(reason)
            &&& life.requested is Some ==> after.requested == life.requested
            &&& after.x11_released == life.x11_released
        }),
        ({
            let after = lived(life, LifecycleEvent::Stopping);
            &&& after.stopping
            &&& after.requested == life.requested
            &&& after.x11_released == life.x11_released
        }),
        ({
            let after = lived(life, LifecycleEvent::Compositor);
            &&& !life.stopping && life.x11_released is None ==> after.x11_released == Some(false)
            &&& life.stopping || life.x11_released is Some ==> after.x11_released
                == life.x11_released
            &&& after.stopping == life.stopping
            &&& after.requested == life.requested
        }),
        ({
            let after = lived(life, LifecycleEvent::Release);
            &&& life.x11_released is Some ==> after.x11_released == Some(true)
            &&& life.x11_released is None ==> after.x11_released is None
            &&& after.stopping == life.stopping
            &&& after.requested == life.requested
        }),
{
}

/// A session whose units were created, for somebody who is still there, goes on until there is
/// a reason to end it. Any other is terminated at once, on behalf of its owner.
pub proof fn lemma_only_wanted_sessions_go_on(success: bool, accepted: bool)
    ensures
        turned_to(seq![News::Initialized { success, accepted }]) == if success && accepted {
            Duty::AwaitStop
        } else {
            Duty::Terminate { reason: SessionShutdownReason::UserStopped }
        },
{
    let news = seq![News::Initialized { success, accepted }];
    assert(news.drop_last() =~= Seq::<News>::empty());
    assert(turned_to(news.drop_last()) == Duty::Initialize);
}

/// A session is terminated for the reason that its owner or the session itself gives. An owner
/// that is gone wanted it stopped, and a server that shuts down takes it with it. While the
/// session goes on, nothing else ends it.
pub proof fn lemma_what_ends_a_session(news: News, reason: SessionShutdownReason)
    ensures
        Duty::AwaitStop.next(News::Requested(Some(reason))) == (Duty::Terminate { reason }),
        Duty::AwaitStop.next(News::SessionStopped(reason)) == (Duty::Terminate { reason }),
        Duty::AwaitStop.next(News::Requested(None)) == (Duty::Terminate {
            reason: SessionShutdownReason::UserStopped,
        }),
        Duty::AwaitStop.next(News::ServerShutdown) == (Duty::Terminate {
            reason: SessionShutdownReason::ManagerShutdown,
        }),
        news is Initialized || news is Terminated ==> Duty::AwaitStop.next(news)
            == Duty::AwaitStop,
{
}

/// A termination goes on until its processes have ended or not, and tells which; nothing that
/// is learnt meanwhile changes the reason. What was told stands.
pub proof fn lemma_a_termination_is_seen_through(
    news: News,
    reason: SessionShutdownReason,
    success: bool,
    shut_down_server: bool,
)
    ensures
        !(news is Terminated) ==> (Duty::Terminate { reason }).next(news) == (Duty::Terminate {
            reason,
        }),
        (Duty::Terminate { reason }).next(News::Terminated { success }) == (Duty::Conclude {
            reason,
            success,
            shut_down_server: !success,
        }),
        (Duty::Conclude { reason, success, shut_down_server }).next(news) == (Duty::Conclude {
            reason,
            success,
            shut_down_server,
        }),
        !(news is Initialized) ==> Duty::Initialize.next(news) == Duty::Initialize,
{
}

/// Xwayland can be ended unless a compositor holds its X connection: before one was admitted,
/// and as soon as it has released it.
pub proof fn lemma_who_stands_in_the_way_of_the_end(life: Lifecycle)
    ensures
        life.x11_released is None ==> life.is_clear(),
        lived(life, LifecycleEvent::Release).is_clear(),
        !life.stopping && life.x11_released is None ==> !lived(
            life,
            LifecycleEvent::Compositor,
        ).is_clear(),
        life.stopping && life.is_clear() ==> lived(life, LifecycleEvent::Compositor).is_clear(),
{
}

/// A session is there exactly if its units were created. Where they were not, that is told once
/// they are cleaned up, which only the supervisor can do.
pub proof fn lemma_what_a_report_means(report: Option<Result<(), ()>>)
    ensures
        created(report) == Creation::Owned <==> (report matches Some(Ok(_))),
        created(report) == Creation::FailedAfterCleanup <==> (report matches Some(Err(_))),
        created(report) == Creation::Failed <==> report is None,
{
}

/// Exactly one request is the first: none was made before it, and every one after it finds that
/// one was made. Nothing but a request makes one.
pub proof fn lemma_one_request_is_the_first(
    life: Lifecycle,
    reason: SessionShutdownReason,
    events: Seq<LifecycleEvent>,
)
    ensures
        lived(life, LifecycleEvent::Request(reason)).is_asked(),
        life.is_asked() ==> lived_through(life, events).is_asked(),
        !life.is_asked() && (forall|i: int|
            0 <= i < events.len() ==> !(#[trigger] events[i] is Request)) ==> !lived_through(
            life,
            events,
        ).is_asked(),
    decreases events.len(),
{
    if events.len() > 0 {
        let rest = events.drop_last();
        lemma_one_request_is_the_first(life, reason, rest);
        if forall|i: int| 0 <= i < events.len() ==> !(#[trigger] events[i] is Request) {
            assert forall|i: int| 0 <= i < rest.len() implies !(#[trigger] rest[i] is Request) by {
                assert(rest[i] == events[i]);
            }
            assert(!(events[events.len() - 1] is Request));
        }
    }
}

/// A compositor is admitted exactly if that changes something: the first one is, unless the
/// session is stopping, and no other ever is.
pub proof fn lemma_one_compositor_is_admitted(
    life: Lifecycle,
    reason: SessionShutdownReason,
    events: Seq<LifecycleEvent>,
)
    ensures
        life.admits() <==> lived(life, LifecycleEvent::Compositor) != life,
        !lived(life, LifecycleEvent::Compositor).admits(),
        !lived(life, LifecycleEvent::Stopping).admits(),
        !lived(life, LifecycleEvent::Request(reason)).admits(),
        lived(life, LifecycleEvent::Release).admits() == life.admits(),
        !life.admits() ==> !lived_through(life, events).admits(),
    decreases events.len(),
{
    if events.len() > 0 {
        lemma_one_compositor_is_admitted(life, reason, events.drop_last());
    }
}

} // verus!
