//! Applied content changes, filtered against the scene selected for capture.
//!
//! The timer owns callback pacing; applied visible content can use its capture opportunity
//! immediately after client dispatch. Invalidation of geometry, focus or cursor remains a
//! separate reason to repaint, not evidence of a new buffer.

use std::collections::{HashMap, HashSet};
use vstd::prelude::*;

verus! {

broadcast use vstd::std_specs::hash::group_hash_axioms;

/// What a commit did to the buffer of a surface.
#[derive(Clone, Copy, Debug, PartialEq, Eq, Structural)]
pub enum BufferAssignment {
    NewBuffer,
    Removed,
}

/// The applied state of one surface, before it is consumed.
#[derive(Clone, Copy, Debug, PartialEq, Eq, Structural)]
pub struct SurfaceCommit {
    pub id: u64,
    pub buffer: Option<BufferAssignment>,
    pub damaged: bool,
}

impl SurfaceCommit {
    /// Whether the surface shows something new: a buffer was attached or removed, or part of
    /// the buffer was damaged.
    pub open spec fn has_content(self) -> bool {
        self.buffer is Some || self.damaged
    }

    pub open spec fn removes(self) -> bool {
        self.buffer == Some(BufferAssignment::Removed)
    }
}

/// How many surfaces of a tree show something new.
pub open spec fn contents(tree: Seq<SurfaceCommit>) -> nat
    decreases tree.len(),
{
    if tree.len() == 0 {
        0
    } else {
        contents(tree.drop_last()) + if tree.last().has_content() {
            1nat
        } else {
            0
        }
    }
}

/// An element of a scene, and whether the renderer presented it.
#[derive(Clone, Copy, Debug, PartialEq, Eq, Structural)]
pub struct SceneElement {
    pub id: u64,
    pub presented: bool,
}

/// The elements that were presented.
pub open spec fn presented(scene: Seq<SceneElement>) -> Set<u64> {
    Set::new(|id: u64| scene.contains(SceneElement { id, presented: true }))
}

/// A content change that no accepted frame shows yet.
#[derive(Clone, Copy, Debug, PartialEq, Eq, Structural)]
pub struct ContentUpdate {
    pub removed: bool,
    pub revision: u64,
}

/// The content changes since the last accepted frame, and what that frame showed.
#[verifier::ext_equal]
pub ghost struct Pending {
    pub updates: Map<u64, ContentUpdate>,
    pub visible: Set<u64>,
    pub revision: u64,
}

impl Pending {
    /// Every update bears a revision that has been given out.
    pub open spec fn well_formed(self) -> bool {
        forall|id: u64| #[trigger]
            self.updates.contains_key(id) ==> 0 < self.updates[id].revision <= self.revision
    }

    /// What one surface makes of it. Updates of a surface coalesce into the latest, which
    /// remembers a removal.
    pub open spec fn applied(self, commit: SurfaceCommit) -> Pending {
        if !commit.has_content() {
            self
        } else {
            let revision = (self.revision + 1) as u64;
            let removed = commit.removes() || (self.updates.contains_key(commit.id)
                && self.updates[commit.id].removed);
            Pending {
                updates: self.updates.insert(commit.id, ContentUpdate { removed, revision }),
                revision,
                ..self
            }
        }
    }

    /// What the surfaces of a tree make of it, in their order.
    pub open spec fn observed(self, tree: Seq<SurfaceCommit>) -> Pending
        decreases tree.len(),
    {
        if tree.len() == 0 {
            self
        } else {
            self.observed(tree.drop_last()).applied(tree.last())
        }
    }

    /// Nothing has been committed or shown yet.
    pub open spec fn nothing() -> Pending {
        Pending { updates: Map::empty(), visible: Set::empty(), revision: 0 }
    }

    /// What a commit makes of it. That of a synchronized child waits for its parent.
    pub open spec fn committed(self, synchronized: bool, tree: Seq<SurfaceCommit>) -> Pending {
        if synchronized {
            self
        } else {
            self.observed(tree)
        }
    }

    /// Whether a scene would show content applied after revision `since`.
    pub open spec fn ready_scene(self, scene: Seq<SceneElement>, since: u64) -> bool {
        self.ready_since(presented(scene), since)
    }

    /// A frame of a scene was accepted.
    pub open spec fn accepted_scene(self, scene: Seq<SceneElement>) -> Pending {
        self.accepted(presented(scene))
    }

    /// A surface is gone. What it showed must be painted over if it was visible.
    pub open spec fn without(self, id: u64) -> Pending {
        if self.visible.contains(id) {
            let revision = (self.revision + 1) as u64;
            Pending {
                updates: self.updates.insert(id, ContentUpdate { removed: true, revision }),
                revision,
                ..self
            }
        } else {
            Pending { updates: self.updates.remove(id), ..self }
        }
    }

    /// Whether an update of `id` matters to a frame that shows `shown`.
    pub open spec fn matters(self, id: u64, shown: Set<u64>, since: u64) -> bool {
        &&& self.updates.contains_key(id)
        &&& self.updates[id].revision > since
        &&& shown.contains(id) || (self.updates[id].removed && self.visible.contains(id))
    }

    /// Whether a frame that shows `shown` would show content applied after revision `since`.
    pub open spec fn ready_since(self, shown: Set<u64>, since: u64) -> bool {
        exists|id: u64| self.matters(id, shown, since)
    }

    /// Whether a frame that shows `shown` would show anything new.
    pub open spec fn ready(self, shown: Set<u64>) -> bool {
        self.ready_since(shown, 0)
    }

    /// Whether a frame that shows nothing but the buffer of one surface would show content
    /// applied after revision `since`.
    pub open spec fn ready_direct(self, surface: u64, since: u64) -> bool {
        self.ready_since(set![surface], since)
    }

    /// A frame that shows `shown` was accepted.
    pub open spec fn accepted(self, shown: Set<u64>) -> Pending {
        Pending { updates: Map::empty(), visible: shown, ..self }
    }
}

pub struct CaptureTrigger {
    // Commits coalesce until a frame is accepted, retaining the latest batch.
    pending: HashMap<u64, ContentUpdate>,
    previously_visible: HashSet<u64>,
    revision: u64,
}

impl View for CaptureTrigger {
    type V = Pending;

    closed spec fn view(&self) -> Pending {
        Pending {
            updates: self.pending@,
            visible: self.previously_visible@,
            revision: self.revision,
        }
    }
}

impl Default for CaptureTrigger {
    fn default() -> (r: CaptureTrigger)
        ensures
            r@ == (Pending { updates: Map::empty(), visible: Set::empty(), revision: 0 }),
            r@ == Pending::nothing(),
    {
        CaptureTrigger::new()
    }
}

impl CaptureTrigger {
    pub fn new() -> (r: CaptureTrigger)
        ensures
            r@ == (Pending { updates: Map::empty(), visible: Set::empty(), revision: 0 }),
            r@ == Pending::nothing(),
            r@.well_formed(),
    {
        CaptureTrigger { pending: HashMap::new(), previously_visible: HashSet::new(), revision: 0 }
    }

    /// Looks at exactly the applied state that the buffer handler will consume, with the
    /// children that this commit of their parent latched. A synchronized child's own commit
    /// must not make its cached buffer eligible prematurely.
    pub fn observe_commit(&mut self, synchronized: bool, tree: &[SurfaceCommit])
        requires
            !synchronized ==> old(self)@.revision + contents(tree@) <= u64::MAX,
        ensures
            final(self)@ == if synchronized {
                old(self)@
            } else {
                old(self)@.observed(tree@)
            },
            final(self)@ == old(self)@.committed(synchronized, tree@),
            old(self)@.well_formed() ==> final(self)@.well_formed(),
            final(self)@.revision == old(self)@.revision + if synchronized {
                0
            } else {
                contents(tree@)
            },
    {
        if synchronized {
            return;
        }
        let mut i: usize = 0;
        proof {
            assert(tree@.take(0) =~= Seq::<SurfaceCommit>::empty());
        }
        while i < tree.len()
            invariant
                i <= tree@.len(),
                old(self)@.revision + contents(tree@) <= u64::MAX,
                self@.revision == old(self)@.revision + contents(tree@.take(i as int)),
                self@ == old(self)@.observed(tree@.take(i as int)),
                old(self)@.well_formed() ==> self@.well_formed(),
            decreases tree@.len() - i,
        {
            proof {
                let more = tree@.take(i + 1);
                assert(more.drop_last() =~= tree@.take(i as int));
                assert(more.last() == tree@[i as int]);
                lemma_contents_grow(tree@, i + 1);
            }
            self.apply(tree[i]);
            i = i + 1;
        }
        proof {
            assert(tree@.take(tree@.len() as int) =~= tree@);
        }
    }

    fn apply(&mut self, commit: SurfaceCommit)
        requires
            commit.has_content() ==> old(self)@.revision < u64::MAX,
        ensures
            final(self)@ == old(self)@.applied(commit),
            old(self)@.well_formed() ==> final(self)@.well_formed(),
    {
        let ghost before = self@;
        if commit.buffer.is_some() || commit.damaged {
            self.revision = self.revision + 1;
            let removes: bool = match commit.buffer {
                Some(BufferAssignment::Removed) => true,
                _ => false,
            };
            let removed: bool = match self.pending.get(&commit.id) {
                Some(update) => removes || update.removed,
                None => removes,
            };
            self.pending.insert(commit.id, ContentUpdate { removed, revision: self.revision });
            proof {
                assert(self@ =~= before.applied(commit));
            }
        }
    }

    /// A surface is gone. Tells whether the last accepted frame showed it.
    pub fn destroyed(&mut self, id: u64) -> (r: bool)
        requires
            old(self)@.visible.contains(id) ==> old(self)@.revision < u64::MAX,
        ensures
            r == old(self)@.visible.contains(id),
            final(self)@ == old(self)@.without(id),
            old(self)@.well_formed() ==> final(self)@.well_formed(),
            final(self)@.revision >= old(self)@.revision,
    {
        let ghost before = self@;
        let visible: bool = self.showed(id);
        if visible {
            self.revision = self.revision + 1;
            self.pending.insert(id, ContentUpdate { removed: true, revision: self.revision });
        } else {
            self.pending.remove(&id);
        }
        proof {
            assert(self@ =~= before.without(id));
        }
        visible
    }

    /// Whether the last accepted frame showed a surface.
    pub fn showed(&self, id: u64) -> (r: bool)
        ensures
            r == self@.visible.contains(id),
    {
        self.previously_visible.contains(&id)
    }

    /// Changes only for applied content, never for callback-only protocol traffic.
    pub fn revision(&self) -> (r: u64)
        ensures
            r == self@.revision,
    {
        self.revision
    }

    /// Asks without consuming: failed exports and backpressure must retain readiness.
    pub fn ready_for(&self, scene: &[SceneElement]) -> (r: bool)
        ensures
            r == self@.ready(presented(scene@)),
            r == self@.ready_scene(scene@, 0),
    {
        self.ready_for_since(scene, 0)
    }

    /// Only content applied in the triggering dispatch may spend its opportunity.
    /// Older pending content still survives for a timer fallback or later capture.
    pub fn ready_for_since(&self, scene: &[SceneElement], revision: u64) -> (r: bool)
        ensures
            r == self@.ready_since(presented(scene@), revision),
            r == self@.ready_scene(scene@, revision),
    {
        self.any_matters(&presented_ids(scene), revision)
    }

    fn any_matters(&self, shown: &HashSet<u64>, revision: u64) -> (r: bool)
        ensures
            r == self@.ready_since(shown@, revision),
    {
        for (id, update) in it: self.pending.iter()
            invariant
                forall|i: int|
                    #![trigger it.seq()[i]]
                    0 <= i < it.seq().len() ==> self.pending@.contains_key(*it.seq()[i].0)
                        && self.pending@[*it.seq()[i].0] == *it.seq()[i].1,
                forall|k: u64| #[trigger]
                    self.pending@.contains_key(k) ==> it.seq().contains((&k, &self.pending@[k])),
                forall|i: int|
                    #![trigger it.seq()[i]]
                    0 <= i < it.index() ==> !self@.matters(*it.seq()[i].0, shown@, revision),
        {
            proof {
                let entry = it.seq()[it.index() as int];
                assert(entry == (id, update));
            }
            if update.revision > revision && (shown.contains(id) || (update.removed
                && self.previously_visible.contains(id))) {
                proof {
                    assert(self@.matters(*id, shown@, revision));
                }
                return true;
            }
        }
        proof {
            let entries = vstd::std_specs::iter::IteratorSpec::remaining(
                &vstd::std_specs::hash::spec_hash_map_iter(&self.pending),
            );
            assert forall|id: u64| !self@.matters(id, shown@, revision) by {
                if self.pending@.contains_key(id) {
                    let i = entries.index_of((&id, &self.pending@[id]));
                    assert(entries[i].0 == id);
                }
            }
        }
        false
    }

    /// Called only after the composed frame was accepted by the encoder channel. Tells
    /// whether the frame shows something new.
    pub fn accepted(&mut self, scene: &[SceneElement]) -> (r: bool)
        ensures
            r == old(self)@.ready(presented(scene@)),
            final(self)@ == old(self)@.accepted(presented(scene@)),
            final(self)@.well_formed(),
            r == old(self)@.ready_scene(scene@, 0),
            final(self)@ == old(self)@.accepted_scene(scene@),
    {
        let ready: bool = self.ready_for(scene);
        self.previously_visible = presented_ids(scene);
        self.pending.clear();
        ready
    }

    /// Direct capture has exactly one selected buffer, independent of other surfaces that
    /// may have committed in the same protocol batch.
    pub fn ready_for_direct(&self, surface: u64) -> (r: bool)
        ensures
            r == self@.ready(set![surface]),
            r == self@.ready_direct(surface, 0),
    {
        self.ready_for_direct_since(surface, 0)
    }

    pub fn ready_for_direct_since(&self, surface: u64, revision: u64) -> (r: bool)
        ensures
            r == self@.ready_since(set![surface], revision),
            r == self@.ready_direct(surface, revision),
    {
        let mut selected: HashSet<u64> = HashSet::new();
        selected.insert(surface);
        proof {
            assert(selected@ =~= set![surface]);
        }
        self.any_matters(&selected, revision)
    }

    pub fn accepted_direct(&mut self, surface: u64) -> (r: bool)
        ensures
            r == old(self)@.ready(set![surface]),
            r == old(self)@.ready_direct(surface, 0),
            final(self)@ == old(self)@.accepted(set![surface]),
            final(self)@.well_formed(),
    {
        let ready: bool = self.ready_for_direct(surface);
        self.previously_visible.clear();
        self.previously_visible.insert(surface);
        self.pending.clear();
        proof {
            assert(self@.visible =~= set![surface]);
        }
        ready
    }
}

/// The elements of a scene that were presented.
fn presented_ids(scene: &[SceneElement]) -> (r: HashSet<u64>)
    ensures
        r@ == presented(scene@),
{
    let mut r: HashSet<u64> = HashSet::new();
    let mut i: usize = 0;
    while i < scene.len()
        invariant
            i <= scene@.len(),
            forall|id: u64| #[trigger]
                r@.contains(id) <==> exists|k: int|
                    0 <= k < i && scene@[k] == (SceneElement { id, presented: true }),
        decreases scene@.len() - i,
    {
        let ghost before = r@;
        if scene[i].presented {
            r.insert(scene[i].id);
        }
        proof {
            assert forall|id: u64| #[trigger] r@.contains(id) <==> exists|k: int|
                0 <= k < i + 1 && scene@[k] == (SceneElement { id, presented: true }) by {
                let element = SceneElement { id, presented: true };
                if before.contains(id) {
                    let k = choose|k: int| 0 <= k < i && scene@[k] == element;
                    assert(scene@[k] == element);
                }
                if scene@[i as int] == element {
                    assert(r@.contains(id));
                }
            }
        }
        i = i + 1;
    }
    proof {
        assert(r@ =~= presented(scene@));
    }
    r
}

/// A frame that was accepted is not replayed: right after, no scene is ready.
pub proof fn lemma_accepted_content_is_not_replayed(
    pending: Pending,
    shown: Set<u64>,
    next: Set<u64>,
    since: u64,
)
    ensures
        !pending.accepted(shown).ready_since(next, since),
{
}

/// Content that was pending before a revision was read never counts as newer than it.
pub proof fn lemma_older_content_is_not_newer(pending: Pending, shown: Set<u64>)
    requires
        pending.well_formed(),
    ensures
        !pending.ready_since(shown, pending.revision),
{
}

/// What is ready since a revision is ready since every earlier one.
pub proof fn lemma_readiness_grows_backwards(pending: Pending, shown: Set<u64>, earlier: u64, later: u64)
    requires
        earlier <= later,
        pending.ready_since(shown, later),
    ensures
        pending.ready_since(shown, earlier),
{
    let id = choose|id: u64| pending.matters(id, shown, later);
    assert(pending.matters(id, shown, earlier));
}

/// Commits without content change nothing, not even the revision.
pub proof fn lemma_callbacks_are_not_content(pending: Pending, tree: Seq<SurfaceCommit>)
    requires
        forall|i: int| 0 <= i < tree.len() ==> !(#[trigger] tree[i]).has_content(),
    ensures
        pending.observed(tree) == pending,
    decreases tree.len(),
{
    if tree.len() > 0 {
        lemma_callbacks_are_not_content(pending, tree.drop_last());
        assert(!tree[tree.len() - 1].has_content());
    }
}

proof fn lemma_contents_grow(tree: Seq<SurfaceCommit>, n: int)
    requires
        0 <= n <= tree.len(),
    ensures
        contents(tree.take(n)) <= contents(tree),
    decreases tree.len(),
{
    if n < tree.len() {
        lemma_contents_grow(tree.drop_last(), n);
        assert(tree.drop_last().take(n) =~= tree.take(n));
    } else {
        assert(tree.take(n) =~= tree);
    }
}

/// Counts the surfaces of a tree that show something new.
pub fn count_contents(tree: &[SurfaceCommit]) -> (r: usize)
    ensures
        r == contents(tree@),
{
    let mut r: usize = 0;
    let mut i: usize = 0;
    proof {
        assert(tree@.take(0) =~= Seq::<SurfaceCommit>::empty());
    }
    while i < tree.len()
        invariant
            r <= i <= tree@.len(),
            r == contents(tree@.take(i as int)),
        decreases tree@.len() - i,
    {
        proof {
            assert(tree@.take(i + 1).drop_last() =~= tree@.take(i as int));
        }
        if tree[i].buffer.is_some() || tree[i].damaged {
            r = r + 1;
        }
        i = i + 1;
    }
    proof {
        assert(tree@.take(tree@.len() as int) =~= tree@);
    }
    r
}

/// A batch of commits drops nothing: what was pending stays pending, a removal is remembered,
/// and each surface with content advances the revision by one.
pub proof fn lemma_observed_grows(pending: Pending, tree: Seq<SurfaceCommit>)
    requires
        pending.revision + contents(tree) <= u64::MAX,
    ensures
        pending.observed(tree).revision == pending.revision + contents(tree),
        pending.observed(tree).visible == pending.visible,
        forall|id: u64|
            pending.updates.contains_key(id) ==> #[trigger] pending.observed(tree).updates.contains_key(
                id,
            ),
        forall|id: u64| #[trigger]
            pending.updates.contains_key(id) && pending.updates[id].removed ==> pending.observed(
                tree,
            ).updates[id].removed,
    decreases tree.len(),
{
    if tree.len() > 0 {
        lemma_observed_grows(pending, tree.drop_last());
    }
}

/// What makes a scene ready keeps it ready through later commits, until a frame is accepted.
pub proof fn lemma_readiness_survives_commits(
    pending: Pending,
    tree: Seq<SurfaceCommit>,
    shown: Set<u64>,
    since: u64,
)
    requires
        pending.well_formed(),
        pending.revision + contents(tree) <= u64::MAX,
        pending.ready_since(shown, since),
    ensures
        pending.observed(tree).ready_since(shown, since),
{
    lemma_observed_grows(pending, tree);
    lemma_revisions_grow(pending, tree);
    let id = choose|id: u64| pending.matters(id, shown, since);
    assert(pending.updates.contains_key(id));
    assert(pending.observed(tree).matters(id, shown, since));
}

proof fn lemma_revisions_grow(pending: Pending, tree: Seq<SurfaceCommit>)
    requires
        pending.well_formed(),
        pending.revision + contents(tree) <= u64::MAX,
    ensures
        pending.observed(tree).well_formed(),
        forall|id: u64| #[trigger]
            pending.updates.contains_key(id) ==> pending.observed(tree).updates[id].revision
                >= pending.updates[id].revision,
    decreases tree.len(),
{
    if tree.len() > 0 {
        lemma_revisions_grow(pending, tree.drop_last());
        lemma_observed_grows(pending, tree.drop_last());
    }
}

/// Content of a surface that a scene shows makes the scene ready, whatever else the same
/// batch holds, and counts as newer than the revision before the batch.
pub proof fn lemma_visible_content_is_ready(
    pending: Pending,
    tree: Seq<SurfaceCommit>,
    i: int,
    shown: Set<u64>,
)
    requires
        pending.revision + contents(tree) <= u64::MAX,
        0 <= i < tree.len(),
        tree[i].has_content(),
        shown.contains(tree[i].id),
    ensures
        pending.observed(tree).ready_since(shown, pending.revision),
    decreases tree.len(),
{
    let id = tree[i].id;
    lemma_content_is_pending(pending, tree, i);
    assert(pending.observed(tree).matters(id, shown, pending.revision));
}

proof fn lemma_content_is_pending(pending: Pending, tree: Seq<SurfaceCommit>, i: int)
    requires
        pending.revision + contents(tree) <= u64::MAX,
        0 <= i < tree.len(),
        tree[i].has_content(),
    ensures
        pending.observed(tree).updates.contains_key(tree[i].id),
        pending.observed(tree).updates[tree[i].id].revision > pending.revision,
    decreases tree.len(),
{
    let rest = tree.drop_last();
    lemma_observed_grows(pending, rest);
    if i < rest.len() {
        assert(rest[i] == tree[i]);
        lemma_content_is_pending(pending, rest, i);
    }
}

/// Any number of commits of one surface count as one update of the latest revision.
pub proof fn lemma_commits_coalesce(pending: Pending, tree: Seq<SurfaceCommit>, id: u64)
    requires
        pending.revision + tree.len() <= u64::MAX,
        tree.len() > 0,
        forall|i: int| 0 <= i < tree.len() ==> (#[trigger] tree[i]).id == id && tree[i].has_content(),
    ensures
        pending.observed(tree).updates.dom() == pending.updates.dom().insert(id),
        pending.observed(tree).updates[id].revision == pending.revision + tree.len(),
        pending.observed(tree).revision == pending.revision + tree.len(),
    decreases tree.len(),
{
    reveal_with_fuel(Pending::observed, 2);
    let rest = tree.drop_last();
    assert(tree[tree.len() - 1].id == id);
    if rest.len() > 0 {
        lemma_commits_coalesce(pending, rest, id);
    }
    assert(pending.observed(tree).updates.dom() =~= pending.updates.dom().insert(id));
}

/// The end of a surface that the last frame showed makes every scene ready.
pub proof fn lemma_destroying_visible_content_repaints(pending: Pending, id: u64, shown: Set<u64>)
    requires
        pending.revision < u64::MAX,
        pending.visible.contains(id),
    ensures
        pending.without(id).ready(shown),
        pending.without(id).ready_since(shown, pending.revision),
{
    assert(pending.without(id).matters(id, shown, 0));
    assert(pending.without(id).matters(id, shown, pending.revision));
}

/// Content that a scene does not show, and that no earlier frame showed, does not make the
/// scene ready.
pub proof fn lemma_hidden_content_is_not_ready(pending: Pending, shown: Set<u64>, since: u64)
    requires
        forall|id: u64| #[trigger]
            pending.updates.contains_key(id) ==> !shown.contains(id) && !pending.visible.contains(id),
    ensures
        !pending.ready_since(shown, since),
{
}

/// Attaching or removing a buffer suffices for content, and so does damage, whether or not the
/// other comes with it: a scene that shows the surface is ready since the revision before the
/// commit, and the revision grew.
pub proof fn lemma_buffers_and_damage_are_content(
    pending: Pending,
    tree: Seq<SurfaceCommit>,
    i: int,
    shown: Set<u64>,
)
    requires
        pending.revision + tree.len() <= u64::MAX,
        0 <= i < tree.len(),
        tree[i].buffer is Some || tree[i].damaged,
        shown.contains(tree[i].id),
    ensures
        pending.observed(tree).ready_since(shown, pending.revision),
        pending.observed(tree).ready(shown),
        pending.observed(tree).revision > pending.revision,
{
    lemma_contents_are_surfaces(tree);
    lemma_visible_content_is_ready(pending, tree, i, shown);
    lemma_readiness_grows_backwards(pending.observed(tree), shown, 0, pending.revision);
    lemma_content_is_pending(pending, tree, i);
    lemma_observed_grows(pending, tree);
    lemma_contents_grow(tree, i + 1);
    assert(tree.take(i + 1).last() == tree[i]);
}

/// A tree whose surfaces have neither a buffer attached or removed nor damage changes nothing.
pub proof fn lemma_nothing_else_is_content(pending: Pending, tree: Seq<SurfaceCommit>)
    requires
        forall|i: int|
            0 <= i < tree.len() ==> (#[trigger] tree[i]).buffer is None && !tree[i].damaged,
    ensures
        pending.observed(tree) == pending,
{
    lemma_callbacks_are_not_content(pending, tree);
}

/// No more surfaces have content than there are; each that has a buffer attached or removed, or
/// damage, counts.
pub proof fn lemma_contents_are_surfaces(tree: Seq<SurfaceCommit>)
    ensures
        contents(tree) <= tree.len(),
        contents(tree) == tree.filter(|commit: SurfaceCommit| commit.buffer is Some || commit.damaged).len(),
    decreases tree.len(),
{
    reveal(Seq::filter);
    if tree.len() > 0 {
        lemma_contents_are_surfaces(tree.drop_last());
    }
}

/// What a surface removes must be painted over: a removed buffer of a surface that the last
/// frame showed makes every scene ready, even one that does not show the surface, and commits
/// that follow do not take that back.
pub proof fn lemma_removed_content_is_painted_over(
    pending: Pending,
    tree: Seq<SurfaceCommit>,
    i: int,
    shown: Set<u64>,
)
    requires
        pending.well_formed(),
        pending.revision + tree.len() <= u64::MAX,
        0 <= i < tree.len(),
        tree[i].buffer == Some(BufferAssignment::Removed),
        pending.visible.contains(tree[i].id),
    ensures
        pending.observed(tree).ready_since(shown, pending.revision),
{
    lemma_contents_are_surfaces(tree);
    lemma_content_is_pending(pending, tree, i);
    lemma_observed_grows(pending, tree);
    lemma_removal_is_remembered(pending, tree, i);
    assert(pending.observed(tree).matters(tree[i].id, shown, pending.revision));
}

proof fn lemma_removal_is_remembered(pending: Pending, tree: Seq<SurfaceCommit>, i: int)
    requires
        0 <= i < tree.len(),
        tree[i].buffer == Some(BufferAssignment::Removed),
    ensures
        pending.observed(tree).updates.contains_key(tree[i].id),
        pending.observed(tree).updates[tree[i].id].removed,
    decreases tree.len(),
{
    let rest = tree.drop_last();
    if i < rest.len() {
        assert(rest[i] == tree[i]);
        lemma_removal_is_remembered(pending, rest, i);
    }
}

/// New buffers and damage remove nothing: a scene that does not show the surface is not ready
/// on their account, even if the last frame showed it.
pub proof fn lemma_new_content_removes_nothing(
    pending: Pending,
    tree: Seq<SurfaceCommit>,
    shown: Set<u64>,
    since: u64,
)
    requires
        pending.updates.len() == 0,
        pending.updates.dom().finite(),
        forall|i: int|
            0 <= i < tree.len() ==> (#[trigger] tree[i]).buffer != Some(BufferAssignment::Removed)
                && !shown.contains(tree[i].id),
    ensures
        !pending.observed(tree).ready_since(shown, since),
{
    assert(pending.updates.dom() =~= Set::<u64>::empty());
    lemma_nothing_is_removed(pending, tree);
    let after = pending.observed(tree);
    assert forall|id: u64| !after.matters(id, shown, since) by {
        if after.updates.contains_key(id) {
            let i = choose|i: int| 0 <= i < tree.len() && (#[trigger] tree[i]).id == id;
            assert(!shown.contains(tree[i].id));
        }
    }
}

proof fn lemma_nothing_is_removed(pending: Pending, tree: Seq<SurfaceCommit>)
    requires
        forall|id: u64| !pending.updates.contains_key(id),
        forall|i: int|
            0 <= i < tree.len() ==> (#[trigger] tree[i]).buffer != Some(BufferAssignment::Removed),
    ensures
        forall|id: u64| #[trigger]
            pending.observed(tree).updates.contains_key(id) ==> !pending.observed(
                tree,
            ).updates[id].removed && exists|i: int|
                0 <= i < tree.len() && (#[trigger] tree[i]).id == id,
    decreases tree.len(),
{
    if tree.len() > 0 {
        let rest = tree.drop_last();
        assert forall|i: int| 0 <= i < rest.len() implies (#[trigger] rest[i]).buffer != Some(
            BufferAssignment::Removed,
        ) by {
            assert(rest[i] == tree[i]);
        }
        lemma_nothing_is_removed(pending, rest);
        assert(tree[tree.len() - 1] == tree.last());
        assert forall|id: u64| #[trigger]
            pending.observed(tree).updates.contains_key(id) implies !pending.observed(
            tree,
        ).updates[id].removed && exists|i: int| 0 <= i < tree.len() && (#[trigger] tree[i]).id == id by {
            if pending.observed(rest).updates.contains_key(id) {
                let i = choose|i: int| 0 <= i < rest.len() && (#[trigger] rest[i]).id == id;
                assert(tree[i].id == id);
            }
        }
    }
}

/// A surface that is gone is forgotten, unless the last frame showed it; whatever else is
/// pending stays.
pub proof fn lemma_what_a_destroyed_surface_leaves(pending: Pending, id: u64, other: u64)
    requires
        pending.revision < u64::MAX,
    ensures
        pending.without(id).updates.contains_key(id) <==> pending.visible.contains(id),
        pending.without(id).revision == pending.revision + if pending.visible.contains(id) {
            1int
        } else {
            0
        },
        pending.without(id).visible == pending.visible,
        other != id ==> (pending.without(id).updates.contains_key(other)
            <==> pending.updates.contains_key(other)),
        other != id && pending.updates.contains_key(other) ==> pending.without(id).updates[other]
            == pending.updates[other],
{
}

/// An accepted frame consumes what is pending, remembers what it showed and advances no
/// revision. What is committed later makes a scene ready again.
pub proof fn lemma_accepting_starts_over(pending: Pending, shown: Set<u64>, id: u64)
    ensures
        pending.accepted(shown).visible == shown,
        pending.accepted(shown).revision == pending.revision,
        !pending.accepted(shown).updates.contains_key(id),
        pending.accepted(shown).well_formed(),
{
}

/// A scene shows an element exactly if the renderer presented it.
pub proof fn lemma_presented_elements(scene: Seq<SceneElement>, id: u64)
    ensures
        presented(scene).contains(id) <==> exists|i: int|
            0 <= i < scene.len() && (#[trigger] scene[i]).id == id && scene[i].presented,
{
    let element = SceneElement { id, presented: true };
    if presented(scene).contains(id) {
        assert(scene.contains(element));
        let i = scene.index_of(element);
        assert(scene[i].id == id && scene[i].presented);
    }
    if exists|i: int| 0 <= i < scene.len() && (#[trigger] scene[i]).id == id && scene[i].presented {
        let i = choose|i: int|
            0 <= i < scene.len() && (#[trigger] scene[i]).id == id && scene[i].presented;
        assert(scene[i] == element);
    }
}

/// Direct capture looks at the selected surface alone: content of that surface makes it ready,
/// content of other surfaces does not, unless it removes what the last frame showed.
pub proof fn lemma_direct_capture_has_one_surface(
    pending: Pending,
    surface: u64,
    since: u64,
)
    ensures
        pending.updates.contains_key(surface) && pending.updates[surface].revision > since
            ==> pending.ready_direct(surface, since),
        (pending.updates.contains_key(surface) ==> pending.updates[surface].revision <= since) && (
        forall|id: u64| #[trigger]
            pending.updates.contains_key(id) ==> !pending.updates[id].removed
                || !pending.visible.contains(id) || pending.updates[id].revision <= since)
            ==> !pending.ready_direct(surface, since),
        forall|id: u64| #[trigger]
            pending.updates.contains_key(id) && pending.updates[id].removed
                && pending.visible.contains(id) && pending.updates[id].revision > since
                ==> pending.ready_direct(surface, since),
{
    let shown = set![surface];
    if pending.updates.contains_key(surface) && pending.updates[surface].revision > since {
        assert(shown.contains(surface));
        assert(pending.matters(surface, shown, since));
    }
    assert forall|id: u64| #[trigger]
        pending.updates.contains_key(id) && pending.updates[id].removed && pending.visible.contains(
            id,
        ) && pending.updates[id].revision > since implies pending.ready_direct(surface, since) by {
        assert(pending.matters(id, shown, since));
    }
}

/// A scene is ready exactly if some surface has content that was applied since, and the scene
/// shows the surface, or the surface was shown before and its buffer is gone.
pub proof fn lemma_when_a_scene_is_ready(pending: Pending, id: u64, shown: Set<u64>, since: u64)
    requires
        pending.updates.contains_key(id),
        pending.updates[id].revision > since,
    ensures
        shown.contains(id) ==> pending.ready_since(shown, since),
        pending.updates[id].removed && pending.visible.contains(id) ==> pending.ready_since(
            shown,
            since,
        ),
        (forall|other: u64| #[trigger] pending.updates.contains_key(other) ==> other == id)
            && !shown.contains(id) && !(pending.updates[id].removed && pending.visible.contains(id))
            ==> !pending.ready_since(shown, since),
{
    if shown.contains(id) || (pending.updates[id].removed && pending.visible.contains(id)) {
        assert(pending.matters(id, shown, since));
    }
}

/// A commit touches nothing but its own surface, whose update gets the newest revision and
/// remembers a removal, and not what the last frame showed.
pub proof fn lemma_what_a_commit_touches(pending: Pending, commit: SurfaceCommit, other: u64)
    requires
        pending.revision < u64::MAX,
    ensures
        ({
            let after = pending.observed(seq![commit]);
            &&& after.visible == pending.visible
            &&& other != commit.id ==> (after.updates.contains_key(other)
                <==> pending.updates.contains_key(other))
            &&& other != commit.id && pending.updates.contains_key(other) ==> after.updates[other]
                == pending.updates[other]
            &&& commit.buffer is Some || commit.damaged ==> {
                &&& after.updates.contains_key(commit.id)
                &&& after.updates[commit.id].revision == after.revision
                &&& after.revision == pending.revision + 1
                &&& after.updates[commit.id].removed <==> commit.buffer == Some(
                    BufferAssignment::Removed,
                ) || (pending.updates.contains_key(commit.id)
                    && pending.updates[commit.id].removed)
            }
        }),
{
    let tree = seq![commit];
    assert(tree.drop_last() =~= Seq::<SurfaceCommit>::empty());
    assert(pending.observed(tree.drop_last()) == pending);
}

/// The surfaces of a tree are looked at one after another, in their order.
pub proof fn lemma_surfaces_are_looked_at_in_order(
    pending: Pending,
    tree: Seq<SurfaceCommit>,
    commit: SurfaceCommit,
)
    ensures
        pending.observed(Seq::empty()) == pending,
        pending.observed(tree.push(commit)) == pending.observed(tree).observed(seq![commit]),
{
    let one = seq![commit];
    assert(tree.push(commit).drop_last() =~= tree);
    assert(one.drop_last() =~= Seq::<SurfaceCommit>::empty());
    assert(pending.observed(tree).observed(one.drop_last()) == pending.observed(tree));
}

/// A scene that presents an element whose surface has newer content is ready. One that does not
/// present it is not ready on its account, and neither is one that is given before its content.
pub proof fn lemma_scenes_show_what_is_presented(
    pending: Pending,
    scene: Seq<SceneElement>,
    i: int,
    since: u64,
)
    requires
        0 <= i < scene.len(),
        pending.updates.contains_key(scene[i].id),
    ensures
        scene[i].presented && pending.updates[scene[i].id].revision > since ==> pending.ready_scene(
            scene,
            since,
        ),
        (forall|k: int| 0 <= k < scene.len() ==> !(#[trigger] scene[k]).presented) && (forall|id: u64|
            #[trigger] pending.updates.contains_key(id) ==> !pending.updates[id].removed)
            ==> !pending.ready_scene(scene, since),
{
    lemma_presented_elements(scene, scene[i].id);
    if scene[i].presented && pending.updates[scene[i].id].revision > since {
        assert(pending.matters(scene[i].id, presented(scene), since));
    }
    if forall|k: int| 0 <= k < scene.len() ==> !(#[trigger] scene[k]).presented {
        assert forall|id: u64| !presented(scene).contains(id) by {
            lemma_presented_elements(scene, id);
        }
    }
}

/// An accepted frame showed what its scene presented, and nothing else; nothing is pending
/// after it.
pub proof fn lemma_accepted_scenes_are_remembered(
    pending: Pending,
    scene: Seq<SceneElement>,
    id: u64,
)
    ensures
        pending.accepted_scene(scene).visible.contains(id) <==> exists|i: int|
            0 <= i < scene.len() && (#[trigger] scene[i]).id == id && scene[i].presented,
        !pending.accepted_scene(scene).updates.contains_key(id),
        pending.accepted_scene(scene).revision == pending.revision,
        !pending.accepted_scene(scene).ready_scene(scene, 0),
{
    lemma_presented_elements(scene, id);
}

/// The commit of a synchronized child changes nothing, whatever it holds. Any other counts with
/// all that it latched.
pub proof fn lemma_synchronized_children_wait(
    pending: Pending,
    tree: Seq<SurfaceCommit>,
    i: int,
    shown: Set<u64>,
)
    requires
        pending.revision + tree.len() <= u64::MAX,
        0 <= i < tree.len(),
    ensures
        pending.committed(true, tree) == pending,
        (tree[i].buffer is Some || tree[i].damaged) && shown.contains(tree[i].id)
            ==> pending.committed(false, tree).ready_since(shown, pending.revision),
{
    if (tree[i].buffer is Some || tree[i].damaged) && shown.contains(tree[i].id) {
        lemma_buffers_and_damage_are_content(pending, tree, i, shown);
    }
}

/// At first no scene is ready, whatever it presents, and nothing was shown.
pub proof fn lemma_nothing_is_ready_at_first(scene: Seq<SceneElement>, since: u64, id: u64)
    ensures
        !Pending::nothing().ready_scene(scene, since),
        !Pending::nothing().visible.contains(id),
        Pending::nothing().revision == 0,
{
}

} // verus!
