//! Commits and visibility drive the readiness decision.

use moonshine::buffer_timing::{Attachment, BufferCommit};
use moonshine::capture_trigger::{
    count_contents, BufferAssignment, CaptureTrigger, SceneElement, SurfaceCommit,
};
use moonshine::time::{Duration, Instant};

const SCREEN: (i32, i32) = (800, 600);

#[derive(Clone, Copy, PartialEq)]
enum Role {
    Plain,
    Toplevel,
    Popup,
    Child(u64),
}

struct Surface {
    id: u64,
    role: Role,
    synchronized: bool,
    position: (i32, i32),
    size: Option<(i32, i32)>,
    opaque: bool,
    cached: Vec<SurfaceCommit>,
}

/// A compositor reduced to what decides visibility: stacking, positions, opacity, and the
/// latching of synchronized children.
struct Harness {
    trigger: CaptureTrigger,
    surfaces: Vec<Surface>,
    replacement: Option<(u64, u32)>,
    screen_dirty: bool,
    next: u64,
}

impl Harness {
    fn new() -> Harness {
        Harness {
            trigger: CaptureTrigger::default(),
            surfaces: Vec::new(),
            replacement: None,
            screen_dirty: false,
            next: 1,
        }
    }

    fn create(&mut self, role: Role, position: (i32, i32)) -> u64 {
        let id = self.next;
        self.next += 1;
        self.surfaces.push(Surface {
            id,
            role,
            synchronized: matches!(role, Role::Child(_)),
            position,
            size: None,
            opaque: false,
            cached: Vec::new(),
        });
        id
    }

    fn toplevel(&mut self) -> u64 {
        self.create(Role::Toplevel, (0, 0))
    }

    fn popup(&mut self, place: (i32, i32, i32, i32)) -> u64 {
        self.create(Role::Popup, (place.0, place.1))
    }

    fn surface(&mut self, id: u64) -> &mut Surface {
        self.surfaces.iter_mut().find(|s| s.id == id).unwrap()
    }

    fn commit(&mut self, id: u64, buffer: Option<BufferAssignment>, damaged: bool) {
        let commit = SurfaceCommit { id, buffer, damaged };
        if self.surface(id).synchronized {
            self.surface(id).cached.push(commit);
            self.trigger.observe_commit(true, &[commit]);
            return;
        }
        let mut tree = vec![commit];
        for child in self.surfaces.iter_mut() {
            if child.role == Role::Child(id) && child.synchronized {
                tree.append(&mut child.cached);
            }
        }
        self.trigger.observe_commit(false, &tree);
    }

    fn map(&mut self, id: u64, width: i32, height: i32) {
        self.surface(id).size = Some((width, height));
        self.commit(id, Some(BufferAssignment::NewBuffer), false);
    }

    fn unmap(&mut self, id: u64) {
        self.surface(id).size = None;
        self.commit(id, Some(BufferAssignment::Removed), false);
    }

    fn damage(&mut self, id: u64) {
        self.commit(id, None, true);
    }

    fn callback(&mut self, id: u64, _number: u32) {
        self.commit(id, None, false);
    }

    fn destroy(&mut self, id: u64) {
        self.surfaces.retain(|s| s.id != id);
        if self.trigger.destroyed(id) {
            self.screen_dirty = true;
        }
    }

    fn is_replaced(&self) -> bool {
        matches!(self.replacement, Some((_, 0)))
    }

    fn scene(&self) -> Vec<SceneElement> {
        let chosen: Vec<&Surface> = self
            .surfaces
            .iter()
            .filter(|s| match s.role {
                Role::Plain => self.is_replaced() && self.replacement.unwrap().0 == s.id,
                Role::Toplevel | Role::Child(_) => !self.is_replaced(),
                Role::Popup => true,
            })
            .collect();
        let bounds = |s: &Surface| {
            let (w, h) = s.size.unwrap_or((0, 0));
            let left = s.position.0.max(0);
            let top = s.position.1.max(0);
            let right = (s.position.0 + w).min(SCREEN.0);
            let bottom = (s.position.1 + h).min(SCREEN.1);
            (left, top, right, bottom)
        };
        chosen
            .iter()
            .enumerate()
            .map(|(i, s)| {
                let (left, top, right, bottom) = bounds(s);
                let on_screen = left < right && top < bottom;
                let covered = chosen[i + 1..].iter().any(|above| {
                    let (l, t, r, b) = bounds(above);
                    above.opaque && l <= left && t <= top && r >= right && b >= bottom
                });
                SceneElement { id: s.id, presented: on_screen && !covered }
            })
            .collect()
    }

    fn accept(&mut self) -> bool {
        let scene = self.scene();
        self.trigger.accepted(&scene)
    }
}

#[test]
fn callback_only_and_sync_requests_do_not_signal_new_content() {
    let mut h = Harness::new();
    let root = h.toplevel();
    h.map(root, 800, 600);
    assert!(h.accept());
    h.callback(root, 91);
    assert!(!h.accept());
    assert!(!h.accept());
    h.damage(root);
    assert!(h.accept(), "damage without a new attachment still changes content");
    assert!(!h.accept(), "accepted damage must not be replayed");
}

#[test]
fn reattaching_the_same_buffer_is_new_content() {
    let mut h = Harness::new();
    let root = h.toplevel();
    h.map(root, 800, 600);
    assert!(h.accept());
    h.commit(root, Some(BufferAssignment::NewBuffer), false);
    assert!(h.accept());
}

#[test]
fn synchronized_children_wait_for_the_parent_and_desynchronized_children_do_not() {
    let mut h = Harness::new();
    let root = h.toplevel();
    h.map(root, 800, 600);
    assert!(h.accept());
    let child = h.create(Role::Child(root), (0, 0));
    h.map(child, 80, 60);
    assert!(!h.accept(), "cached sync-child commit is not applied");
    h.callback(root, 0);
    assert!(h.accept(), "parent latch must find the child's attachment");
    h.damage(child);
    assert!(!h.accept());
    h.callback(root, 0);
    assert!(h.accept(), "parent latch must find child damage too");
    h.surface(child).synchronized = false;
    h.damage(child);
    assert!(h.accept());
}

#[test]
fn failed_capture_queries_keep_readiness_and_multiple_commits_coalesce() {
    let mut h = Harness::new();
    let root = h.toplevel();
    h.map(root, 800, 600);
    h.damage(root);
    h.damage(root);
    let scene = h.scene();
    assert!(h.trigger.ready_for(&scene));
    assert!(h.trigger.ready_for(&scene));
    assert!(h.trigger.accepted(&scene));
    assert!(!h.trigger.ready_for(&scene));
}

#[test]
fn unmapped_and_offscreen_content_cannot_trigger_capture() {
    let mut h = Harness::new();
    let hidden = h.create(Role::Plain, (0, 0));
    h.map(hidden, 80, 60);
    assert!(!h.accept());
    let root = h.toplevel();
    h.map(root, 800, 600);
    h.surface(root).position = (1000, 1000);
    assert!(!h.accept());
}

#[test]
fn fully_occluded_content_is_ignored_but_partial_visibility_counts() {
    let mut h = Harness::new();
    let back = h.toplevel();
    h.map(back, 800, 600);
    let front = h.toplevel();
    h.surface(front).opaque = true;
    h.map(front, 800, 600);
    assert!(h.accept());
    h.damage(back);
    assert!(!h.accept());
    h.surface(front).position = (100, 0);
    h.damage(back);
    assert!(h.accept());
}

#[test]
fn popup_unmap_and_destroy_repaint_previously_visible_content() {
    let mut h = Harness::new();
    let root = h.toplevel();
    h.map(root, 800, 600);
    let popup = h.popup((40, 50, 100, 80));
    h.map(popup, 100, 80);
    assert!(h.accept());
    h.unmap(popup);
    assert!(h.accept(), "unmapping changes the previously captured scene");
    let popup = h.popup((40, 50, 100, 80));
    h.map(popup, 100, 80);
    assert!(h.accept());
    h.destroy(popup);
    assert!(h.accept());
    assert!(!h.accept());
}

#[test]
fn active_override_ignores_replaced_base_but_keeps_popup_updates() {
    let mut h = Harness::new();
    let root = h.toplevel();
    h.map(root, 800, 600);
    let popup = h.popup((40, 50, 100, 80));
    h.map(popup, 100, 80);
    let replacement = h.create(Role::Plain, (0, 0));
    h.map(replacement, 800, 600);
    h.replacement = Some((replacement, 0));
    assert!(h.accept());
    h.damage(root);
    assert!(!h.accept());
    h.damage(popup);
    assert!(h.accept());
    h.damage(replacement);
    assert!(h.accept());
}

#[test]
fn inactive_override_and_unselected_direct_buffer_do_not_signal_readiness() {
    let mut h = Harness::new();
    let root = h.toplevel();
    h.map(root, 800, 600);
    let hidden = h.create(Role::Plain, (0, 0));
    h.map(hidden, 800, 600);
    h.replacement = Some((hidden, 42));
    assert!(h.accept());
    h.damage(hidden);
    assert!(!h.accept());
    h.damage(hidden);
    assert!(!h.trigger.accepted_direct(root));
    h.damage(root);
    assert!(h.trigger.ready_for_direct(root));
    assert!(h.trigger.ready_for_direct(root));
    assert!(h.trigger.accepted_direct(root));
    assert!(!h.trigger.ready_for_direct(root));
}

#[test]
fn unrelated_dispatch_cannot_spend_a_slot_on_older_visible_content() {
    let mut h = Harness::new();
    let root = h.toplevel();
    h.map(root, 800, 600);
    assert!(h.accept());
    h.damage(root); // Arrived while the previous opportunity was spent.
    let revision = h.trigger.revision();
    let hidden = h.create(Role::Plain, (0, 0));
    h.map(hidden, 80, 60); // Unrelated content wakes the next interval's dispatch.
    let states = h.scene();
    assert!(h.trigger.revision() > revision);
    assert!(h.trigger.ready_for(&states), "older visible content remains pending");
    assert!(!h.trigger.ready_for_since(&states, revision));
    assert!(!h.trigger.ready_for_direct_since(root, revision));
    h.damage(root);
    assert!(h.trigger.ready_for_since(&states, revision));
    assert!(h.trigger.ready_for_direct_since(root, revision));
}

#[test]
fn destroyed_visible_subsurface_invalidates_even_when_capture_slot_is_spent() {
    let mut h = Harness::new();
    let root = h.toplevel();
    h.map(root, 800, 600);
    let child = h.create(Role::Child(root), (0, 0));
    h.map(child, 80, 60);
    h.callback(root, 0);
    assert!(h.accept());
    h.screen_dirty = false;
    h.destroy(child);
    assert!(h.screen_dirty, "fallback must repaint a destroyed visible child");
    let states = h.scene();
    assert!(h.trigger.ready_for(&states));
}

#[test]
fn callbacks_do_not_advance_the_revision() {
    let mut trigger = CaptureTrigger::new();
    let callback = SurfaceCommit { id: 3, buffer: None, damaged: false };
    trigger.observe_commit(false, &[callback, callback]);
    assert_eq!(trigger.revision(), 0);
    let damage = SurfaceCommit { id: 3, buffer: None, damaged: true };
    assert_eq!(count_contents(&[callback, callback]), 0);
    assert_eq!(count_contents(&[damage, callback, damage]), 2);
    trigger.observe_commit(false, &[damage, callback, damage]);
    assert_eq!(trigger.revision(), 2);
    trigger.observe_commit(true, &[damage]);
    assert_eq!(trigger.revision(), 2);
}

#[test]
fn a_removal_is_remembered_until_a_frame_is_accepted() {
    let mut trigger = CaptureTrigger::new();
    let shown = [SceneElement { id: 1, presented: true }];
    let empty: [SceneElement; 0] = [];
    let attach = SurfaceCommit { id: 1, buffer: Some(BufferAssignment::NewBuffer), damaged: false };
    let detach = SurfaceCommit { id: 1, buffer: Some(BufferAssignment::Removed), damaged: false };
    trigger.observe_commit(false, &[attach]);
    assert!(!trigger.showed(1));
    assert!(trigger.accepted(&shown));
    assert!(trigger.showed(1));
    trigger.observe_commit(false, &[detach]);
    trigger.observe_commit(false, &[attach]);
    assert!(trigger.ready_for(&empty));
    assert!(trigger.accepted(&empty));
    trigger.observe_commit(false, &[detach]);
    assert!(!trigger.ready_for(&empty), "nothing was visible any more");
}

#[test]
fn destroying_hidden_content_forgets_it() {
    let mut trigger = CaptureTrigger::new();
    let damage = SurfaceCommit { id: 9, buffer: None, damaged: true };
    trigger.observe_commit(false, &[damage]);
    assert!(!trigger.destroyed(9));
    assert!(!trigger.ready_for_direct(9));
    assert_eq!(trigger.revision(), 1);
}

#[test]
fn buffer_age_belongs_to_the_applied_attachment() {
    let mut timing = BufferCommit::new();
    let at = |millis: u128| Instant { nanos: millis * 1_000_000 };
    assert_eq!(timing.age(5, at(10)), None);
    timing.record(true, Some(Attachment::NewBuffer(5)), at(1));
    assert_eq!(timing.age(5, at(10)), None, "a synchronized child is left out");
    timing.record(false, Some(Attachment::NewBuffer(5)), at(2));
    timing.record(false, None, at(4));
    assert_eq!(timing.age(5, at(10)), Some(Duration::from_millis(8)));
    assert_eq!(timing.age(6, at(10)), None);
    assert_eq!(timing.age(5, at(1)), Some(Duration::zero()));
    timing.record(false, Some(Attachment::Removed), at(11));
    assert_eq!(timing.age(5, at(12)), None);
}
