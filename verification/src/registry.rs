//! Which capture handles sit at which position: several handles may share a
//! position, and the backend keeps one barrier per occupied position. Some
//! handles exist only to return an incoming emulated pointer ("enter-only");
//! a position is marked enter-only while it has at least one such handle.
use std::collections::{HashMap, HashSet, VecDeque};
use vstd::prelude::*;

use crate::capture::{route_handles, CaptureEventKind};
use crate::Position;

verus! {

/// The identifier of a capture.
pub type CaptureHandle = u64;

pub open spec fn opt_seq(o: Option<Vec<u64>>) -> Option<Seq<u64>> {
    match o {
        Some(v) => Some(v@),
        None => None,
    }
}

/// Whether a handle is not `id`.
pub open spec fn not_id(id: u64) -> spec_fn(u64) -> bool {
    |h: u64| h != id
}

/// `s` without `id`.
pub open spec fn without(s: Seq<u64>, id: u64) -> Seq<u64> {
    s.filter(not_id(id))
}

/// The handles at each position and the enter-only bookkeeping.
#[derive(Debug)]
pub struct CaptureRegistry {
    id_map: HashMap<u64, Position>,
    left: Option<Vec<u64>>,
    right: Option<Vec<u64>>,
    top: Option<Vec<u64>>,
    bottom: Option<Vec<u64>>,
    enter_only_handles: HashSet<u64>,
    enter_left: usize,
    enter_right: usize,
    enter_top: usize,
    enter_bottom: usize,
}

impl CaptureRegistry {
    /// The position of each known handle.
    pub closed spec fn positions(self) -> Map<u64, Position> {
        self.id_map@
    }

    /// The handles at `p`, in the order they were added; none once the
    /// position is free.
    pub closed spec fn handles(self, p: Position) -> Option<Seq<u64>> {
        match p {
            Position::Left => opt_seq(self.left),
            Position::Right => opt_seq(self.right),
            Position::Top => opt_seq(self.top),
            Position::Bottom => opt_seq(self.bottom),
        }
    }

    /// The enter-only handles.
    pub closed spec fn enter_only(self) -> Set<u64> {
        self.enter_only_handles@
    }

    /// The number of enter-only handles counted at `p`.
    pub closed spec fn enter_count(self, p: Position) -> nat {
        match p {
            Position::Left => self.enter_left as nat,
            Position::Right => self.enter_right as nat,
            Position::Top => self.enter_top as nat,
            Position::Bottom => self.enter_bottom as nat,
        }
    }

    /// `after` is `before` with `id` added at `pos`.
    pub open spec fn added_handle(before: Self, after: Self, id: u64, pos: Position) -> bool {
        &&& after.positions() == before.positions().insert(id, pos)
        &&& after.handles(pos) == Some(
            match before.handles(pos) {
                Some(v) => v.push(id),
                None => seq![id],
            },
        )
        &&& forall|p: Position| p != pos ==> #[trigger] after.handles(p) == before.handles(p)
        &&& after.enter_only() == before.enter_only()
        &&& forall|p: Position| #[trigger] after.enter_count(p) == before.enter_count(p)
    }

    /// `after` is `before` with `id` counted as enter-only at `pos`.
    pub open spec fn added_enter_only(before: Self, after: Self, id: u64, pos: Position) -> bool {
        &&& after.positions() == before.positions()
        &&& forall|p: Position| #[trigger] after.handles(p) == before.handles(p)
        &&& after.enter_only() == before.enter_only().insert(id)
        &&& after.enter_count(pos) == before.enter_count(pos) + 1
        &&& forall|p: Position| p != pos ==> #[trigger] after.enter_count(p) == before.enter_count(p)
    }

    /// `after` is `before` with `id`, which was at `pos`, forgotten, and no
    /// longer counted as enter-only if it was.
    pub open spec fn took_handle(before: Self, after: Self, id: u64, pos: Position) -> bool {
        &&& before.positions().contains_key(id)
        &&& pos == before.positions()[id]
        &&& after.positions() == before.positions().remove(id)
        &&& forall|p: Position| #[trigger] after.handles(p) == before.handles(p)
        &&& after.enter_only() == before.enter_only().remove(id)
        &&& after.enter_count(pos) == if before.enter_only().contains(id) {
            (before.enter_count(pos) - 1) as nat
        } else {
            before.enter_count(pos)
        }
        &&& forall|p: Position| p != pos ==> #[trigger] after.enter_count(p) == before.enter_count(p)
    }

    /// `after` is `before` with `id` dropped from the handles at `pos`, the
    /// position freed when none is left.
    pub open spec fn dropped_handle(before: Self, after: Self, id: u64, pos: Position) -> bool {
        &&& before.handles(pos) is Some
        &&& after.handles(pos) == if without(before.handles(pos)->0, id).len() == 0 {
            None
        } else {
            Some(without(before.handles(pos)->0, id))
        }
        &&& forall|p: Position| p != pos ==> #[trigger] after.handles(p) == before.handles(p)
        &&& after.positions() == before.positions()
        &&& after.enter_only() == before.enter_only()
        &&& forall|p: Position| #[trigger] after.enter_count(p) == before.enter_count(p)
    }

    /// No handle, no position taken.
    pub fn new() -> (r: CaptureRegistry)
        ensures
            r.positions() == Map::<u64, Position>::empty(),
            forall|p: Position| #[trigger] r.handles(p) is None,
            r.enter_only() == Set::<u64>::empty(),
            forall|p: Position| #[trigger] r.enter_count(p) == 0,
    {
        CaptureRegistry {
            id_map: HashMap::new(),
            left: None,
            right: None,
            top: None,
            bottom: None,
            enter_only_handles: HashSet::new(),
            enter_left: 0,
            enter_right: 0,
            enter_top: 0,
            enter_bottom: 0,
        }
    }

    fn take_slot(&mut self, pos: Position) -> (r: Option<Vec<u64>>)
        ensures
            r == old(self).handles_slot(pos),
            final(self).handles_slot(pos) is None,
            forall|p: Position| p != pos ==> #[trigger] final(self).handles_slot(p) == old(self).handles_slot(p),
            final(self).id_map == old(self).id_map,
            final(self).enter_only_handles == old(self).enter_only_handles,
            final(self).enter_left == old(self).enter_left,
            final(self).enter_right == old(self).enter_right,
            final(self).enter_top == old(self).enter_top,
            final(self).enter_bottom == old(self).enter_bottom,
    {
        match pos {
            Position::Left => {
                let r = self.left.take();
                r
            },
            Position::Right => {
                let r = self.right.take();
                r
            },
            Position::Top => {
                let r = self.top.take();
                r
            },
            Position::Bottom => {
                let r = self.bottom.take();
                r
            },
        }
    }

    fn put_slot(&mut self, pos: Position, v: Option<Vec<u64>>)
        ensures
            final(self).handles_slot(pos) == v,
            forall|p: Position| p != pos ==> #[trigger] final(self).handles_slot(p) == old(self).handles_slot(p),
            final(self).id_map == old(self).id_map,
            final(self).enter_only_handles == old(self).enter_only_handles,
            final(self).enter_left == old(self).enter_left,
            final(self).enter_right == old(self).enter_right,
            final(self).enter_top == old(self).enter_top,
            final(self).enter_bottom == old(self).enter_bottom,
    {
        match pos {
            Position::Left => self.left = v,
            Position::Right => self.right = v,
            Position::Top => self.top = v,
            Position::Bottom => self.bottom = v,
        }
    }

    closed spec fn handles_slot(self, p: Position) -> Option<Vec<u64>> {
        match p {
            Position::Left => self.left,
            Position::Right => self.right,
            Position::Top => self.top,
            Position::Bottom => self.bottom,
        }
    }

    /// Record the new handle `id` at `pos`. Returns whether `pos` was free,
    /// in which case the backend must now create its barrier.
    pub fn add_handle(&mut self, id: u64, pos: Position) -> (first: bool)
        requires
            !old(self).positions().contains_key(id),
        ensures
            Self::added_handle(*old(self), *final(self), id, pos),
            first == old(self).handles(pos) is None,
    {
        broadcast use vstd::std_specs::hash::group_hash_axioms;

        self.id_map.insert(id, pos);
        let ghost mid = *self;
        let slot = self.take_slot(pos);
        let first = match slot {
            Some(mut v) => {
                v.push(id);
                self.put_slot(pos, Some(v));
                false
            },
            None => {
                self.put_slot(pos, Some(vec![id]));
                true
            },
        };
        proof {
            assert forall|p: Position| p != pos implies #[trigger] self.handles(p) == old(self).handles(p) by {
                assert(self.handles_slot(p) == mid.handles_slot(p));
                match p {
                    Position::Left => {},
                    Position::Right => {},
                    Position::Top => {},
                    Position::Bottom => {},
                }
            }
            match pos {
                Position::Left => {},
                Position::Right => {},
                Position::Top => {},
                Position::Bottom => {},
            }
            assert forall|p: Position| #[trigger] self.enter_count(p) == old(self).enter_count(p) by {
                match p {
                    Position::Left => {},
                    Position::Right => {},
                    Position::Top => {},
                    Position::Bottom => {},
                }
            }
            assert(self.positions() == old(self).positions().insert(id, pos));
            assert(self.enter_only() == old(self).enter_only());
            assert(self.handles(pos) == Some(
                match old(self).handles(pos) {
                    Some(v) => v.push(id),
                    None => seq![id],
                },
            ));
        }
        first
    }

    /// Count the handle `id` at `pos` as enter-only. Returns whether it is
    /// the first there, in which case the backend must now mark `pos`.
    pub fn add_enter_only(&mut self, id: u64, pos: Position) -> (first: bool)
        requires
            old(self).enter_count(pos) < usize::MAX,
        ensures
            Self::added_enter_only(*old(self), *final(self), id, pos),
            first == (final(self).enter_count(pos) == 1),
    {
        broadcast use vstd::std_specs::hash::group_hash_axioms;

        self.enter_only_handles.insert(id);
        let count = match pos {
            Position::Left => {
                self.enter_left = self.enter_left + 1;
                self.enter_left
            },
            Position::Right => {
                self.enter_right = self.enter_right + 1;
                self.enter_right
            },
            Position::Top => {
                self.enter_top = self.enter_top + 1;
                self.enter_top
            },
            Position::Bottom => {
                self.enter_bottom = self.enter_bottom + 1;
                self.enter_bottom
            },
        };
        proof {
            assert forall|p: Position| #[trigger] self.handles(p) == old(self).handles(p) by {
                match p {
                    Position::Left => {},
                    Position::Right => {},
                    Position::Top => {},
                    Position::Bottom => {},
                }
            }
            assert forall|p: Position| p != pos implies #[trigger] self.enter_count(p) == old(self).enter_count(p) by {
                match p {
                    Position::Left => {},
                    Position::Right => {},
                    Position::Top => {},
                    Position::Bottom => {},
                }
            }
        }
        count == 1
    }

    /// Forget the handle `id`, and return its position and whether that
    /// position just lost its last enter-only handle, in which case the
    /// backend must unmark it.
    pub fn take_handle(&mut self, id: u64) -> (r: (Position, bool))
        requires
            old(self).positions().contains_key(id),
            old(self).enter_only().contains(id) ==> old(self).enter_count(old(self).positions()[id]) > 0,
        ensures
            Self::took_handle(*old(self), *final(self), id, r.0),
            r.1 == (old(self).enter_only().contains(id) && final(self).enter_count(r.0) == 0),
    {
        broadcast use vstd::std_specs::hash::group_hash_axioms;

        let pos = match self.id_map.remove(&id) {
            Some(p) => p,
            None => {
                assert(false);
                Position::Left
            },
        };
        let was_enter_only = self.enter_only_handles.remove(&id);
        let mut disable = false;
        if was_enter_only {
            let count = match pos {
                Position::Left => {
                    self.enter_left = self.enter_left - 1;
                    self.enter_left
                },
                Position::Right => {
                    self.enter_right = self.enter_right - 1;
                    self.enter_right
                },
                Position::Top => {
                    self.enter_top = self.enter_top - 1;
                    self.enter_top
                },
                Position::Bottom => {
                    self.enter_bottom = self.enter_bottom - 1;
                    self.enter_bottom
                },
            };
            disable = count == 0;
        }
        proof {
            assert forall|p: Position| #[trigger] self.handles(p) == old(self).handles(p) by {
                match p {
                    Position::Left => {},
                    Position::Right => {},
                    Position::Top => {},
                    Position::Bottom => {},
                }
            }
            assert forall|p: Position| p != pos implies #[trigger] self.enter_count(p) == old(self).enter_count(p) by {
                match p {
                    Position::Left => {},
                    Position::Right => {},
                    Position::Top => {},
                    Position::Bottom => {},
                }
            }
            match pos {
                Position::Left => {},
                Position::Right => {},
                Position::Top => {},
                Position::Bottom => {},
            }
        }
        (pos, disable)
    }

    /// Drop `id` from the handles at `pos`. Returns whether none is left,
    /// in which case the position is freed and the backend must destroy
    /// its barrier.
    pub fn drop_from_position(&mut self, id: u64, pos: Position) -> (last: bool)
        requires
            old(self).handles(pos) is Some,
        ensures
            Self::dropped_handle(*old(self), *final(self), id, pos),
            last == (without(old(self).handles(pos)->0, id).len() == 0),
    {
        let ghost mid = *self;
        let slot = self.take_slot(pos);
        let old_list = match slot {
            Some(v) => v,
            None => {
                assert(false);
                return false;
            },
        };
        let mut kept: Vec<u64> = Vec::new();
        let ghost keep = not_id(id);
        let mut i: usize = 0;
        while i < old_list.len()
            invariant
                0 <= i <= old_list@.len(),
                keep == not_id(id),
                kept@ == old_list@.take(i as int).filter(keep),
            decreases old_list.len() - i,
        {
            proof {
                old_list@.take(i as int).lemma_filter_push(old_list@[i as int], keep);
                assert(old_list@.take(i + 1) =~= old_list@.take(i as int).push(old_list@[i as int]));
            }
            if old_list[i] != id {
                kept.push(old_list[i]);
            }
            i += 1;
        }
        assert(old_list@.take(old_list.len() as int) =~= old_list@);
        let last = kept.len() == 0;
        if last {
            self.put_slot(pos, None);
        } else {
            self.put_slot(pos, Some(kept));
        }
        proof {
            assert forall|p: Position| p != pos implies #[trigger] self.handles(p) == old(self).handles(p) by {
                assert(self.handles_slot(p) == mid.handles_slot(p));
                match p {
                    Position::Left => {},
                    Position::Right => {},
                    Position::Top => {},
                    Position::Bottom => {},
                }
            }
            match pos {
                Position::Left => {},
                Position::Right => {},
                Position::Top => {},
                Position::Bottom => {},
            }
            assert forall|p: Position| #[trigger] self.enter_count(p) == old(self).enter_count(p) by {
                match p {
                    Position::Left => {},
                    Position::Right => {},
                    Position::Top => {},
                    Position::Bottom => {},
                }
            }
        }
        last
    }

    /// The handles at `pos`, in order; none when the position is free.
    pub fn handles_at(&self, pos: Position) -> (r: Vec<u64>)
        ensures
            r@ == match self.handles(pos) {
                Some(v) => v,
                None => Seq::<u64>::empty(),
            },
    {
        let slot = match pos {
            Position::Left => &self.left,
            Position::Right => &self.right,
            Position::Top => &self.top,
            Position::Bottom => &self.bottom,
        };
        let r = match slot {
            Some(v) => {
                let c = v.clone();
                assert(c@ =~= v@);
                c
            },
            None => Vec::new(),
        };
        proof {
            match pos {
                Position::Left => {},
                Position::Right => {},
                Position::Top => {},
                Position::Bottom => {},
            }
        }
        r
    }

    /// The set of enter-only handles, for routing.
    pub fn enter_only_handles(&self) -> (r: &HashSet<u64>)
        ensures
            r@ == self.enter_only(),
    {
        &self.enter_only_handles
    }
}

impl CaptureRegistry {
    /// The handles at `p`, none where the position is free.
    pub open spec fn handles_seq(self, p: Position) -> Seq<u64> {
        match self.handles(p) {
            Some(v) => v,
            None => Seq::empty(),
        }
    }

    /// The handles that an event captured at `pos` goes to: those at the
    /// position, in order, or only the enter-only ones among them for a
    /// `Begin` that must go to enter-only handles.
    pub fn route(&self, pos: Position, event: CaptureEventKind, requires_enter_only: bool) -> (r: Vec<u64>)
        ensures
            r@ == if event == CaptureEventKind::Begin && requires_enter_only {
                self.handles_seq(pos).filter(|h: u64| self.enter_only().contains(h))
            } else {
                self.handles_seq(pos)
            },
    {
        let handles = self.handles_at(pos);
        route_handles(handles.as_slice(), self.enter_only_handles(), event, requires_enter_only)
    }
}

/// The events routed to several handles that wait to be handed out, one
/// handle at a time, in order.
pub struct DeliveryQueue<T> {
    pending: VecDeque<(u64, T)>,
}

/// `event` for each of `handles`, in order.
pub open spec fn deliveries<T>(handles: Seq<u64>, event: T) -> Seq<(u64, T)> {
    Seq::new(handles.len(), |i: int| (handles[i], event))
}

impl<T: Copy> DeliveryQueue<T> {
    pub closed spec fn view(&self) -> Seq<(u64, T)> {
        self.pending@
    }

    /// An empty queue.
    pub fn new() -> (r: DeliveryQueue<T>)
        ensures
            r.view() == Seq::<(u64, T)>::empty(),
    {
        DeliveryQueue { pending: VecDeque::new() }
    }

    /// The next waiting delivery, taken off the queue.
    pub fn take_pending(&mut self) -> (r: Option<(u64, T)>)
        ensures
            old(self).view().len() == 0 ==> r is None && final(self).view() == old(self).view(),
            old(self).view().len() > 0 ==> r == Some(old(self).view()[0]) && final(self).view() == old(self).view().drop_first(),
    {
        self.pending.pop_front()
    }

    /// Hand out `event` to `handles`: nothing for no handle, to be polled
    /// again; the only handle at once; else each handle in turn, the first
    /// now and the others from the queue.
    pub fn deliver(&mut self, handles: &[u64], event: T) -> (r: Option<(u64, T)>)
        ensures
            handles@.len() == 0 ==> r is None && final(self).view() == old(self).view(),
            handles@.len() == 1 ==> r == Some((handles@[0], event)) && final(self).view() == old(self).view(),
            handles@.len() > 1 ==> {
                let all = old(self).view() + deliveries(handles@, event);
                r == Some(all[0]) && final(self).view() == all.drop_first()
            },
    {
        if handles.len() == 0 {
            return None;
        }
        if handles.len() == 1 {
            return Some((handles[0], event));
        }
        let ghost before = self.pending@;
        let mut i: usize = 0;
        while i < handles.len()
            invariant
                0 <= i <= handles@.len(),
                self.pending@ == before + deliveries(handles@.take(i as int), event),
            decreases handles.len() - i,
        {
            self.pending.push_back((handles[i], event));
            i += 1;
            assert(deliveries(handles@.take(i as int), event) =~= deliveries(handles@.take(i - 1), event).push(
                (handles@[i - 1], event),
            ));
        }
        assert(handles@.take(handles.len() as int) =~= handles@);
        self.pending.pop_front()
    }
}

/// Dropping an element that does not occur leaves a sequence as it was.
proof fn lemma_without_absent(s: Seq<u64>, id: u64)
    requires
        !s.contains(id),
    ensures
        without(s, id) == s,
    decreases s.len(),
{
    reveal(Seq::filter);
    if s.len() > 0 {
        lemma_without_absent(s.drop_last(), id);
        assert(s.drop_last().push(s.last()) =~= s);
        assert(s.drop_last().contains(id) ==> s.contains(id)) by {
            if s.drop_last().contains(id) {
                let k = choose|k: int| 0 <= k < s.drop_last().len() && s.drop_last()[k] == id;
                assert(s[k] == id);
            }
        }
        assert(s.last() != id) by {
            assert(s[s.len() - 1] == s.last());
        }
    } else {
        assert(s.filter(not_id(id)) =~= s);
    }
}

/// Registering a handle that is not known yet, at any position, enter-only
/// or not, and then unregistering it, gives the registry back as it was;
/// and the barrier is destroyed again exactly when it was created.
pub proof fn lemma_register_unregister(
    s0: CaptureRegistry,
    s1: CaptureRegistry,
    s2: CaptureRegistry,
    s3: CaptureRegistry,
    s4: CaptureRegistry,
    id: u64,
    pos: Position,
    enter_only: bool,
)
    requires
        !s0.positions().contains_key(id),
        !s0.enter_only().contains(id),
        forall|p: Position| #[trigger] s0.handles(p) is Some ==> !s0.handles(p)->0.contains(id)
            && s0.handles(p)->0.len() > 0,
        CaptureRegistry::added_handle(s0, s1, id, pos),
        enter_only ==> CaptureRegistry::added_enter_only(s1, s2, id, pos),
        !enter_only ==> s2 == s1,
        CaptureRegistry::took_handle(s2, s3, id, pos),
        CaptureRegistry::dropped_handle(s3, s4, id, pos),
    ensures
        s4.positions() == s0.positions(),
        forall|p: Position| #[trigger] s4.handles(p) == s0.handles(p),
        s4.enter_only() == s0.enter_only(),
        forall|p: Position| #[trigger] s4.enter_count(p) == s0.enter_count(p),
        (without(s3.handles(pos)->0, id).len() == 0) == (s0.handles(pos) is None),
{
    assert(s4.positions() =~= s0.positions());
    assert(s4.enter_only() =~= s0.enter_only());
    assert(s3.handles(pos) == s1.handles(pos));
    match s0.handles(pos) {
        Some(v) => {
            lemma_without_absent(v, id);
            v.lemma_filter_push(id, not_id(id));
            assert(without(v.push(id), id) == v);
            assert(v.len() > 0);
            assert(s4.handles(pos) == s0.handles(pos));
        },
        None => {
            Seq::<u64>::empty().lemma_filter_push(id, not_id(id));
            reveal(Seq::filter);
            assert(Seq::<u64>::empty().push(id) =~= seq![id]);
            assert(without(seq![id], id).len() == 0);
            assert(s4.handles(pos) == s0.handles(pos));
        },
    }
    assert forall|p: Position| #[trigger] s4.handles(p) == s0.handles(p) by {
        if p != pos {
            assert(s4.handles(p) == s3.handles(p));
            assert(s3.handles(p) == s2.handles(p));
            assert(s2.handles(p) == s1.handles(p));
        }
    }
    assert forall|p: Position| #[trigger] s4.enter_count(p) == s0.enter_count(p) by {
        assert(s4.enter_count(p) == s3.enter_count(p));
        assert(s1.enter_count(p) == s0.enter_count(p));
    }
}

} // verus!
