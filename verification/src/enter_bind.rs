//! Key binds that begin capture: the keys held while capture is inactive, and
//! the position whose bind just became fully held.
use std::collections::HashSet;
use vstd::prelude::*;

use crate::Position;

verus! {

/// The keys of each bind, with later entries for a position replacing earlier ones.
pub open spec fn binds_from(s: Seq<(Position, Vec<u32>)>) -> Map<Position, Seq<u32>>
    decreases s.len(),
{
    if s.len() == 0 {
        Map::empty()
    } else {
        binds_from(s.drop_last()).insert(s.last().0, s.last().1@)
    }
}

pub open spec fn opt_keys(o: Option<Vec<u32>>) -> Option<Seq<u32>> {
    match o {
        Some(v) => Some(v@),
        None => None,
    }
}

/// The bind of `p` among the four per-position slots.
pub open spec fn slot(
    left: Option<Vec<u32>>,
    right: Option<Vec<u32>>,
    top: Option<Vec<u32>>,
    bottom: Option<Vec<u32>>,
    p: Position,
) -> Option<Seq<u32>> {
    match p {
        Position::Left => opt_keys(left),
        Position::Right => opt_keys(right),
        Position::Top => opt_keys(top),
        Position::Bottom => opt_keys(bottom),
    }
}

/// The binds held in the four per-position slots.
pub open spec fn slots_map(
    left: Option<Vec<u32>>,
    right: Option<Vec<u32>>,
    top: Option<Vec<u32>>,
    bottom: Option<Vec<u32>>,
) -> Map<Position, Seq<u32>> {
    Map::new(
        |p: Position| slot(left, right, top, bottom, p) is Some,
        |p: Position| slot(left, right, top, bottom, p)->0,
    )
}

/// Tracks the keys held down while capture is inactive and reports when the
/// bind configured for a position becomes fully held.
///
/// Keys are evdev key codes. A backend that sees key events outside of an
/// active capture feeds each into [`Self::key_event`] and begins capture at
/// the returned position, as it would for a pointer crossing the screen edge.
#[derive(Debug)]
pub struct EnterBindTracker {
    left: Option<Vec<u32>>,
    right: Option<Vec<u32>>,
    top: Option<Vec<u32>>,
    bottom: Option<Vec<u32>>,
    pressed: HashSet<u32>,
}

impl EnterBindTracker {
    /// The configured binds.
    pub closed spec fn binds(self) -> Map<Position, Seq<u32>> {
        slots_map(self.left, self.right, self.top, self.bottom)
    }

    /// The keys currently held.
    pub closed spec fn held(self) -> Set<u32> {
        self.pressed@
    }

    /// The bind at `p` is configured, not empty, for a position among `active`,
    /// and all of its keys are held.
    pub open spec fn fires(self, p: Position, active: Seq<Position>) -> bool {
        &&& self.binds().contains_key(p)
        &&& self.binds()[p].len() > 0
        &&& active.contains(p)
        &&& forall|i: int| 0 <= i < self.binds()[p].len() ==> self.held().contains(#[trigger] self.binds()[p][i])
    }

    /// A tracker with no binds and no key held.
    pub fn new() -> (r: EnterBindTracker)
        ensures
            r.binds() == Map::<Position, Seq<u32>>::empty(),
            r.held() == Set::<u32>::empty(),
    {
        let r = EnterBindTracker { left: None, right: None, top: None, bottom: None, pressed: HashSet::new() };
        assert(r.binds() =~= Map::<Position, Seq<u32>>::empty());
        r
    }

    /// Replace the binds; held keys are forgotten, so a bind removed while
    /// its keys are held cannot fire once a different bind completes.
    pub fn set_binds(&mut self, binds: Vec<(Position, Vec<u32>)>)
        ensures
            final(self).binds() == binds_from(binds@),
            final(self).held() == Set::<u32>::empty(),
    {
        let mut left: Option<Vec<u32>> = None;
        let mut right: Option<Vec<u32>> = None;
        let mut top: Option<Vec<u32>> = None;
        let mut bottom: Option<Vec<u32>> = None;
        let mut i: usize = 0;
        while i < binds.len()
            invariant
                0 <= i <= binds@.len(),
                binds_from(binds@.take(i as int)) =~= slots_map(left, right, top, bottom),
            decreases binds.len() - i,
        {
            assert(binds@.take(i + 1).drop_last() =~= binds@.take(i as int));
            let keys = binds[i].1.clone();
            assert(keys@ =~= binds@[i as int].1@);
            match binds[i].0 {
                Position::Left => left = Some(keys),
                Position::Right => right = Some(keys),
                Position::Top => top = Some(keys),
                Position::Bottom => bottom = Some(keys),
            }
            i += 1;
        }
        assert(binds@.take(binds.len() as int) =~= binds@);
        self.left = left;
        self.right = right;
        self.top = top;
        self.bottom = bottom;
        self.pressed = HashSet::new();
        assert(final(self).binds() =~= binds_from(binds@));
    }

    /// Whether no bind is configured, letting a backend skip the bookkeeping.
    pub fn is_empty(&self) -> (r: bool)
        ensures
            r == (self.binds() == Map::<Position, Seq<u32>>::empty()),
    {
        let r = self.left.is_none() && self.right.is_none() && self.top.is_none() && self.bottom.is_none();
        proof {
            if r {
                assert(self.binds() =~= Map::<Position, Seq<u32>>::empty());
            } else {
                if self.left.is_some() {
                    assert(self.binds().contains_key(Position::Left));
                } else if self.right.is_some() {
                    assert(self.binds().contains_key(Position::Right));
                } else if self.top.is_some() {
                    assert(self.binds().contains_key(Position::Top));
                } else {
                    assert(self.binds().contains_key(Position::Bottom));
                }
            }
        }
        r
    }

    /// Forget every held key. Called once a bind has fired: its keys are
    /// still down, and without this the next release would leave part of the
    /// bind held, letting one further key press fire it again.
    pub fn clear(&mut self)
        ensures
            final(self).binds() == old(self).binds(),
            final(self).held() == Set::<u32>::empty(),
    {
        self.pressed = HashSet::new();
        assert(final(self).binds() =~= old(self).binds());
    }

    /// Whether every key of `keys` is held.
    fn all_held(&self, keys: &Vec<u32>) -> (r: bool)
        ensures
            r == forall|i: int| 0 <= i < keys@.len() ==> self.held().contains(#[trigger] keys@[i]),
    {
        broadcast use vstd::std_specs::hash::group_hash_axioms;

        let mut i: usize = 0;
        while i < keys.len()
            invariant
                0 <= i <= keys@.len(),
                forall|j: int| 0 <= j < i ==> self.held().contains(#[trigger] keys@[j]),
            decreases keys.len() - i,
        {
            if !self.pressed.contains(&keys[i]) {
                return false;
            }
            i += 1;
        }
        true
    }

    /// Whether the bind at `p` fires with `active` positions.
    fn fires_at(&self, p: Position, active: &[Position]) -> (r: bool)
        ensures
            r == self.fires(p, active@),
    {
        let slot = match p {
            Position::Left => &self.left,
            Position::Right => &self.right,
            Position::Top => &self.top,
            Position::Bottom => &self.bottom,
        };
        match slot {
            None => false,
            Some(keys) => {
                if keys.len() == 0 {
                    return false;
                }
                let mut found = false;
                let mut i: usize = 0;
                while i < active.len()
                    invariant
                        0 <= i <= active@.len(),
                        found == exists|j: int| 0 <= j < i && active@[j] == p,
                    decreases active.len() - i,
                {
                    if active[i] == p {
                        found = true;
                    }
                    i += 1;
                }
                proof {
                    if active@.contains(p) {
                        let j = choose|j: int| 0 <= j < active@.len() && active@[j] == p;
                        assert(0 <= j < i && active@[j] == p);
                    }
                }
                found && self.all_held(keys)
            },
        }
    }

    /// Record a key event and report the position to enter, if the bind for
    /// one just completed. Binds fire only on a key going down, and only for a
    /// position among `active`, the positions that currently have a client.
    /// Where several binds complete at once, one of them is reported.
    pub fn key_event(&mut self, key: u32, pressed: bool, active: &[Position]) -> (r: Option<Position>)
        ensures
            final(self).binds() == old(self).binds(),
            !pressed ==> r is None && final(self).held() == old(self).held().remove(key),
            pressed ==> final(self).held() == old(self).held().insert(key),
            pressed ==> match r {
                Some(p) => final(self).fires(p, active@),
                None => forall|p: Position| !(#[trigger] final(self).fires(p, active@)),
            },
    {
        broadcast use vstd::std_specs::hash::group_hash_axioms;

        if !pressed {
            self.pressed.remove(&key);
            assert(final(self).binds() =~= old(self).binds());
            return None;
        }
        self.pressed.insert(key);
        assert(self.binds() =~= old(self).binds());
        if self.fires_at(Position::Left, active) {
            return Some(Position::Left);
        }
        if self.fires_at(Position::Right, active) {
            return Some(Position::Right);
        }
        if self.fires_at(Position::Top, active) {
            return Some(Position::Top);
        }
        if self.fires_at(Position::Bottom, active) {
            return Some(Position::Bottom);
        }
        assert forall|p: Position| !(#[trigger] self.fires(p, active@)) by {
            match p {
                Position::Left => {},
                Position::Right => {},
                Position::Top => {},
                Position::Bottom => {},
            }
        }
        None
    }
}

/// A bind that fires with some keys held still fires when more keys are held:
/// holding extra keys, such as modifiers, never blocks it.
pub proof fn lemma_extra_keys_keep_firing(
    fewer: EnterBindTracker,
    more: EnterBindTracker,
    p: Position,
    active: Seq<Position>,
)
    requires
        fewer.binds() == more.binds(),
        fewer.held().subset_of(more.held()),
        fewer.fires(p, active),
    ensures
        more.fires(p, active),
{
}

/// The order in which keys go down does not matter: two presses leave the
/// same keys held whichever comes first, so the same binds fire.
pub proof fn lemma_press_order_irrelevant(t: EnterBindTracker, a: u32, b: u32)
    ensures
        t.held().insert(a).insert(b) == t.held().insert(b).insert(a),
{
    assert(t.held().insert(a).insert(b) =~= t.held().insert(b).insert(a));
}

/// Once the held keys are cleared, a single press fires a bind only when
/// that key is the whole bind: the rest of the bind has to be pressed again.
pub proof fn lemma_single_press_after_clear(t: EnterBindTracker, k: u32, p: Position, active: Seq<Position>)
    requires
        t.held() == Set::<u32>::empty().insert(k),
        t.fires(p, active),
    ensures
        forall|i: int| 0 <= i < t.binds()[p].len() ==> #[trigger] t.binds()[p][i] == k,
{
    assert forall|i: int| 0 <= i < t.binds()[p].len() implies #[trigger] t.binds()[p][i] == k by {
        assert(t.held().contains(t.binds()[p][i]));
    }
}

} // verus!
