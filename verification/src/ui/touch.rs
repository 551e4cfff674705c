//! Touch slots.

use vstd::prelude::*;

use crate::geometry::Point;

verus! {

/// Position of a touch point.
#[derive(Copy, Clone, Debug, PartialEq, Eq, Structural)]
pub struct TouchPoint {
    /// Bits of the coordinates' floating point values.
    pub exact: Point<u64>,
    /// Closest physical pixel.
    pub pixel: Point,
    /// Closest fraction of a physical pixel.
    pub sub_pixel: Point<i64>,
}

impl TouchPoint {
    /// Point in the top left corner.
    pub open spec fn origin() -> Self {
        TouchPoint {
            exact: Point { x: 0, y: 0 },
            pixel: Point { x: 0, y: 0 },
            sub_pixel: Point { x: 0, y: 0 },
        }
    }
}

impl Default for TouchPoint {
    fn default() -> (point: Self)
        ensures
            point == Self::origin(),
    {
        TouchPoint {
            exact: Point::new(0, 0),
            pixel: Point::new(0, 0),
            sub_pixel: Point::new(0, 0),
        }
    }
}

/// Touch slot state.
#[derive(Copy, Clone, Debug, PartialEq, Eq, Structural)]
pub struct TouchSlot {
    pub start: TouchPoint,
    pub point: TouchPoint,
}

/// Active touch slots.
pub struct TouchSlots {
    slots: Vec<(i32, TouchSlot)>,
}

/// Every slot is listed only once.
pub closed spec fn unique(slots: Seq<(i32, TouchSlot)>) -> bool {
    forall|i: int, j: int|
        0 <= i < slots.len() && 0 <= j < slots.len() && slots[i].0 == slots[j].0 ==> i == j
}

/// Slot is at an index of the list.
pub closed spec fn is_at(slots: Seq<(i32, TouchSlot)>, id: i32, i: int) -> bool {
    0 <= i < slots.len() && slots[i].0 == id
}

/// Touch slots by ID.
pub closed spec fn slot_map(slots: Seq<(i32, TouchSlot)>) -> Map<i32, TouchSlot> {
    Map::new(
        |id: i32| exists|i: int| is_at(slots, id, i),
        |id: i32| slots[choose|i: int| is_at(slots, id, i)].1,
    )
}

proof fn lemma_slot(slots: Seq<(i32, TouchSlot)>, id: i32, i: int)
    requires
        unique(slots),
        is_at(slots, id, i),
    ensures
        slot_map(slots).contains_key(id),
        slot_map(slots)[id] == slots[i].1,
{
    assert(exists|j: int| is_at(slots, id, j));
    let j = choose|j: int| is_at(slots, id, j);
    assert(is_at(slots, id, j));
}

impl View for TouchSlots {
    type V = Map<i32, TouchSlot>;

    closed spec fn view(&self) -> Map<i32, TouchSlot> {
        slot_map(self.slots@)
    }
}

impl TouchSlots {
    /// Every slot is listed only once.
    pub closed spec fn well_formed(&self) -> bool {
        unique(self.slots@)
    }

    pub fn new() -> (slots: Self)
        ensures
            slots.well_formed(),
            slots@ == Map::<i32, TouchSlot>::empty(),
    {
        let slots = TouchSlots { slots: Vec::new() };
        proof {
            assert(slots@ =~= Map::<i32, TouchSlot>::empty()) by {
                assert forall|id: i32| !slots@.contains_key(id) by {
                    assert forall|i: int| !is_at(slots.slots@, id, i) by {}
                }
            }
        }
        slots
    }

    /// Find the index of a slot.
    fn find(&self, id: i32) -> (index: Option<usize>)
        requires
            self.well_formed(),
        ensures
            match index {
                Some(index) => is_at(self.slots@, id, index as int) && self@.contains_key(id)
                    && self@[id] == self.slots@[index as int].1,
                None => !self@.contains_key(id),
            },
    {
        let mut i: usize = 0;
        while i < self.slots.len()
            invariant
                i <= self.slots.len(),
                unique(self.slots@),
                forall|j: int| 0 <= j < i ==> self.slots@[j].0 != id,
            decreases self.slots.len() - i,
        {
            if self.slots[i].0 == id {
                proof {
                    lemma_slot(self.slots@, id, i as int);
                }
                return Some(i);
            }
            i += 1;
        }
        None
    }

    /// Get the number of active slots.
    pub fn len(&self) -> (len: usize)
        requires
            self.well_formed(),
        ensures
            self@.dom().finite(),
            self@.dom().len() == len,
    {
        proof {
            lemma_len(self.slots@);
        }
        self.slots.len()
    }

    /// Press a slot.
    pub fn press(&mut self, id: i32, point: TouchPoint)
        requires
            old(self).well_formed(),
        ensures
            final(self).well_formed(),
            final(self)@ == old(self)@.insert(id, TouchSlot { start: point, point }),
    {
        let slot = TouchSlot { start: point, point };
        match self.find(id) {
            Some(index) => {
                let ghost before = self.slots@;
                self.slots.set(index, (id, slot));
                proof {
                    lemma_update(before, index as int, slot);
                }
            },
            None => {
                let ghost before = self.slots@;
                proof {
                    lemma_push(before, id, slot);
                }
                self.slots.push((id, slot));
            },
        }
    }

    /// Move a slot to a new position.
    ///
    /// This returns the updated slot and its previous position.
    pub fn motion(&mut self, id: i32, point: TouchPoint) -> (moved: Option<(TouchSlot, TouchPoint)>)
        requires
            old(self).well_formed(),
        ensures
            final(self).well_formed(),
            match moved {
                Some((slot, old_point)) => {
                    &&& old(self)@.contains_key(id)
                    &&& old_point == old(self)@[id].point
                    &&& slot == (TouchSlot { start: old(self)@[id].start, point })
                    &&& final(self)@ == old(self)@.insert(id, slot)
                },
                None => !old(self)@.contains_key(id) && final(self)@ == old(self)@,
            },
    {
        match self.find(id) {
            Some(index) => {
                let ghost before = self.slots@;
                let old_slot = self.slots[index].1;
                let slot = TouchSlot { start: old_slot.start, point };
                self.slots.set(index, (id, slot));
                proof {
                    lemma_update(before, index as int, slot);
                }
                Some((slot, old_slot.point))
            },
            None => None,
        }
    }

    /// Release a slot.
    pub fn release(&mut self, id: i32) -> (slot: Option<TouchSlot>)
        requires
            old(self).well_formed(),
        ensures
            final(self).well_formed(),
            match slot {
                Some(slot) => {
                    &&& old(self)@.contains_key(id)
                    &&& slot == old(self)@[id]
                    &&& final(self)@ == old(self)@.remove(id)
                },
                None => !old(self)@.contains_key(id) && final(self)@ == old(self)@,
            },
    {
        match self.find(id) {
            Some(index) => {
                proof {
                    lemma_remove(self.slots@, index as int);
                }
                let (_, slot) = self.slots.remove(index);
                Some(slot)
            },
            None => None,
        }
    }

    /// Release all slots.
    pub fn clear(&mut self)
        ensures
            final(self).well_formed(),
            final(self)@ == Map::<i32, TouchSlot>::empty(),
    {
        *self = TouchSlots::new();
    }

    /// Get a slot with a different ID.
    pub fn opposing(&self, id: i32) -> (slot: Option<TouchSlot>)
        requires
            self.well_formed(),
        ensures
            match slot {
                Some(slot) => exists|other: i32|
                    other != id && #[trigger] self@.contains_key(other) && self@[other] == slot,
                None => forall|other: i32| other != id ==> !#[trigger] self@.contains_key(other),
            },
    {
        let mut i: usize = 0;
        while i < self.slots.len()
            invariant
                i <= self.slots.len(),
                unique(self.slots@),
                forall|j: int| 0 <= j < i ==> self.slots@[j].0 == id,
            decreases self.slots.len() - i,
        {
            let (other, slot) = self.slots[i];
            if other != id {
                proof {
                    assert(is_at(self.slots@, other, i as int));
                    lemma_slot(self.slots@, other, i as int);
                    assert(self@.contains_key(other));
                }
                return Some(slot);
            }
            i += 1;
        }
        None
    }
}

/// A map of all listed slots is unique.
proof fn lemma_map(slots: Seq<(i32, TouchSlot)>, map: Map<i32, TouchSlot>)
    requires
        unique(slots),
        forall|i: int|
            0 <= i < slots.len() ==> map.contains_key((#[trigger] slots[i]).0) && map[slots[i].0]
                == slots[i].1,
        forall|id: i32| #[trigger]
            map.contains_key(id) ==> exists|i: int| is_at(slots, id, i),
    ensures
        slot_map(slots) == map,
{
    assert forall|id: i32| #[trigger] slot_map(slots).contains_key(id) implies map.contains_key(id)
        && map[id] == slot_map(slots)[id] by {
        let i = choose|i: int| is_at(slots, id, i);
        assert(is_at(slots, id, i));
        lemma_slot(slots, id, i);
        assert(map.contains_key(slots[i].0));
    }
    assert(slot_map(slots) =~= map);
}

proof fn lemma_update(slots: Seq<(i32, TouchSlot)>, index: int, slot: TouchSlot)
    requires
        unique(slots),
        0 <= index < slots.len(),
    ensures
        unique(slots.update(index, (slots[index].0, slot))),
        slot_map(slots.update(index, (slots[index].0, slot))) == slot_map(slots).insert(
            slots[index].0,
            slot,
        ),
{
    let updated = slots.update(index, (slots[index].0, slot));
    let map = slot_map(slots).insert(slots[index].0, slot);
    assert forall|i: int| 0 <= i < updated.len() implies map.contains_key(
        (#[trigger] updated[i]).0,
    ) && map[updated[i].0] == updated[i].1 by {
        lemma_slot(slots, slots[i].0, i);
    }
    assert forall|id: i32| #[trigger] map.contains_key(id) implies exists|i: int|
        is_at(updated, id, i) by {
        if id == slots[index].0 {
            assert(is_at(updated, id, index));
        } else {
            let i = choose|i: int| is_at(slots, id, i);
            assert(is_at(updated, id, i));
        }
    }
    lemma_map(updated, map);
}

proof fn lemma_push(slots: Seq<(i32, TouchSlot)>, id: i32, slot: TouchSlot)
    requires
        unique(slots),
        !slot_map(slots).contains_key(id),
    ensures
        unique(slots.push((id, slot))),
        slot_map(slots.push((id, slot))) == slot_map(slots).insert(id, slot),
{
    let pushed = slots.push((id, slot));
    let map = slot_map(slots).insert(id, slot);
    assert forall|i: int| 0 <= i < slots.len() implies (#[trigger] slots[i]).0 != id by {
        if slots[i].0 == id {
            lemma_slot(slots, id, i);
        }
    }
    assert(unique(pushed)) by {
        assert(forall|i: int| 0 <= i < slots.len() ==> pushed[i] == #[trigger] slots[i]);
    }
    assert forall|i: int| 0 <= i < pushed.len() implies map.contains_key((#[trigger] pushed[i]).0)
        && map[pushed[i].0] == pushed[i].1 by {
        if i < slots.len() {
            lemma_slot(slots, slots[i].0, i);
        }
    }
    assert forall|other: i32| #[trigger] map.contains_key(other) implies exists|i: int|
        is_at(pushed, other, i) by {
        if other == id {
            assert(is_at(pushed, other, slots.len() as int));
        } else {
            let i = choose|i: int| is_at(slots, other, i);
            assert(is_at(pushed, other, i));
        }
    }
    lemma_map(pushed, map);
}

proof fn lemma_remove(slots: Seq<(i32, TouchSlot)>, index: int)
    requires
        unique(slots),
        0 <= index < slots.len(),
    ensures
        unique(slots.remove(index)),
        slot_map(slots.remove(index)) == slot_map(slots).remove(slots[index].0),
{
    let removed = slots.remove(index);
    let map = slot_map(slots).remove(slots[index].0);
    assert forall|i: int| 0 <= i < removed.len() implies map.contains_key(
        (#[trigger] removed[i]).0,
    ) && map[removed[i].0] == removed[i].1 by {
        let source = if i < index {
            i
        } else {
            i + 1
        };
        assert(removed[i] == slots[source]);
        lemma_slot(slots, slots[source].0, source);
    }
    assert forall|id: i32| #[trigger] map.contains_key(id) implies exists|i: int|
        is_at(removed, id, i) by {
        let i = choose|i: int| is_at(slots, id, i);
        assert(is_at(slots, id, i));
        let moved = if i < index {
            i
        } else {
            i - 1
        };
        assert(is_at(removed, id, moved));
    }
    lemma_map(removed, map);
}

proof fn lemma_len(slots: Seq<(i32, TouchSlot)>)
    requires
        unique(slots),
    ensures
        slot_map(slots).dom().finite(),
        slot_map(slots).dom().len() == slots.len(),
    decreases slots.len(),
{
    if slots.len() == 0 {
        assert forall|id: i32| !slot_map(slots).contains_key(id) by {
            assert forall|i: int| !is_at(slots, id, i) by {}
        }
        assert(slot_map(slots) =~= Map::<i32, TouchSlot>::empty());
    } else {
        let last = slots.len() - 1;
        lemma_remove(slots, last);
        lemma_len(slots.remove(last));
        lemma_slot(slots, slots[last].0, last);
        assert(slot_map(slots).dom() =~= slot_map(slots.remove(last)).dom().insert(slots[last].0));
    }
}

} // verus!
