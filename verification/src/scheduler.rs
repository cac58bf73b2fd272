//! The order of the rows of an image: rows are rendered in any order and
//! written from the top down.
use crate::vec::ColorRGB;
use vstd::prelude::*;

verus! {

/// A row of pixels.
pub type Row = Vec<ColorRGB>;

/// The number of rows that stand ready one after the other from row `from`
/// on.
pub open spec fn spec_run(slots: Seq<Option<Row>>, from: int) -> nat
    decreases slots.len() - from,
{
    if 0 <= from < slots.len() && slots[from] is Some {
        1 + spec_run(slots, from + 1)
    } else {
        0
    }
}

/// Whether the row `y` is still awaited: it is a row of the image, has not
/// been written, and has not come in.
pub open spec fn spec_awaited(slots: Seq<Option<Row>>, next: int, y: int) -> bool {
    next <= y < slots.len() && slots[y] is None
}

/// Holds the rows that have come in until the rows above them have been
/// written.
pub struct Collator {
    slots: Vec<Option<Row>>,
    next: usize,
}

impl Collator {
    /// Whether the collator is in order: the rows that have been handed out
    /// are gone, and the next row to be written has not come in.
    pub closed spec fn well_formed(self) -> bool {
        &&& self.next <= self.slots.len()
        &&& forall|i: int| 0 <= i < self.next ==> (#[trigger] self.slots[i]) is None
        &&& self.next < self.slots.len() ==> self.slots[self.next as int] is None
    }

    /// The rows that have come in and wait to be written; a row that has been
    /// written or has not come in is none.
    pub closed spec fn slots(self) -> Seq<Option<Row>> {
        self.slots@
    }

    /// The number of rows that have been handed out to be written.
    pub closed spec fn next(self) -> int {
        self.next as int
    }

    /// A collator for an image of `height` rows, none of which has come in.
    pub fn new(height: usize) -> (collator: Collator)
        ensures
            collator.well_formed(),
            collator.next() == 0,
            collator.slots().len() == height,
            forall|i: int| 0 <= i < height ==> (#[trigger] collator.slots()[i]) is None,
    {
        let mut slots: Vec<Option<Row>> = Vec::new();
        let mut i: usize = 0;
        while i < height
            invariant
                i <= height,
                slots.len() == i,
                forall|j: int| 0 <= j < i ==> (#[trigger] slots[j]) is None,
            decreases height - i,
        {
            slots.push(None);
            i += 1;
        }
        Collator { slots, next: 0 }
    }

    /// Takes in row `y` and hands out the rows that can now be written, from
    /// the top down: row `y` and the rows that waited for it, if all rows
    /// above `y` have been written, and nothing else. A row that is not
    /// awaited is dropped.
    pub fn accept(&mut self, y: usize, row: Row) -> (ready: Vec<Row>)
        requires
            old(self).well_formed(),
        ensures
            final(self).well_formed(),
            final(self).slots().len() == old(self).slots().len(),
            !spec_awaited(old(self).slots(), old(self).next(), y as int) ==> ready.len() == 0
                && final(self).slots() == old(self).slots() && final(self).next() == old(
                self,
            ).next(),
            spec_awaited(old(self).slots(), old(self).next(), y as int) ==> {
                let filled = old(self).slots().update(y as int, Some(row));
                &&& ready.len() == spec_run(filled, old(self).next())
                &&& final(self).next() == old(self).next() + ready.len()
                &&& forall|i: int|
                    0 <= i < ready.len() ==> Some(#[trigger] ready[i]) == filled[old(self).next()
                        + i]
                &&& forall|i: int|
                    0 <= i < filled.len() ==> (#[trigger] final(self).slots()[i]) == (if old(
                        self,
                    ).next() <= i < final(self).next() {
                        None
                    } else {
                        filled[i]
                    })
            },
    {
        let mut ready: Vec<Row> = Vec::new();
        if y < self.next || y >= self.slots.len() {
            return ready;
        }
        if self.slots[y].is_some() {
            return ready;
        }
        if y != self.next {
            self.slots.set(y, Some(row));
            assert(spec_run(self.slots@, self.next as int) == 0);
            return ready;
        }
        let ghost filled = self.slots@.update(y as int, Some(row));
        let ghost start = self.next as int;
        ready.push(row);
        let mut next: usize = y + 1;
        while next < self.slots.len() && self.slots[next].is_some()
            invariant
                y < next <= self.slots.len(),
                start == y,
                self.slots.len() == filled.len(),
                self.next == y,
                forall|i: int| 0 <= i <= y ==> (#[trigger] self.slots[i]) is None,
                forall|i: int|
                    0 <= i < filled.len() ==> (#[trigger] self.slots@[i]) == (if start <= i
                        < next {
                        None
                    } else {
                        filled[i]
                    }),
                filled[start] is Some,
                ready.len() == next - start,
                forall|i: int| 0 <= i < ready.len() ==> Some(#[trigger] ready[i]) == filled[start + i],
                spec_run(filled, start) == (next - start) + spec_run(filled, next as int),
            decreases self.slots.len() - next,
        {
            let ghost before = ready@;
            let mut waiting: Option<Row> = None;
            let slot: &mut Option<Row> = &mut self.slots[next];
            std::mem::swap(slot, &mut waiting);
            match waiting {
                Some(waited) => {
                    ready.push(waited);
                },
                None => {},
            }
            assert(forall|i: int| 0 <= i < before.len() ==> ready@[i] == before[i]);
            next += 1;
        }
        self.next = next;
        ready
    }

    /// Whether every row has been handed out to be written.
    pub fn is_done(&self) -> (done: bool)
        requires
            self.well_formed(),
        ensures
            done == (self.next() == self.slots().len()),
    {
        self.next == self.slots.len()
    }
}

} // verus!
