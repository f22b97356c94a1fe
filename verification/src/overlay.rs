//! The two-slot cell that backs one key.
//!
//! A cell has two physical slots and a one-byte tag. Two bits of the tag say
//! which slots hold a value; a third, the polarity, says which slot plays the
//! foreground. Demoting the foreground never touches the value: only the
//! polarity bit changes.

use crate::layers::{borrowed, Layers};
use vstd::prelude::*;

verus! {

/// Tag bit: physical slot 0 holds a value.
const SLOT0_PRESENT: u8 = 0b001;

/// Tag bit: physical slot 1 holds a value.
const SLOT1_PRESENT: u8 = 0b010;

/// Tag bit: the polarity. Clear, slot 0 is the foreground; set, slot 1 is.
const FG_SLOT: u8 = 0b100;

/// The physical slot that a tag names as the foreground.
spec fn tag_polarity(bits: u8) -> int {
    if bits & FG_SLOT != 0 {
        1
    } else {
        0
    }
}

/// Whether a tag marks physical slot `i` as holding a value.
spec fn tag_marks(bits: u8, i: int) -> bool {
    if i == 0 {
        bits & SLOT0_PRESENT != 0
    } else {
        bits & SLOT1_PRESENT != 0
    }
}

proof fn lemma_polarity_shift(b: u8)
    by (bit_vector)
    ensures
        (b & 4u8) >> 2u8 == (if b & 4u8 != 0u8 { 1u8 } else { 0u8 }),
{
}

proof fn lemma_other_index(i: usize)
    by (bit_vector)
    requires
        i < 2usize,
    ensures
        i == 0usize ==> i ^ 1usize == 1usize,
        i == 1usize ==> i ^ 1usize == 0usize,
{
}

proof fn lemma_slot_mask(i: usize)
    by (bit_vector)
    requires
        i < 2usize,
    ensures
        i == 0usize ==> 1u8 << i == 1u8,
        i == 1usize ==> 1u8 << i == 2u8,
{
}

proof fn lemma_toggle_bits(b: u8)
    by (bit_vector)
    ensures
        ((b ^ 4u8) & 4u8 != 0u8) == (b & 4u8 == 0u8),
        (b ^ 4u8) & 1u8 == b & 1u8,
        (b ^ 4u8) & 2u8 == b & 2u8,
{
}

proof fn lemma_mark_bits(b: u8)
    by (bit_vector)
    ensures
        (b | 1u8) & 1u8 != 0u8,
        (b | 1u8) & 2u8 == b & 2u8,
        (b | 1u8) & 4u8 == b & 4u8,
        (b | 2u8) & 2u8 != 0u8,
        (b | 2u8) & 1u8 == b & 1u8,
        (b | 2u8) & 4u8 == b & 4u8,
{
}

proof fn lemma_clear_bits(b: u8)
    by (bit_vector)
    ensures
        (b & !1u8) & 1u8 == 0u8,
        (b & !1u8) & 2u8 == b & 2u8,
        (b & !1u8) & 4u8 == b & 4u8,
        (b & !2u8) & 2u8 == 0u8,
        (b & !2u8) & 1u8 == b & 1u8,
        (b & !2u8) & 4u8 == b & 4u8,
{
}

proof fn lemma_presence_mask(b: u8)
    by (bit_vector)
    ensures
        (b & (1u8 | 2u8) == 0u8) == (b & 1u8 == 0u8 && b & 2u8 == 0u8),
{
}

proof fn lemma_fresh_tags()
    by (bit_vector)
    ensures
        0u8 & 1u8 == 0u8,
        0u8 & 2u8 == 0u8,
        0u8 & 4u8 == 0u8,
        1u8 & 1u8 != 0u8,
        1u8 & 2u8 == 0u8,
        1u8 & 4u8 == 0u8,
        (1u8 | 2u8) & 1u8 != 0u8,
        (1u8 | 2u8) & 2u8 != 0u8,
        (1u8 | 2u8) & 4u8 == 0u8,
{
}

/// Toggling the polarity bit exchanges the roles of the two slots and leaves
/// both presence bits as they were.
proof fn lemma_tag_toggled(b: u8)
    ensures
        tag_polarity(b ^ FG_SLOT) == 1 - tag_polarity(b),
        tag_marks(b ^ FG_SLOT, 0) == tag_marks(b, 0),
        tag_marks(b ^ FG_SLOT, 1) == tag_marks(b, 1),
{
    lemma_toggle_bits(b);
}

/// Setting the presence bit of slot `i` marks that slot and changes nothing
/// else in the tag.
proof fn lemma_tag_marked(b: u8, i: usize)
    requires
        i < 2,
    ensures
        tag_marks(b | (1u8 << i), i as int),
        tag_marks(b | (1u8 << i), 1 - i) == tag_marks(b, 1 - i),
        tag_polarity(b | (1u8 << i)) == tag_polarity(b),
{
    lemma_slot_mask(i);
    lemma_mark_bits(b);
}

/// Clearing the presence bit of slot `i` unmarks that slot and changes
/// nothing else in the tag.
proof fn lemma_tag_cleared(b: u8, i: usize)
    requires
        i < 2,
    ensures
        !tag_marks(b & !(1u8 << i), i as int),
        tag_marks(b & !(1u8 << i), 1 - i) == tag_marks(b, 1 - i),
        tag_polarity(b & !(1u8 << i)) == tag_polarity(b),
{
    lemma_slot_mask(i);
    lemma_clear_bits(b);
}

/// A two-layer value container: a foreground, the current value, and an
/// optional background, the value that the foreground replaced.
///
/// Values are moved, never cloned. A value that stays in the cell stays in
/// its physical slot; push, pull and swap only relabel it.
#[derive(Debug)]
pub struct Overlay<T> {
    bits: u8,
    slots: [Option<T>; 2],
}

impl<T> View for Overlay<T> {
    type V = Layers<T>;

    /// The two layers: the slot that the polarity names, and the other one.
    open spec fn view(&self) -> Layers<T> {
        Layers { fg: self.slot(self.polarity()), bg: self.slot(1 - self.polarity()) }
    }
}

impl<T> Overlay<T> {
    /// The physical slot, 0 or 1, that currently plays the foreground.
    pub closed spec fn polarity(&self) -> int {
        tag_polarity(self.bits)
    }

    /// What physical slot `i` holds.
    pub closed spec fn slot(&self, i: int) -> Option<T> {
        self.slots@[i]
    }

    /// The tag and the slots agree: a slot is marked present exactly when it
    /// holds a value.
    pub closed spec fn tag_agrees(&self) -> bool {
        &&& tag_marks(self.bits, 0) <==> self.slots@[0] is Some
        &&& tag_marks(self.bits, 1) <==> self.slots@[1] is Some
    }

    /// The cell's invariant: the tag describes the slots, and there is no
    /// background without a foreground.
    pub open spec fn wf(&self) -> bool {
        &&& self.polarity() == 0 || self.polarity() == 1
        &&& self.tag_agrees()
        &&& self@.stacked()
    }

    /// `self` is `before` with its foreground demoted in place: the roles of
    /// the slots are exchanged, and the slot that played the foreground
    /// holds what it held.
    pub open spec fn demotes(&self, before: &Self) -> bool {
        &&& self.polarity() == 1 - before.polarity()
        &&& self.slot(before.polarity()) == before.slot(before.polarity())
    }

    /// `self` is `before` with its background promoted in place: the roles
    /// of the slots are exchanged, and the slot that played the background
    /// holds what it held.
    pub open spec fn promotes(&self, before: &Self) -> bool {
        &&& self.polarity() == 1 - before.polarity()
        &&& self.slot(self.polarity()) == before.slot(self.polarity())
    }

    /// Creates a cell that holds nothing.
    pub fn new_empty() -> (cell: Self)
        ensures
            cell.wf(),
            cell@ == Layers::<T>::empty(),
            cell.polarity() == 0,
    {
        proof {
            lemma_fresh_tags();
        }
        Overlay { bits: 0, slots: [None, None] }
    }

    /// Creates a cell with a foreground value and no background.
    pub fn new_fg(val: T) -> (cell: Self)
        ensures
            cell.wf(),
            cell@ == Layers::single(val),
            cell.polarity() == 0,
    {
        proof {
            lemma_fresh_tags();
        }
        Overlay { bits: SLOT0_PRESENT, slots: [Some(val), None] }
    }

    /// Creates a cell with both a foreground and a background value.
    pub fn new_both(fg: T, bg: T) -> (cell: Self)
        ensures
            cell.wf(),
            cell@ == Layers::both(fg, bg),
            cell.polarity() == 0,
    {
        proof {
            lemma_fresh_tags();
        }
        Overlay { bits: SLOT0_PRESENT | SLOT1_PRESENT, slots: [Some(fg), Some(bg)] }
    }

    /// The foreground value, if the cell has one.
    pub fn fg(&self) -> (r: Option<&T>)
        requires
            self.wf(),
        ensures
            r == borrowed(&self@.fg),
    {
        let idx: usize = self.fg_index();
        if self.is_slot_present(idx) {
            self.slots[idx].as_ref()
        } else {
            None
        }
    }

    /// The foreground value of a cell that is known to have one.
    pub fn fg_unchecked(&self) -> (r: &T)
        requires
            self.wf(),
            self@.fg is Some,
        ensures
            Some(*r) == self@.fg,
    {
        let idx: usize = self.fg_index();
        self.slots[idx].as_ref().unwrap()
    }

    /// The background value, if the cell has one.
    pub fn bg(&self) -> (r: Option<&T>)
        requires
            self.wf(),
        ensures
            r == borrowed(&self@.bg),
    {
        let idx: usize = self.bg_index();
        if self.is_slot_present(idx) {
            self.slots[idx].as_ref()
        } else {
            None
        }
    }

    /// The background value of a cell that is known to have one.
    pub fn bg_unchecked(&self) -> (r: &T)
        requires
            self.wf(),
            self@.bg is Some,
        ensures
            Some(*r) == self@.bg,
    {
        let idx: usize = self.bg_index();
        self.slots[idx].as_ref().unwrap()
    }

    /// Whether both slots are empty.
    pub fn is_empty(&self) -> (r: bool)
        requires
            self.wf(),
        ensures
            r == self@.is_empty(),
            r == (self@.fg is None),
    {
        proof {
            lemma_presence_mask(self.bits);
        }
        (self.bits & (SLOT0_PRESENT | SLOT1_PRESENT)) == 0
    }

    /// Installs `val` as the new foreground.
    ///
    /// The former foreground, if any, becomes the background without being
    /// moved: it stays in its physical slot and only the polarity changes.
    /// A former background is dropped. The new value is written into the
    /// slot that the background had, or would have had.
    pub fn push(&mut self, val: T)
        requires
            old(self).wf(),
        ensures
            final(self).wf(),
            final(self)@ == old(self)@.push(val),
            final(self).demotes(old(self)),
    {
        let ghost tag: u8 = self.bits;
        self.push_fg_to_bg();
        let idx: usize = self.fg_index();
        self.slots[idx] = Some(val);
        self.bits |= 1 << idx;
        proof {
            lemma_tag_toggled(tag);
            lemma_tag_marked(tag ^ FG_SLOT, idx);
        }
    }

    /// Removes the foreground and returns it; the background, if any, is
    /// promoted in place by a change of polarity.
    ///
    /// A cell without a foreground is left exactly as it was.
    pub fn pull(&mut self) -> (evicted: Option<T>)
        requires
            old(self).wf(),
        ensures
            final(self).wf(),
            evicted == old(self)@.fg,
            final(self)@ == old(self)@.pull(),
            evicted is None ==> *final(self) == *old(self),
            evicted is Some ==> final(self).promotes(old(self)),
    {
        let fgi: usize = self.fg_index();
        if !self.is_slot_present(fgi) {
            return None;
        }
        let ghost tag: u8 = self.bits;
        let evicted = self.slots[fgi].take();
        self.bits &= !(1 << fgi);
        self.flip();
        proof {
            lemma_tag_cleared(tag, fgi);
            lemma_tag_toggled(tag & !(1u8 << fgi));
        }
        evicted
    }

    /// Removes the foreground of a cell that is known to have one, and
    /// returns it; the background, if any, is promoted in place.
    pub fn pull_unchecked(&mut self) -> (evicted: T)
        requires
            old(self).wf(),
            old(self)@.fg is Some,
        ensures
            final(self).wf(),
            Some(evicted) == old(self)@.fg,
            final(self)@ == old(self)@.pull(),
            final(self).promotes(old(self)),
    {
        let fgi: usize = self.fg_index();
        let ghost tag: u8 = self.bits;
        let evicted = self.slots[fgi].take();
        self.bits &= !(1 << fgi);
        self.flip();
        proof {
            lemma_tag_cleared(tag, fgi);
            lemma_tag_toggled(tag & !(1u8 << fgi));
        }
        evicted.unwrap()
    }

    /// Installs `val` as the new foreground and returns the background that
    /// it evicts, if there was one.
    ///
    /// The former foreground becomes the background without being moved.
    /// What is returned is the former background, not the value that is the
    /// background afterwards.
    pub fn swap(&mut self, val: T) -> (evicted: Option<T>)
        requires
            old(self).wf(),
        ensures
            final(self).wf(),
            evicted == old(self)@.bg,
            final(self)@ == old(self)@.push(val),
            final(self).demotes(old(self)),
    {
        let bgi: usize = self.bg_index();
        if self.is_slot_present(bgi) {
            let ghost tag: u8 = self.bits;
            let evicted = self.slots[bgi].take();
            self.slots[bgi] = Some(val);
            self.flip();
            proof {
                lemma_tag_toggled(tag);
            }
            evicted
        } else {
            self.push(val);
            None
        }
    }

    /// The physical index of the foreground slot.
    fn fg_index(&self) -> (idx: usize)
        ensures
            idx == tag_polarity(self.bits),
            idx < 2,
    {
        proof {
            lemma_polarity_shift(self.bits);
        }
        ((self.bits & FG_SLOT) >> 2u8) as usize
    }

    /// The physical index of the background slot.
    fn bg_index(&self) -> (idx: usize)
        ensures
            idx == 1 - tag_polarity(self.bits),
            idx < 2,
    {
        let fgi: usize = self.fg_index();
        proof {
            lemma_other_index(fgi);
        }
        fgi ^ 1
    }

    /// Whether the tag marks physical slot `idx` as holding a value.
    fn is_slot_present(&self, idx: usize) -> (r: bool)
        requires
            idx < 2,
        ensures
            r == tag_marks(self.bits, idx as int),
    {
        proof {
            lemma_slot_mask(idx);
        }
        (self.bits & (1u8 << idx)) != 0
    }

    /// Makes the foreground the background: drops a former background and
    /// toggles the polarity. The slot that is now the foreground is left
    /// empty for the caller to fill; its presence bit is not touched.
    fn push_fg_to_bg(&mut self)
        requires
            old(self).tag_agrees(),
        ensures
            final(self).bits == old(self).bits ^ FG_SLOT,
            final(self).slots@[1 - tag_polarity(old(self).bits)] is None,
            final(self).slots@[tag_polarity(old(self).bits)] == old(self).slots@[tag_polarity(
                old(self).bits,
            )],
    {
        let bgi: usize = self.bg_index();
        if self.is_slot_present(bgi) {
            self.slots[bgi] = None;
        }
        self.flip();
    }

    /// Exchanges the roles of the two slots.
    fn flip(&mut self)
        ensures
            final(self).bits == old(self).bits ^ FG_SLOT,
            final(self).slots == old(self).slots,
    {
        self.bits ^= FG_SLOT;
    }
}

} // verus!
