//! A table with one place for each command letter.

use vstd::prelude::*;
use crate::gcode::letter::{lemma_letter_places, GcodeLetter, LETTERS};
use crate::gcode::number::{GcodeNumber, NumberView};

verus! {

/// The numbers that are set for some of the letters. Each letter has its
/// place in the table, so no look-up fails for want of one.
#[derive(Debug)]
pub struct LetterMap {
    slots: [Option<GcodeNumber>; 23],
}

pub open spec fn slot_view(slot: Option<GcodeNumber>) -> Option<NumberView> {
    match slot {
        Some(number) => Some(number@),
        None => None,
    }
}

impl View for LetterMap {
    type V = Map<GcodeLetter, NumberView>;

    closed spec fn view(&self) -> Map<GcodeLetter, NumberView> {
        Map::new(
            |letter: GcodeLetter| self.slots@[letter.spec_index() as int] is Some,
            |letter: GcodeLetter| self.slots@[letter.spec_index() as int]->0@,
        )
    }
}

impl LetterMap {
    /// A table in which no letter is set.
    pub fn new() -> (table: Self)
        ensures
            table@ == Map::<GcodeLetter, NumberView>::empty(),
    {
        let table = LetterMap {
            slots: [
                None, None, None, None, None, None, None, None, None, None, None, None,
                None, None, None, None, None, None, None, None, None, None, None,
            ],
        };
        assert(table@ =~= Map::<GcodeLetter, NumberView>::empty());
        table
    }

    /// Sets `letter` to `number`, in place of what it was set to.
    pub fn insert(&mut self, letter: GcodeLetter, number: GcodeNumber)
        ensures
            final(self)@ == old(self)@.insert(letter, number@),
    {
        let ghost before = self.slots@;
        let i = letter.index();
        self.slots[i] = Some(number);
        proof {
            assert forall|other: GcodeLetter| other != letter implies self.slots@[other.spec_index() as int]
                == before[other.spec_index() as int] by {
                lemma_letter_places(other, letter);
            }
            assert(self@ =~= old(self)@.insert(letter, number@));
        }
    }

    /// What `letter` is set to.
    pub fn get(&self, letter: GcodeLetter) -> (found: Option<&GcodeNumber>)
        ensures
            match found {
                Some(number) => self@.contains_key(letter) && number@ == self@[letter],
                None => !self@.contains_key(letter),
            },
    {
        self.slots[letter.index()].as_ref()
    }

    pub fn contains_key(&self, letter: GcodeLetter) -> (set: bool)
        ensures
            set == self@.contains_key(letter),
    {
        self.slots[letter.index()].is_some()
    }

    /// Sets every letter that `other` sets to what `other` sets it to.
    pub fn extend(&mut self, other: &LetterMap)
        ensures
            final(self)@ == old(self)@.union_prefer_right(other@),
    {
        let ghost before = self.slots@;
        let mut i: usize = 0;
        while i < LETTERS
            invariant
                0 <= i <= LETTERS,
                forall|j: int|
                    0 <= j < i ==> slot_view(#[trigger] self.slots@[j]) == if other.slots@[j] is Some {
                        slot_view(other.slots@[j])
                    } else {
                        slot_view(before[j])
                    },
                forall|j: int| i <= j < LETTERS ==> #[trigger] self.slots@[j] == before[j],
            decreases LETTERS - i,
        {
            match &other.slots[i] {
                Some(number) => {
                    self.slots[i] = Some(number.clone());
                },
                None => {},
            }
            i = i + 1;
        }
        proof {
            assert forall|letter: GcodeLetter| true implies 0 <= #[trigger] letter.spec_index() < 23 by {
                lemma_letter_places(letter, letter);
            }
            assert(self@ =~= old(self)@.union_prefer_right(other@));
        }
    }
}

impl Clone for LetterMap {
    fn clone(&self) -> (copy: Self)
        ensures
            copy@ == self@,
    {
        let mut copy = LetterMap::new();
        copy.extend(self);
        assert(copy@ =~= self@);
        copy
    }
}

} // verus!
