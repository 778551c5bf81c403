//! A comment in the making, as a text and the bytes that may still be added
//! to it: what is offered to it goes in whole or not at all.
use crate::text::{byte_len, lemma_byte_len_concat};
use vstd::prelude::*;

verus! {

/// A comment in the making: the text so far, and the bytes that may still be added.
pub struct Draft {
    pub text: Seq<char>,
    pub capacity: nat,
}

impl Draft {
    /// Whether a unit of text still fits.
    pub open spec fn accepts(self, unit: Seq<char>) -> bool {
        byte_len(unit) <= self.capacity
    }

    /// The draft after a unit was offered: the unit is added whole and the
    /// capacity goes down by its length, or nothing changes.
    pub open spec fn put(self, unit: Seq<char>) -> Draft {
        if self.accepts(unit) {
            Draft { text: self.text + unit, capacity: (self.capacity - byte_len(unit)) as nat }
        } else {
            self
        }
    }

    /// The draft after the units of a table were offered in turn: they are
    /// added up to the first that does not fit, and none after it.
    pub open spec fn put_run(self, units: Seq<Seq<char>>) -> Draft
        decreases units.len(),
    {
        if units.len() == 0 || !self.accepts(units[0]) {
            self
        } else {
            self.put(units[0]).put_run(units.drop_first())
        }
    }

    /// The length that the text can reach: its length now and the bytes that
    /// may still be added.
    pub open spec fn reach(self) -> nat {
        byte_len(self.text) + self.capacity
    }

    /// The number of units that are added when the units of a table are
    /// offered in turn: those before the first that does not fit.
    pub open spec fn taken(self, units: Seq<Seq<char>>) -> nat
        decreases units.len(),
    {
        if units.len() == 0 || !self.accepts(units[0]) {
            0
        } else {
            1 + self.put(units[0]).taken(units.drop_first())
        }
    }
}

/// The units written one after the other.
pub open spec fn joined(units: Seq<Seq<char>>) -> Seq<char>
    decreases units.len(),
{
    if units.len() == 0 {
        Seq::empty()
    } else {
        units[0] + joined(units.drop_first())
    }
}

/// A unit is added whole or not at all, and what is added is taken from the
/// capacity byte for byte: a unit longer than the capacity leaves the draft
/// unchanged, and the text never outgrows the length that it could reach before.
pub proof fn lemma_put_whole_or_nothing(draft: Draft, unit: Seq<char>)
    ensures
        byte_len(unit) > draft.capacity ==> draft.put(unit) == draft,
        byte_len(unit) <= draft.capacity ==> draft.put(unit).text == draft.text + unit,
        draft.put(unit).reach() == draft.reach(),
{
    lemma_byte_len_concat(draft.text, unit);
}

/// A table is cut only between units. What is added is the longest run of
/// units from the first on that fits in the capacity, the capacity goes down
/// by the length of that run, and the unit after the run, if there is one,
/// is longer than what is left.
pub proof fn lemma_put_run_cuts_between_units(draft: Draft, units: Seq<Seq<char>>)
    ensures
        draft.taken(units) <= units.len(),
        draft.put_run(units).text == draft.text + joined(units.take(draft.taken(units) as int)),
        draft.put_run(units).capacity + byte_len(joined(units.take(draft.taken(units) as int)))
            == draft.capacity,
        draft.taken(units) < units.len() ==> byte_len(units[draft.taken(units) as int])
            > draft.put_run(units).capacity,
        draft.put_run(units).reach() == draft.reach(),
    decreases units.len(),
{
    if units.len() == 0 || !draft.accepts(units[0]) {
        assert(units.take(0) == Seq::<Seq<char>>::empty());
        assert(draft.text + Seq::<char>::empty() == draft.text);
        assert(byte_len(Seq::<char>::empty()) == 0);
    } else {
        let next = draft.put(units[0]);
        let rest = units.drop_first();
        let k = next.taken(rest) as int;
        lemma_put_run_cuts_between_units(next, rest);
        lemma_put_whole_or_nothing(draft, units[0]);
        assert(units.take(k + 1).drop_first() == rest.take(k));
        assert(units.take(k + 1)[0] == units[0]);
        assert(draft.text + (units[0] + joined(rest.take(k))) == (draft.text + units[0]) + joined(
            rest.take(k),
        ));
        lemma_byte_len_concat(units[0], joined(rest.take(k)));
        if k < rest.len() {
            assert(rest[k] == units[k + 1]);
        }
    }
}

} // verus!
