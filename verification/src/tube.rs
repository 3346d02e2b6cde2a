//! A single tube: a stack of at most four colored units.

use vstd::prelude::*;

verus! {

/// Number of units a full tube holds.
pub const CAPACITY: usize = 4;

/// What a tube may hold: at most `CAPACITY` units, none of them the
/// reserved value 0, which stands for an empty slot.
pub open spec fn valid_units(units: Seq<u8>) -> bool {
    &&& units.len() <= CAPACITY
    &&& forall|i: int| 0 <= i < units.len() ==> units[i] != 0
}

/// Every unit has the color of the bottom one.
pub open spec fn uniform(units: Seq<u8>) -> bool {
    forall|i: int| 0 <= i < units.len() ==> #[trigger] units[i] == units[0]
}

/// A tube at rest: full, and of one color.
pub open spec fn solved(units: Seq<u8>) -> bool {
    units.len() == CAPACITY && uniform(units)
}

/// The pour rule: one unit may move from the top of `src` to the top of `dst`.
pub open spec fn pourable(src: Seq<u8>, dst: Seq<u8>) -> bool {
    &&& src.len() > 0
    &&& !solved(src)
    &&& !solved(dst)
    &&& dst.len() != CAPACITY
    &&& (dst.len() == 0 || dst.last() == src.last())
}

/// What the slot at `level` shows, counted from the bottom: the color of
/// the unit there, or 0 where the tube holds no unit that high.
pub open spec fn slot_at(units: Seq<u8>, level: int) -> u8 {
    if 0 <= level < units.len() {
        units[level]
    } else {
        0
    }
}

/// Length of the run of equal colors that ends at the top of the tube.
pub open spec fn top_run(units: Seq<u8>) -> nat
    decreases units.len(),
{
    if units.len() == 0 {
        0
    } else if units.len() >= 2 && units[units.len() - 2] == units.last() {
        1 + top_run(units.drop_last())
    } else {
        1
    }
}

/// Number of units that one pour moves from `src` to `dst`: the whole top
/// run of `src`, or as much of it as `dst` has room for; nothing where the
/// pour rule forbids the first unit.
pub open spec fn pour_amount(src: Seq<u8>, dst: Seq<u8>) -> nat {
    if pourable(src, dst) {
        if top_run(src) <= CAPACITY - dst.len() {
            top_run(src)
        } else {
            (CAPACITY - dst.len()) as nat
        }
    } else {
        0
    }
}

/// The source tube after `amount` units have left it.
pub open spec fn drained(src: Seq<u8>, amount: nat) -> Seq<u8> {
    src.take(src.len() - amount)
}

/// The destination tube after the top `amount` units of `src` have landed
/// on it. A pour moves units of one color only, so their order is of no
/// account.
pub open spec fn topped_up(dst: Seq<u8>, src: Seq<u8>, amount: nat) -> Seq<u8> {
    dst + src.skip(src.len() - amount)
}

/// The top run is made of the top color, is never longer than the tube, and
/// ends where the color changes.
pub proof fn lemma_top_run(units: Seq<u8>)
    ensures
        top_run(units) <= units.len(),
        units.len() > 0 ==> top_run(units) >= 1,
        forall|i: int| units.len() - top_run(units) <= i < units.len() ==> units[i] == units.last(),
        top_run(units) < units.len() ==> units[units.len() - top_run(units) - 1] != units.last(),
    decreases units.len(),
{
    if units.len() >= 2 && units[units.len() - 2] == units.last() {
        let rest = units.drop_last();
        lemma_top_run(rest);
        assert forall|i: int| units.len() - top_run(units) <= i < units.len() implies units[i]
            == units.last() by {
            if i < rest.len() {
                assert(units[i] == rest[i]);
            }
        }
    }
}

/// While fewer units than `pour_amount` have moved, the pour rule allows the
/// next one, and it has the color of the first; once `pour_amount` have
/// moved, the rule forbids another.
pub proof fn lemma_pour_progress(src: Seq<u8>, dst: Seq<u8>, moved: nat)
    requires
        valid_units(src),
        valid_units(dst),
        moved <= pour_amount(src, dst),
    ensures
        moved <= src.len(),
        dst.len() + moved <= CAPACITY,
        valid_units(drained(src, moved)),
        valid_units(topped_up(dst, src, moved)),
        moved < pour_amount(src, dst) ==> topped_up(dst, src, moved + 1) == topped_up(
            dst,
            src,
            moved,
        ).push(drained(src, moved).last()),
        pourable(drained(src, moved), topped_up(dst, src, moved)) <==> moved < pour_amount(
            src,
            dst,
        ),
{
    lemma_top_run(src);
    if moved == 0 {
        assert(drained(src, moved) == src);
    }
}

/// A bounded stack of colored units; the last unit is the top.
#[derive(Debug)]
pub struct Tube {
    units: Vec<u8>,
}

impl View for Tube {
    type V = Seq<u8>;

    /// The units from bottom to top.
    closed spec fn view(&self) -> Seq<u8> {
        self.units@
    }
}

impl Clone for Tube {
    fn clone(&self) -> (copy: Tube)
        ensures
            copy@ == self@,
    {
        Tube { units: self.units.clone() }
    }
}

impl Tube {
    /// The invariant of every tube that the library hands out.
    pub open spec fn wf(&self) -> bool {
        valid_units(self@)
    }

    /// A tube with nothing in it.
    pub fn new_empty() -> (tube: Tube)
        ensures
            tube@ == Seq::<u8>::empty(),
            tube.wf(),
    {
        Tube { units: Vec::with_capacity(CAPACITY) }
    }

    /// A tube that holds `units`, bottom first, if a tube may hold them.
    pub fn from_units(units: &[u8]) -> (made: Option<Tube>)
        ensures
            made.is_some() <==> valid_units(units@),
            made matches Some(tube) ==> tube@ == units@ && tube.wf(),
    {
        if units.len() > CAPACITY {
            return None;
        }
        let mut tube = Tube::new_empty();
        let mut i: usize = 0;
        while i < units.len()
            invariant
                i <= units.len() <= CAPACITY,
                tube.wf(),
                tube@ == units@.take(i as int),
            decreases units.len() - i,
        {
            if units[i] == 0 {
                return None;
            }
            tube.push(units[i]);
            i += 1;
        }
        assert(units@.take(i as int) =~= units@);
        Some(tube)
    }

    /// The units from bottom to top.
    pub fn units(&self) -> (units: &[u8])
        ensures
            units@ == self@,
    {
        self.units.as_slice()
    }

    /// What the slot at `level` shows: 0 for an empty slot, else the color.
    pub fn slot(&self, level: usize) -> (shown: u8)
        ensures
            shown == slot_at(self@, level as int),
    {
        if level < self.units.len() {
            self.units[level]
        } else {
            0
        }
    }

    /// Puts one unit on top.
    pub(crate) fn push(&mut self, color: u8)
        requires
            old(self).wf(),
            old(self)@.len() < CAPACITY,
            color != 0,
        ensures
            final(self)@ == old(self)@.push(color),
            final(self).wf(),
    {
        self.units.push(color);
    }

    /// Takes the top unit off.
    pub(crate) fn pop(&mut self) -> (color: u8)
        requires
            old(self).wf(),
            old(self)@.len() > 0,
        ensures
            color == old(self)@.last(),
            final(self)@ == old(self)@.drop_last(),
            final(self).wf(),
    {
        let top = self.units.pop();
        top.unwrap()
    }

    /// Number of units in the tube.
    pub fn len(&self) -> (n: usize)
        ensures
            n == self@.len(),
    {
        self.units.len()
    }

    /// Whether the tube holds no unit.
    pub fn is_empty(&self) -> (r: bool)
        ensures
            r == (self@.len() == 0),
    {
        self.units.len() == 0
    }

    /// Whether the tube holds as many units as it can.
    pub fn is_full(&self) -> (r: bool)
        ensures
            r == (self@.len() == CAPACITY),
    {
        self.units.len() == CAPACITY
    }

    /// The color on top.
    pub fn top_color(&self) -> (color: u8)
        requires
            self@.len() > 0,
        ensures
            color == self@.last(),
    {
        self.units[self.units.len() - 1]
    }

    /// Whether the tube is full of a single color.
    pub fn is_solved(&self) -> (r: bool)
        ensures
            r == solved(self@),
    {
        if self.units.len() != CAPACITY {
            return false;
        }
        let bottom: u8 = self.units[0];
        let mut i: usize = 1;
        while i < CAPACITY
            invariant
                self.units@.len() == CAPACITY,
                bottom == self.units@[0],
                1 <= i <= CAPACITY,
                forall|k: int| 0 <= k < i ==> self.units@[k] == bottom,
            decreases CAPACITY - i,
        {
            if self.units[i] != bottom {
                return false;
            }
            i += 1;
        }
        true
    }

    /// Whether the top unit of this tube may move onto `other`.
    pub fn can_pour(&self, other: &Tube) -> (r: bool)
        ensures
            r == pourable(self@, other@),
    {
        !(self.is_empty()
            || self.is_solved()
            || other.is_solved()
            || other.is_full()
            || (!other.is_empty() && self.top_color() != other.top_color()))
    }
}

} // verus!
