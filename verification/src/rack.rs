//! The rack: the row of tubes that makes up one puzzle.

use crate::tube::{
    drained, lemma_pour_progress, pour_amount, pourable, slot_at, solved, topped_up, valid_units,
    Tube, CAPACITY,
};
use crate::shuffle::shuffle;
use vstd::multiset::Multiset;
use vstd::prelude::*;

verus! {

/// What a pour did.
#[derive(Clone, Copy, Debug, PartialEq, Eq, Structural)]
pub enum PourOutcome {
    /// At least one unit changed tubes.
    Moved,
    /// The pour rule forbade the first unit; nothing changed.
    NoOp,
}

/// Every tube of the rack holds what a tube may hold.
pub open spec fn valid_rack(tubes: Seq<Seq<u8>>) -> bool {
    forall|i: int| 0 <= i < tubes.len() ==> valid_units(#[trigger] tubes[i])
}

/// The puzzle is done: every tube is empty or solved.
pub open spec fn rack_solved(tubes: Seq<Seq<u8>>) -> bool {
    forall|i: int| 0 <= i < tubes.len() ==> (#[trigger] tubes[i]).len() == 0 || solved(tubes[i])
}

/// All units of all tubes, as a multiset of colors.
pub open spec fn rack_units(tubes: Seq<Seq<u8>>) -> Multiset<u8> {
    tubes.flatten().to_multiset()
}

/// The units of a puzzle of `colors` colors before they are shuffled: four
/// of color 1, then four of color 2, and so on.
pub open spec fn fresh_units(colors: nat) -> Seq<u8> {
    Seq::new(CAPACITY as nat * colors, |i: int| (i / CAPACITY as int + 1) as u8)
}

/// The units of a puzzle of `colors` colors in any order: four of each
/// color from 1 to `colors`, and nothing else.
pub open spec fn fresh_mix(units: Multiset<u8>, colors: nat) -> bool {
    forall|c: u8|
        #[trigger] units.count(c) == if 1 <= c <= colors {
            CAPACITY as nat
        } else {
            0nat
        }
}

/// A puzzle as generation leaves it: `full` full tubes, then `empty` empty
/// ones, which together hold four units of each color from 1 to `full`.
pub open spec fn fresh_rack(tubes: Seq<Seq<u8>>, full: nat, empty: nat) -> bool {
    &&& valid_rack(tubes)
    &&& tubes.len() == full + empty
    &&& forall|t: int| 0 <= t < full ==> (#[trigger] tubes[t]).len() == CAPACITY
    &&& forall|t: int| full <= t < full + empty ==> (#[trigger] tubes[t]).len() == 0
    &&& fresh_mix(rack_units(tubes), full)
}

/// Units that can be dealt into tubes: whole tubes of them, none the
/// reserved value 0, and no more tubes in all than can be indexed.
pub open spec fn dealable(units: Seq<u8>, empty: nat) -> bool {
    &&& units.len() % CAPACITY as nat == 0
    &&& forall|i: int| 0 <= i < units.len() ==> units[i] != 0
    &&& units.len() / CAPACITY as nat + empty <= usize::MAX
}

/// The rack that dealing makes: each four units in a row fill the next
/// tube, bottom first, and `empty` empty tubes follow.
pub open spec fn dealt(units: Seq<u8>, empty: nat) -> Seq<Seq<u8>> {
    Seq::new(
        units.len() / CAPACITY as nat + empty,
        |t: int|
            if t < units.len() / CAPACITY as nat {
                units.subrange(CAPACITY * t, CAPACITY * t + CAPACITY)
            } else {
                Seq::empty()
            },
    )
}

/// One row of the rack for drawing: what each tube shows at `level`.
pub open spec fn row_at(tubes: Seq<Seq<u8>>, level: int) -> Seq<u8> {
    Seq::new(tubes.len(), |t: int| slot_at(tubes[t], level))
}

/// The rack for drawing, top row first.
pub open spec fn rows_of(tubes: Seq<Seq<u8>>) -> Seq<Seq<u8>> {
    Seq::new(CAPACITY as nat, |r: int| row_at(tubes, CAPACITY - 1 - r))
}

/// The rack after a pour from tube `from` onto tube `to`.
pub open spec fn pour_result(tubes: Seq<Seq<u8>>, from: int, to: int) -> Seq<Seq<u8>> {
    if from == to {
        tubes
    } else {
        let amount = pour_amount(tubes[from], tubes[to]);
        tubes.update(from, drained(tubes[from], amount)).update(
            to,
            topped_up(tubes[to], tubes[from], amount),
        )
    }
}

/// Replacing one tube replaces its units in the rack's multiset.
pub proof fn lemma_units_of_update(tubes: Seq<Seq<u8>>, i: int, tube: Seq<u8>)
    requires
        0 <= i < tubes.len(),
    ensures
        rack_units(tubes.update(i, tube)).add(tubes[i].to_multiset()) =~= rack_units(tubes).add(
            tube.to_multiset(),
        ),
    decreases tubes.len(),
{
    broadcast use Seq::lemma_flatten_push, vstd::seq_lib::lemma_multiset_commutative;

    let front = tubes.drop_last();
    assert(tubes =~= front.push(tubes.last()));
    if i == tubes.len() - 1 {
        assert(tubes.update(i, tube) =~= front.push(tube));
    } else {
        lemma_units_of_update(front, i, tube);
        assert(tubes.update(i, tube) =~= front.update(i, tube).push(tubes.last()));
    }
}

/// Dealing puts every unit into a tube, in order, and adds none.
pub proof fn lemma_dealt_units(units: Seq<u8>, empty: nat)
    requires
        units.len() % CAPACITY as nat == 0,
    ensures
        dealt(units, empty).flatten() == units,
    decreases units.len() + empty,
{
    broadcast use Seq::lemma_flatten_push;

    let rack = dealt(units, empty);
    if empty > 0 {
        let rest = dealt(units, (empty - 1) as nat);
        lemma_dealt_units(units, (empty - 1) as nat);
        assert(rack =~= rest.push(Seq::empty()));
    } else if units.len() > 0 {
        let front = units.take(units.len() - CAPACITY);
        let rest = dealt(front, 0);
        lemma_dealt_units(front, 0);
        assert(rack =~~= rest.push(units.skip(units.len() - CAPACITY)));
    }
}

/// The unshuffled units of a puzzle hold four of each of its colors.
pub proof fn lemma_fresh_units(colors: nat)
    requires
        colors <= u8::MAX,
    ensures
        fresh_mix(fresh_units(colors).to_multiset(), colors),
        forall|i: int| 0 <= i < fresh_units(colors).len() ==> fresh_units(colors)[i] != 0,
    decreases colors,
{
    broadcast use vstd::seq_lib::lemma_multiset_commutative, vstd::seq_lib::to_multiset_build;

    if colors == 0 {
        fresh_units(0).to_multiset_ensures();
    } else {
        let before = fresh_units((colors - 1) as nat);
        let color = colors as u8;
        let four = Seq::<u8>::empty().push(color).push(color).push(color).push(color);
        lemma_fresh_units((colors - 1) as nat);
        assert(fresh_units(colors) =~= before + four);
        Seq::<u8>::empty().to_multiset_ensures();
        assert forall|c: u8|
            #[trigger] fresh_units(colors).to_multiset().count(c) == if 1 <= c <= colors {
                CAPACITY as nat
            } else {
                0nat
            } by {
            assert(fresh_units(colors).to_multiset().count(c) == before.to_multiset().count(c)
                + four.to_multiset().count(c));
        }
    }
}

/// A pour keeps the rack valid and its length, and neither makes nor loses a unit.
pub proof fn lemma_pour_result(tubes: Seq<Seq<u8>>, from: int, to: int)
    requires
        valid_rack(tubes),
        0 <= from < tubes.len(),
        0 <= to < tubes.len(),
    ensures
        pour_result(tubes, from, to).len() == tubes.len(),
        valid_rack(pour_result(tubes, from, to)),
        rack_units(pour_result(tubes, from, to)) == rack_units(tubes),
{
    broadcast use vstd::seq_lib::lemma_multiset_commutative;

    if from != to {
        let src = tubes[from];
        let dst = tubes[to];
        let amount = pour_amount(src, dst);
        let mid = tubes.update(from, drained(src, amount));
        let end = mid.update(to, topped_up(dst, src, amount));
        lemma_pour_progress(src, dst, amount);
        let run = src.skip(src.len() - amount);
        assert(src =~= drained(src, amount) + run);
        lemma_units_of_update(tubes, from, drained(src, amount));
        lemma_units_of_update(mid, to, topped_up(dst, src, amount));
        assert forall|c: u8| rack_units(end).count(c) == rack_units(tubes).count(c) by {
            assert(rack_units(mid).add(src.to_multiset()).count(c) == rack_units(tubes).add(
                drained(src, amount).to_multiset(),
            ).count(c));
            assert(rack_units(end).add(dst.to_multiset()).count(c) == rack_units(mid).add(
                topped_up(dst, src, amount).to_multiset(),
            ).count(c));
        }
        assert forall|i: int| 0 <= i < end.len() implies valid_units(#[trigger] end[i]) by {
            if i != from && i != to {
                assert(end[i] == tubes[i]);
            }
        }
    }
}

/// The tubes of one puzzle, in the order in which the player names them.
#[derive(Debug)]
pub struct Rack {
    tubes: Vec<Tube>,
}

impl View for Rack {
    type V = Seq<Seq<u8>>;

    /// The tubes in order, each from bottom to top.
    closed spec fn view(&self) -> Seq<Seq<u8>> {
        self.tubes@.map_values(|t: Tube| t@)
    }
}

impl Rack {
    /// The invariant of every rack that the library hands out.
    pub open spec fn wf(&self) -> bool {
        valid_rack(self@)
    }

    /// A fresh puzzle: `full_tube_count` full tubes that hold four units of
    /// each of as many colors in a random order, then `empty_tube_count`
    /// empty tubes. Nothing looks at whether the puzzle can be solved.
    pub fn new(full_tube_count: usize, empty_tube_count: usize) -> (rack: Rack)
        requires
            full_tube_count <= u8::MAX,
            full_tube_count + empty_tube_count <= usize::MAX,
        ensures
            rack.wf(),
            fresh_rack(rack@, full_tube_count as nat, empty_tube_count as nat),
    {
        let mut units = Rack::sorted_units(full_tube_count);
        let ghost sorted = units@;
        shuffle(&mut units);
        proof {
            lemma_fresh_units(full_tube_count as nat);
            vstd::seq_lib::to_multiset_len(units@);
            vstd::seq_lib::to_multiset_len(sorted);
            assert forall|i: int| 0 <= i < units@.len() implies units@[i] != 0 by {
                vstd::seq_lib::to_multiset_contains(units@, units@[i]);
            }
        }
        Rack::fill(units.as_slice(), empty_tube_count)
    }

    /// The rack that holds `units` in the order given, four to a tube, and
    /// `empty_tube_count` empty tubes after them; `None` where the units
    /// cannot be dealt.
    pub fn deal(units: &[u8], empty_tube_count: usize) -> (made: Option<Rack>)
        ensures
            made.is_some() <==> dealable(units@, empty_tube_count as nat),
            made matches Some(rack) ==> {
                &&& rack.wf()
                &&& rack@ == dealt(units@, empty_tube_count as nat)
                &&& rack_units(rack@) == units@.to_multiset()
            },
    {
        if units.len() % CAPACITY != 0 || empty_tube_count > usize::MAX - units.len() / CAPACITY {
            return None;
        }
        let mut i: usize = 0;
        while i < units.len()
            invariant
                i <= units.len(),
                forall|k: int| 0 <= k < i ==> units@[k] != 0,
            decreases units.len() - i,
        {
            if units[i] == 0 {
                return None;
            }
            i += 1;
        }
        Some(Rack::fill(units, empty_tube_count))
    }

    /// A rack of the tubes given, in their order.
    pub fn from_tubes(tubes: Vec<Tube>) -> (rack: Rack)
        requires
            forall|i: int| 0 <= i < tubes@.len() ==> (#[trigger] tubes@[i]).wf(),
        ensures
            rack.wf(),
            rack@.len() == tubes@.len(),
            forall|i: int| 0 <= i < tubes@.len() ==> rack@[i] == (#[trigger] tubes@[i])@,
    {
        Rack { tubes }
    }

    /// The unshuffled units of a puzzle of `colors` colors.
    fn sorted_units(colors: usize) -> (units: Vec<u8>)
        requires
            colors <= u8::MAX,
        ensures
            units@ == fresh_units(colors as nat),
    {
        let mut units: Vec<u8> = Vec::new();
        let mut color: u8 = 0;
        while (color as usize) < colors
            invariant
                color <= colors <= u8::MAX,
                units@ == fresh_units(color as nat),
            decreases colors - color,
        {
            color += 1;
            units.push(color);
            units.push(color);
            units.push(color);
            units.push(color);
        }
        units
    }

    /// Deals units that can be dealt.
    fn fill(units: &[u8], empty_tube_count: usize) -> (rack: Rack)
        requires
            dealable(units@, empty_tube_count as nat),
        ensures
            rack.wf(),
            rack@ == dealt(units@, empty_tube_count as nat),
            rack_units(rack@) == units@.to_multiset(),
    {
        let count = units.len() / CAPACITY + empty_tube_count;
        let mut tubes: Vec<Tube> = Vec::new();
        let mut t: usize = 0;
        while t < count
            invariant
                t <= count,
                tubes@.len() == t,
                forall|k: int| 0 <= k < t ==> (#[trigger] tubes@[k])@ == Seq::<u8>::empty(),
            decreases count - t,
        {
            tubes.push(Tube::new_empty());
            t += 1;
        }
        let mut i: usize = 0;
        while i < units.len()
            invariant
                i <= units.len(),
                dealable(units@, empty_tube_count as nat),
                count == units@.len() / CAPACITY as nat + empty_tube_count,
                tubes@.len() == count,
                forall|k: int|
                    0 <= k < count ==> (#[trigger] tubes@[k])@ == if k < i / CAPACITY {
                        units@.subrange(CAPACITY * k, CAPACITY * k + CAPACITY)
                    } else if k == i / CAPACITY {
                        units@.subrange(CAPACITY * k, i as int)
                    } else {
                        Seq::<u8>::empty()
                    },
            decreases units.len() - i,
        {
            tubes[i / CAPACITY].push(units[i]);
            i += 1;
        }
        let rack = Rack { tubes };
        proof {
            lemma_dealt_units(units@, empty_tube_count as nat);
            assert(rack@ =~~= dealt(units@, empty_tube_count as nat));
        }
        rack
    }

    /// The tube at `index`.
    pub fn tube(&self, index: usize) -> (tube: &Tube)
        requires
            index < self@.len(),
        ensures
            tube@ == self@[index as int],
    {
        &self.tubes[index]
    }

    /// One row of the rack for drawing: what each tube shows at `level`,
    /// counted from the bottom; 0 stands for an empty slot.
    pub fn row(&self, level: usize) -> (row: Vec<u8>)
        ensures
            row@ == row_at(self@, level as int),
    {
        let mut row: Vec<u8> = Vec::new();
        let mut t: usize = 0;
        while t < self.tubes.len()
            invariant
                t <= self.tubes.len(),
                row@ == row_at(self@, level as int).take(t as int),
            decreases self.tubes.len() - t,
        {
            row.push(self.tubes[t].slot(level));
            t += 1;
        }
        row
    }

    /// The rack for drawing: its `CAPACITY` rows, top row first.
    pub fn rows(&self) -> (rows: Vec<Vec<u8>>)
        ensures
            rows.deep_view() == rows_of(self@),
    {
        let mut rows: Vec<Vec<u8>> = Vec::new();
        let mut level: usize = CAPACITY;
        while level > 0
            invariant
                level <= CAPACITY,
                rows@.len() == CAPACITY - level,
                forall|r: int|
                    0 <= r < rows@.len() ==> (#[trigger] rows@[r])@ == row_at(
                        self@,
                        CAPACITY - 1 - r,
                    ),
            decreases level,
        {
            level -= 1;
            rows.push(self.row(level));
        }
        assert(rows.deep_view() =~~= rows_of(self@));
        rows
    }

    /// Number of tubes.
    pub fn len(&self) -> (n: usize)
        ensures
            n == self@.len(),
    {
        self.tubes.len()
    }

    /// Whether every tube is empty or solved.
    pub fn is_solved(&self) -> (r: bool)
        ensures
            r == rack_solved(self@),
    {
        let mut i: usize = 0;
        while i < self.tubes.len()
            invariant
                i <= self.tubes.len(),
                forall|k: int| 0 <= k < i ==> (#[trigger] self@[k]).len() == 0 || solved(self@[k]),
            decreases self.tubes.len() - i,
        {
            if !(self.tubes[i].is_solved() || self.tubes[i].is_empty()) {
                assert(!(self@[i as int].len() == 0 || solved(self@[i as int])));
                return false;
            }
            i += 1;
        }
        true
    }

    /// Pours from tube `first` onto tube `second`: units move one at a time
    /// for as long as the pour rule allows the next one.
    pub fn pour(&mut self, first: usize, second: usize) -> (outcome: PourOutcome)
        requires
            old(self).wf(),
            first < old(self)@.len(),
            second < old(self)@.len(),
        ensures
            final(self).wf(),
            final(self)@ == pour_result(old(self)@, first as int, second as int),
            final(self)@.len() == old(self)@.len(),
            rack_units(final(self)@) == rack_units(old(self)@),
            outcome == PourOutcome::NoOp <==> final(self)@ == old(self)@,
            outcome == PourOutcome::Moved <==> first != second && pourable(
                old(self)@[first as int],
                old(self)@[second as int],
            ),
    {
        let ghost src = self@[first as int];
        let ghost dst = self@[second as int];
        let ghost mut moved: nat = 0;
        let mut outcome = PourOutcome::NoOp;
        proof {
            lemma_pour_result(self@, first as int, second as int);
            lemma_pour_progress(src, dst, 0);
            assert(drained(src, 0) =~= src);
        }
        while first != second && self.tubes[first].can_pour(&self.tubes[second])
            invariant
                self.wf(),
                first < self@.len(),
                second < self@.len(),
                self@.len() == old(self)@.len(),
                src == old(self)@[first as int],
                dst == old(self)@[second as int],
                valid_units(src),
                valid_units(dst),
                moved <= pour_amount(src, dst),
                first == second ==> moved == 0,
                first != second ==> self@[first as int] == drained(src, moved),
                first != second ==> self@[second as int] == topped_up(dst, src, moved),
                forall|i: int|
                    0 <= i < self@.len() && (first == second || (i != first && i != second))
                        ==> self@[i] == old(self)@[i],
                moved > 0 <==> outcome == PourOutcome::Moved,
            decreases self@[first as int].len(),
        {
            let ghost before = self@;
            proof {
                lemma_pour_progress(src, dst, moved);
                lemma_pour_progress(src, dst, moved + 1);
            }
            let color = self.tubes[first].pop();
            self.tubes[second].push(color);
            outcome = PourOutcome::Moved;
            proof {
                moved = moved + 1;
                assert(self.tubes[first as int]@ == drained(src, moved));
                assert(self@ =~= before.update(first as int, drained(src, moved)).update(
                    second as int,
                    topped_up(dst, src, moved),
                ));
            }
        }
        proof {
            if first != second {
                lemma_pour_progress(src, dst, moved);
                assert(moved == pour_amount(src, dst));
                assert(self@ =~= pour_result(old(self)@, first as int, second as int));
                if moved == 0 {
                    assert(self@ =~= old(self)@);
                }
            }
        }
        outcome
    }
}

} // verus!
