//! What holds of every rack, whatever the player pours.

use crate::rack::{
    fresh_mix, fresh_rack, lemma_pour_result, lemma_units_of_update, pour_result, rack_solved,
    rack_units, valid_rack,
};
use crate::tube::{
    drained, lemma_pour_progress, lemma_top_run, pour_amount, pourable, solved, topped_up,
    valid_units, CAPACITY,
};
use vstd::prelude::*;

verus! {

/// Every pour of `moves` names two tubes of a rack of `tubes` tubes.
pub open spec fn moves_in_range(moves: Seq<(int, int)>, tubes: nat) -> bool {
    forall|k: int|
        0 <= k < moves.len() ==> 0 <= (#[trigger] moves[k]).0 < tubes && 0 <= moves[k].1 < tubes
}

/// The rack after the pours of `moves`, made in order; each move names the
/// source tube, then the destination.
pub open spec fn pours_result(tubes: Seq<Seq<u8>>, moves: Seq<(int, int)>) -> Seq<Seq<u8>>
    decreases moves.len(),
{
    if moves.len() == 0 {
        tubes
    } else {
        pour_result(pours_result(tubes, moves.drop_last()), moves.last().0, moves.last().1)
    }
}

/// The rack after one unit has gone from the top of tube `from` to the top
/// of tube `to`.
pub open spec fn one_unit_moved(tubes: Seq<Seq<u8>>, from: int, to: int) -> Seq<Seq<u8>> {
    tubes.update(from, tubes[from].drop_last()).update(to, tubes[to].push(tubes[from].last()))
}

/// Capacity: after any sequence of pours the rack has the tubes it had, and
/// none of them holds more than `CAPACITY` units or a unit of color 0.
pub proof fn law_pours_keep_capacity(tubes: Seq<Seq<u8>>, moves: Seq<(int, int)>)
    requires
        valid_rack(tubes),
        moves_in_range(moves, tubes.len()),
    ensures
        pours_result(tubes, moves).len() == tubes.len(),
        valid_rack(pours_result(tubes, moves)),
        forall|i: int| 0 <= i < tubes.len() ==> (#[trigger] pours_result(tubes, moves)[i]).len()
            <= CAPACITY,
    decreases moves.len(),
{
    if moves.len() > 0 {
        law_pours_keep_capacity(tubes, moves.drop_last());
        lemma_pour_result(pours_result(tubes, moves.drop_last()), moves.last().0, moves.last().1);
    }
}

/// Conservation: after any sequence of pours the rack holds, color by
/// color, exactly the units it held before.
pub proof fn law_pours_conserve_units(tubes: Seq<Seq<u8>>, moves: Seq<(int, int)>)
    requires
        valid_rack(tubes),
        moves_in_range(moves, tubes.len()),
    ensures
        rack_units(pours_result(tubes, moves)) == rack_units(tubes),
    decreases moves.len(),
{
    if moves.len() > 0 {
        law_pours_keep_capacity(tubes, moves.drop_last());
        law_pours_conserve_units(tubes, moves.drop_last());
        lemma_pour_result(pours_result(tubes, moves.drop_last()), moves.last().0, moves.last().1);
    }
}

/// No-ops: a pour from a tube onto itself, from or onto a solved tube, or
/// onto a full tube leaves every tube as it was.
pub proof fn law_idle_pours_change_nothing(tubes: Seq<Seq<u8>>, from: int, to: int)
    requires
        valid_rack(tubes),
        0 <= from < tubes.len(),
        0 <= to < tubes.len(),
        from == to || solved(tubes[from]) || solved(tubes[to]) || tubes[to].len() == CAPACITY,
    ensures
        pour_result(tubes, from, to) == tubes,
{
    if from != to {
        assert(drained(tubes[from], 0) =~= tubes[from]);
    }
}

/// A pour changes the rack exactly when the pour rule allows its first unit.
pub proof fn law_pour_changes_iff_pourable(tubes: Seq<Seq<u8>>, from: int, to: int)
    requires
        valid_rack(tubes),
        0 <= from < tubes.len(),
        0 <= to < tubes.len(),
    ensures
        pour_result(tubes, from, to) != tubes <==> from != to && pourable(tubes[from], tubes[to]),
{
    if from != to {
        let amount = pour_amount(tubes[from], tubes[to]);
        lemma_pour_progress(tubes[from], tubes[to], amount);
        if amount == 0 {
            assert(drained(tubes[from], 0) =~= tubes[from]);
            assert(pour_result(tubes, from, to) =~= tubes);
        } else {
            assert(pour_result(tubes, from, to)[to].len() != tubes[to].len());
        }
    }
}

/// A pour ends: it moves at most what the source holds and what the
/// destination has room for, so never more than `CAPACITY` units.
pub proof fn law_pour_is_bounded(src: Seq<u8>, dst: Seq<u8>)
    requires
        valid_units(src),
        valid_units(dst),
    ensures
        pour_amount(src, dst) <= src.len(),
        pour_amount(src, dst) + dst.len() <= CAPACITY,
        pour_amount(src, dst) <= CAPACITY,
        pour_amount(src, dst) > 0 <==> pourable(src, dst),
{
    lemma_pour_progress(src, dst, pour_amount(src, dst));
    lemma_pour_progress(src, dst, 0);
}

/// A pour is what moving one unit at a time gives: while the pour rule
/// allows it, the top unit of the source goes onto the destination.
pub proof fn law_pour_goes_unit_by_unit(tubes: Seq<Seq<u8>>, from: int, to: int)
    requires
        valid_rack(tubes),
        0 <= from < tubes.len(),
        0 <= to < tubes.len(),
    ensures
        pour_result(tubes, from, to) == if from != to && pourable(tubes[from], tubes[to]) {
            pour_result(one_unit_moved(tubes, from, to), from, to)
        } else {
            tubes
        },
{
    law_pour_changes_iff_pourable(tubes, from, to);
    if from != to && pourable(tubes[from], tubes[to]) {
        let src = tubes[from];
        let dst = tubes[to];
        let amount = pour_amount(src, dst);
        let next = one_unit_moved(tubes, from, to);
        lemma_top_run(src);
        lemma_top_run(src.drop_last());
        lemma_pour_progress(src, dst, 1);
        assert(pour_amount(next[from], next[to]) == amount - 1);
        assert(drained(next[from], (amount - 1) as nat) =~= drained(src, amount));
        assert(topped_up(next[to], next[from], (amount - 1) as nat) =~= topped_up(
            dst,
            src,
            amount,
        ));
    }
}

/// A fresh puzzle of a single color is solved as it stands, however
/// many empty tubes stand beside the full one.
pub proof fn law_single_color_is_solved(tubes: Seq<Seq<u8>>, empty: nat)
    requires
        fresh_rack(tubes, 1, empty),
    ensures
        rack_solved(tubes),
{
    let first = tubes[0];
    lemma_units_of_update(tubes, 0, Seq::empty());
    assert forall|i: int| 0 <= i < first.len() implies #[trigger] first[i] == 1 by {
        vstd::seq_lib::to_multiset_contains(first, first[i]);
        assert(rack_units(tubes).count(first[i]) >= first.to_multiset().count(first[i])) by {
            assert(rack_units(tubes.update(0, Seq::empty())).add(first.to_multiset()).count(
                first[i],
            ) == rack_units(tubes).add(Seq::<u8>::empty().to_multiset()).count(first[i]));
            Seq::<u8>::empty().to_multiset_ensures();
        }
    }
}

/// A fresh puzzle stays a mix of four units of each of its colors,
/// whatever is poured.
pub proof fn law_pours_keep_the_mix(tubes: Seq<Seq<u8>>, moves: Seq<(int, int)>, colors: nat)
    requires
        valid_rack(tubes),
        moves_in_range(moves, tubes.len()),
        fresh_mix(rack_units(tubes), colors),
    ensures
        fresh_mix(rack_units(pours_result(tubes, moves)), colors),
{
    law_pours_conserve_units(tubes, moves);
}

} // verus!
