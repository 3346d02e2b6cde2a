use water_sort::rack::{PourOutcome, Rack};
use water_sort::tube::Tube;

/// Every tube that holds at most four units of the colors 1 to 3.
fn small_tubes() -> Vec<Vec<u8>> {
    let mut all: Vec<Vec<u8>> = vec![vec![]];
    let mut last: Vec<Vec<u8>> = vec![vec![]];
    for _ in 0..4 {
        let mut next = Vec::new();
        for units in &last {
            for color in 1..=3u8 {
                let mut longer = units.clone();
                longer.push(color);
                next.push(longer);
            }
        }
        all.extend(next.iter().cloned());
        last = next;
    }
    all
}

fn is_solved(units: &[u8]) -> bool {
    units.len() == 4 && units.iter().all(|&c| c == units[0])
}

/// The pour as the rule describes it: one unit at a time while the rule allows.
fn pour_unit_by_unit(src: &mut Vec<u8>, dst: &mut Vec<u8>) -> usize {
    let mut moved = 0;
    while Tube::from_units(src).unwrap().can_pour(&Tube::from_units(dst).unwrap()) {
        let color = src.pop().unwrap();
        dst.push(color);
        moved += 1;
    }
    moved
}

fn count_of(tubes: &[&[u8]], color: u8) -> usize {
    tubes.iter().map(|t| t.iter().filter(|&&c| c == color).count()).sum()
}

#[test]
fn there_are_121_small_tubes() {
    assert_eq!(small_tubes().len(), 121);
}

#[test]
fn pour_is_the_unit_by_unit_loop_on_every_small_pair() {
    let tubes = small_tubes();
    for src in &tubes {
        for dst in &tubes {
            let mut rack = Rack::from_tubes(vec![
                Tube::from_units(src).unwrap(),
                Tube::from_units(dst).unwrap(),
            ]);
            let outcome = rack.pour(0, 1);
            let (mut s, mut d) = (src.clone(), dst.clone());
            let moved = pour_unit_by_unit(&mut s, &mut d);
            assert_eq!(rack.tube(0).units(), &s[..]);
            assert_eq!(rack.tube(1).units(), &d[..]);
            assert_eq!(outcome == PourOutcome::Moved, moved > 0);
            assert_eq!(outcome == PourOutcome::NoOp, moved == 0);
            assert!(moved <= 4);
        }
    }
}

#[test]
fn pour_keeps_units_and_capacity_on_every_small_pair() {
    let tubes = small_tubes();
    for src in &tubes {
        for dst in &tubes {
            let mut rack = Rack::from_tubes(vec![
                Tube::from_units(dst).unwrap(),
                Tube::from_units(src).unwrap(),
            ]);
            rack.pour(1, 0);
            assert_eq!(rack.len(), 2);
            assert!(rack.tube(0).len() <= 4);
            assert!(rack.tube(1).len() <= 4);
            for color in 0..=4u8 {
                assert_eq!(
                    count_of(&[rack.tube(0).units(), rack.tube(1).units()], color),
                    count_of(&[src, dst], color)
                );
            }
        }
    }
}

#[test]
fn idle_pours_change_nothing_on_every_small_pair() {
    let tubes = small_tubes();
    for src in &tubes {
        for dst in &tubes {
            if !(is_solved(src) || is_solved(dst) || dst.len() == 4) {
                continue;
            }
            let mut rack = Rack::from_tubes(vec![
                Tube::from_units(src).unwrap(),
                Tube::from_units(dst).unwrap(),
            ]);
            assert_eq!(rack.pour(0, 1), PourOutcome::NoOp);
            assert_eq!(rack.tube(0).units(), &src[..]);
            assert_eq!(rack.tube(1).units(), &dst[..]);
        }
    }
}

#[test]
fn a_pour_onto_itself_changes_no_small_tube() {
    for units in small_tubes() {
        let mut rack = Rack::from_tubes(vec![Tube::from_units(&units).unwrap()]);
        assert_eq!(rack.pour(0, 0), PourOutcome::NoOp);
        assert_eq!(rack.tube(0).units(), &units[..]);
    }
}

#[test]
fn a_pour_moves_the_top_run_or_what_fits() {
    let tubes = small_tubes();
    for src in &tubes {
        for dst in &tubes {
            let src_tube = Tube::from_units(src).unwrap();
            let dst_tube = Tube::from_units(dst).unwrap();
            let allowed = src_tube.can_pour(&dst_tube);
            let run = src.iter().rev().take_while(|&&c| Some(&c) == src.last()).count();
            let expected = if allowed { run.min(4 - dst.len()) } else { 0 };
            let mut rack = Rack::from_tubes(vec![src_tube, dst_tube]);
            rack.pour(0, 1);
            assert_eq!(rack.tube(0).len(), src.len() - expected);
            assert_eq!(rack.tube(1).len(), dst.len() + expected);
        }
    }
}

#[test]
fn rack_is_solved_exactly_when_each_small_tube_is_empty_or_solved() {
    let tubes = small_tubes();
    for (i, first) in tubes.iter().enumerate() {
        let second = &tubes[(i * 7 + 3) % tubes.len()];
        let rack = Rack::from_tubes(vec![
            Tube::from_units(first).unwrap(),
            Tube::from_units(second).unwrap(),
        ]);
        let expected =
            (first.is_empty() || is_solved(first)) && (second.is_empty() || is_solved(second));
        assert_eq!(rack.is_solved(), expected);
    }
}
