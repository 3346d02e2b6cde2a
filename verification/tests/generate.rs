use water_sort::rack::{PourOutcome, Rack};

fn contents(rack: &Rack) -> Vec<Vec<u8>> {
    let mut all = Vec::new();
    for i in 0..rack.len() {
        all.push(rack.tube(i).units().to_vec());
    }
    all
}

fn count_of(rack: &Rack, color: u8) -> usize {
    contents(rack).iter().flatten().filter(|&&c| c == color).count()
}

#[test]
fn new_rack_has_full_tubes_then_empty_ones() {
    let rack = Rack::new(8, 2);
    assert_eq!(rack.len(), 10);
    for i in 0..8 {
        assert!(rack.tube(i).is_full());
    }
    for i in 8..10 {
        assert!(rack.tube(i).is_empty());
    }
}

#[test]
fn every_generation_holds_four_units_of_each_color() {
    for _ in 0..200 {
        let rack = Rack::new(8, 2);
        let total: usize = contents(&rack).iter().map(|t| t.len()).sum();
        assert_eq!(total, 32);
        for color in 1..=8 {
            assert_eq!(count_of(&rack, color), 4);
        }
        assert_eq!(count_of(&rack, 0), 0);
        assert_eq!(count_of(&rack, 9), 0);
    }
}

#[test]
fn generation_shuffles_the_units() {
    let sorted: Vec<Vec<u8>> = (1..=8u8).map(|c| vec![c; 4]).collect();
    let mut shuffled = false;
    for _ in 0..20 {
        let rack = Rack::new(8, 0);
        if contents(&rack) != sorted {
            shuffled = true;
        }
    }
    assert!(shuffled);
}

#[test]
fn generations_differ_from_one_another() {
    let first = contents(&Rack::new(8, 2));
    let mut differs = false;
    for _ in 0..20 {
        if contents(&Rack::new(8, 2)) != first {
            differs = true;
        }
    }
    assert!(differs);
}

#[test]
fn a_rack_of_one_color_is_solved_at_once() {
    let rack = Rack::new(1, 0);
    assert_eq!(contents(&rack), vec![vec![1, 1, 1, 1]]);
    assert!(rack.is_solved());
}

#[test]
fn a_rack_of_one_color_and_empty_tubes_is_solved_at_once() {
    let rack = Rack::new(1, 3);
    assert_eq!(contents(&rack), vec![vec![1, 1, 1, 1], vec![], vec![], vec![]]);
    assert!(rack.is_solved());
}

#[test]
fn a_rack_without_tubes_is_solved() {
    let rack = Rack::new(0, 0);
    assert_eq!(rack.len(), 0);
    assert!(rack.is_solved());
}

#[test]
fn a_rack_of_empty_tubes_only_is_solved() {
    let rack = Rack::new(0, 2);
    assert_eq!(contents(&rack), vec![Vec::<u8>::new(), Vec::new()]);
    assert!(rack.is_solved());
}

#[test]
fn the_largest_rack_uses_every_color_once() {
    let rack = Rack::new(255, 1);
    assert_eq!(rack.len(), 256);
    for color in 1..=255u8 {
        assert_eq!(count_of(&rack, color), 4);
    }
    assert_eq!(count_of(&rack, 0), 0);
}

#[test]
fn pours_after_generation_keep_four_units_of_each_color() {
    let mut rack = Rack::new(8, 2);
    for round in 0..5 {
        for from in 0..10 {
            for to in 0..10 {
                rack.pour((from + round) % 10, to);
            }
        }
    }
    for color in 1..=8 {
        assert_eq!(count_of(&rack, color), 4);
    }
    for i in 0..rack.len() {
        assert!(rack.tube(i).len() <= 4);
    }
    assert_eq!(rack.len(), 10);
}

#[test]
fn deal_fills_the_tubes_in_the_order_given() {
    let rack = Rack::deal(&[1, 2, 3, 4, 4, 3, 2, 1, 1, 1, 2, 2], 2).unwrap();
    assert_eq!(
        contents(&rack),
        vec![vec![1, 2, 3, 4], vec![4, 3, 2, 1], vec![1, 1, 2, 2], vec![], vec![]]
    );
}

#[test]
fn deal_of_no_units_gives_empty_tubes() {
    let rack = Rack::deal(&[], 3).unwrap();
    assert_eq!(contents(&rack), vec![Vec::<u8>::new(), Vec::new(), Vec::new()]);
    assert_eq!(Rack::deal(&[], 0).unwrap().len(), 0);
}

#[test]
fn deal_refuses_a_tube_that_is_not_full() {
    assert!(Rack::deal(&[1], 1).is_none());
    assert!(Rack::deal(&[1, 1, 1], 0).is_none());
    assert!(Rack::deal(&[1, 1, 1, 1, 2], 0).is_none());
}

#[test]
fn deal_refuses_the_empty_slot_value() {
    assert!(Rack::deal(&[1, 1, 0, 1], 1).is_none());
    assert!(Rack::deal(&[1, 1, 1, 1, 2, 2, 2, 0], 1).is_none());
}

#[test]
fn deal_refuses_more_tubes_than_can_be_counted() {
    assert!(Rack::deal(&[1, 1, 1, 1], usize::MAX).is_none());
}

#[test]
fn a_dealt_rack_pours_like_any_other() {
    let mut rack = Rack::deal(&[1, 1, 1, 2, 2, 2, 2, 1], 1).unwrap();
    assert_eq!(rack.pour(0, 2), PourOutcome::Moved);
    assert_eq!(rack.pour(1, 0), PourOutcome::Moved);
    assert_eq!(rack.pour(2, 1), PourOutcome::Moved);
    assert_eq!(contents(&rack), vec![vec![1, 1, 1, 1], vec![2, 2, 2, 2], vec![]]);
    assert!(rack.is_solved());
}
