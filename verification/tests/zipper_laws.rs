use ring_zipper::text::format_listing;
use ring_zipper::zipper::{SequenceDirection, Zipper};

fn drain(zipper: &Zipper<i32>, dir: SequenceDirection) -> Vec<i32> {
    let mut it = match dir {
        SequenceDirection::Original => zipper.iter(),
        SequenceDirection::Reverse => zipper.reverse_iter(),
    };
    let mut all = Vec::new();
    while let Some(t) = it.next() {
        all.push(*t);
    }
    all
}

#[test]
fn new_zipper_is_empty_and_has_no_focus() {
    let zipper: Zipper<i32> = Zipper::new();
    assert_eq!(zipper.size(), 0);
    assert_eq!(zipper.focus(), None);
}

#[test]
fn from_sequence_focuses_the_first_element() {
    for len in 1..8 {
        let seq: Vec<i32> = (10..10 + len).collect();
        let zipper = Zipper::from_sequence(seq.clone());
        assert_eq!(zipper.size(), seq.len());
        assert_eq!(zipper.focus(), Some(&seq[0]));
    }
    let empty: Zipper<i32> = Zipper::from_sequence(Vec::new());
    assert_eq!(empty.size(), 0);
    assert_eq!(empty.focus(), None);
}

#[test]
fn operations_on_an_empty_zipper_change_nothing() {
    let zipper: Zipper<i32> = Zipper::new();
    let zipper = zipper.circle_step(SequenceDirection::Original);
    assert_eq!(zipper.focus(), None);
    let zipper = zipper.circle_step(SequenceDirection::Reverse);
    assert_eq!(zipper.focus(), None);
    let zipper = zipper.reset_start();
    assert_eq!(zipper.focus(), None);
    let zipper = zipper.reset_end();
    assert_eq!(zipper.focus(), None);
    let mut asked = 0;
    let zipper = zipper.refocus(|_| {
        asked += 1;
        true
    });
    assert_eq!(asked, 0);
    assert_eq!(zipper.focus(), None);
    assert_eq!(zipper.size(), 0);
    assert_eq!(drain(&zipper, SequenceDirection::Original), Vec::<i32>::new());
    assert_eq!(drain(&zipper, SequenceDirection::Reverse), Vec::<i32>::new());
    assert_eq!(zipper.to_string(), "[]");
    assert_eq!(zipper, Zipper::new());
}

#[test]
fn a_single_element_is_a_fixed_point() {
    let zipper = Zipper::from_sequence(vec![7]);
    let zipper = zipper.circle_step(SequenceDirection::Original);
    assert_eq!(zipper.focus(), Some(&7));
    let zipper = zipper.circle_step(SequenceDirection::Reverse);
    assert_eq!(zipper.focus(), Some(&7));
    let zipper = zipper.reset_end();
    assert_eq!(zipper.focus(), Some(&7));
    let zipper = zipper.reset_start();
    assert_eq!(zipper.focus(), Some(&7));
    let zipper = zipper.refocus(|t| *t == 8);
    assert_eq!(zipper.focus(), Some(&7));
    assert_eq!(zipper.size(), 1);
    assert_eq!(drain(&zipper, SequenceDirection::Original), vec![7]);
    assert_eq!(drain(&zipper, SequenceDirection::Reverse), vec![7]);
}

#[test]
fn a_full_lap_returns_to_the_starting_focus() {
    for dir in [SequenceDirection::Original, SequenceDirection::Reverse] {
        for len in 1..7 {
            for start in 0..len {
                let mut zipper = Zipper::from_sequence((0..len).collect::<Vec<i32>>());
                for _ in 0..start {
                    zipper = zipper.circle_step(SequenceDirection::Original);
                }
                assert_eq!(zipper.focus(), Some(&start));
                let count = zipper.size();
                for _ in 0..count {
                    zipper = zipper.circle_step(dir);
                }
                assert_eq!(zipper.focus(), Some(&start));
                assert_eq!(zipper.size(), count);
            }
        }
    }
}

#[test]
fn a_step_is_undone_by_a_step_the_other_way() {
    for len in 1..7 {
        for start in 0..len {
            let mut zipper = Zipper::from_sequence((0..len).collect::<Vec<i32>>());
            for _ in 0..start {
                zipper = zipper.circle_step(SequenceDirection::Original);
            }
            let zipper = zipper
                .circle_step(SequenceDirection::Original)
                .circle_step(SequenceDirection::Reverse);
            assert_eq!(zipper.focus(), Some(&start));
            let zipper = zipper
                .circle_step(SequenceDirection::Reverse)
                .circle_step(SequenceDirection::Original);
            assert_eq!(zipper.focus(), Some(&start));
        }
    }
}

#[test]
fn steps_wrap_at_both_ends() {
    let zipper = Zipper::from_sequence(vec![1, 2, 3]);
    let zipper = zipper.circle_step(SequenceDirection::Original);
    assert_eq!(zipper.focus(), Some(&2));
    let zipper = zipper.circle_step(SequenceDirection::Original);
    assert_eq!(zipper.focus(), Some(&3));
    let zipper = zipper.circle_step(SequenceDirection::Original);
    assert_eq!(zipper.focus(), Some(&1));
    let zipper = zipper.circle_step(SequenceDirection::Reverse);
    assert_eq!(zipper.focus(), Some(&3));
    let zipper = zipper.circle_step(SequenceDirection::Reverse);
    assert_eq!(zipper.focus(), Some(&2));
}

#[test]
fn resets_are_idempotent_from_every_position() {
    for start in 0..5 {
        let mut zipper = Zipper::from_sequence(vec![10, 11, 12, 13, 14]);
        for _ in 0..start {
            zipper = zipper.circle_step(SequenceDirection::Original);
        }
        let zipper = zipper.reset_end();
        assert_eq!(zipper.focus(), Some(&14));
        let zipper = zipper.reset_end();
        assert_eq!(zipper.focus(), Some(&14));
        assert_eq!(zipper.size(), 5);
        let zipper = zipper.reset_start();
        assert_eq!(zipper.focus(), Some(&10));
        let zipper = zipper.reset_start();
        assert_eq!(zipper.focus(), Some(&10));
        assert_eq!(
            drain(&zipper, SequenceDirection::Original),
            vec![10, 11, 12, 13, 14]
        );
    }
}

#[test]
fn refocus_finds_the_only_match_from_every_position() {
    for start in 0..6 {
        for target in 0..6 {
            let mut zipper = Zipper::from_sequence((0..6).collect::<Vec<i32>>());
            for _ in 0..start {
                zipper = zipper.circle_step(SequenceDirection::Original);
            }
            let mut asked = 0;
            let zipper = zipper.refocus(|t| {
                asked += 1;
                *t == target
            });
            assert_eq!(zipper.focus(), Some(&target));
            assert!(asked >= 1 && asked <= 6);
            let expected = if target == start {
                6
            } else {
                (target - start).rem_euclid(6)
            };
            assert_eq!(asked, expected);
        }
    }
}

#[test]
fn refocus_without_a_match_keeps_the_focus() {
    for start in 0..6 {
        let mut zipper = Zipper::from_sequence((0..6).collect::<Vec<i32>>());
        for _ in 0..start {
            zipper = zipper.circle_step(SequenceDirection::Original);
        }
        let mut asked = Vec::new();
        let zipper = zipper.refocus(|t| {
            asked.push(*t);
            false
        });
        assert_eq!(zipper.focus(), Some(&start));
        assert_eq!(asked.len(), 6);
        let expected: Vec<i32> = (1..=6).map(|k| (start + k) % 6).collect();
        assert_eq!(asked, expected);
        assert_eq!(
            drain(&zipper.reset_start(), SequenceDirection::Original),
            vec![0, 1, 2, 3, 4, 5]
        );
    }
}

#[test]
fn refocus_looks_at_the_focused_element_last() {
    let zipper = Zipper::from_sequence(vec![3, 1, 3, 2]);
    let zipper = zipper.refocus(|t| *t == 3);
    let zipper = zipper.circle_step(SequenceDirection::Original);
    assert_eq!(zipper.focus(), Some(&2));
    let zipper = zipper.refocus(|t| *t == 2);
    assert_eq!(zipper.focus(), Some(&2));
    let zipper = zipper.circle_step(SequenceDirection::Reverse);
    assert_eq!(zipper.focus(), Some(&3));
    assert_eq!(drain(&zipper, SequenceDirection::Original), vec![3, 2, 3, 1]);
}

#[test]
fn traversals_hold_every_element_once_from_every_position() {
    for start in 0..7 {
        let mut zipper = Zipper::from_sequence((0..7).collect::<Vec<i32>>());
        for _ in 0..start {
            zipper = zipper.circle_step(SequenceDirection::Original);
        }
        let forward = drain(&zipper, SequenceDirection::Original);
        let expected: Vec<i32> = (0..7).map(|k| (start + k) % 7).collect();
        assert_eq!(forward, expected);
        let reverse = drain(&zipper, SequenceDirection::Reverse);
        let expected: Vec<i32> = (0..7).map(|k| (start - k).rem_euclid(7)).collect();
        assert_eq!(reverse, expected);
        assert_eq!(zipper.focus(), Some(&start));
        assert_eq!(zipper.size(), 7);
    }
}

#[test]
fn a_traversal_can_be_started_again_and_stays_finished() {
    let zipper = Zipper::from_sequence(vec![4, 5, 6]).circle_step(SequenceDirection::Original);
    let mut it = zipper.iter();
    assert_eq!(it.next(), Some(&5));
    assert_eq!(it.next(), Some(&6));
    assert_eq!(it.next(), Some(&4));
    assert_eq!(it.next(), None);
    assert_eq!(it.next(), None);
    let mut again = zipper.iter();
    assert_eq!(again.next(), Some(&5));
    let mut back = zipper.reverse_iter();
    assert_eq!(back.next(), Some(&5));
    assert_eq!(back.next(), Some(&4));
    assert_eq!(back.next(), Some(&6));
    assert_eq!(back.next(), None);
    assert_eq!(back.next(), None);
}

#[test]
fn scenario_of_steps_resets_and_refocus() {
    let zipper = Zipper::from_sequence((0..10).collect::<Vec<i32>>());
    assert_eq!(zipper.focus(), Some(&0));
    let zipper = zipper.reset_end();
    assert_eq!(zipper.focus(), Some(&9));
    let zipper = zipper.circle_step(SequenceDirection::Original);
    assert_eq!(zipper.focus(), Some(&0));
    let zipper = zipper
        .reset_start()
        .circle_step(SequenceDirection::Reverse);
    assert_eq!(zipper.focus(), Some(&9));
    let zipper = zipper.refocus(|x| *x == 5);
    assert_eq!(zipper.focus(), Some(&5));
    let zipper = zipper.refocus(|x| *x % 3 == 0);
    assert_eq!(zipper.focus(), Some(&6));
}

#[test]
fn a_clone_equals_its_source() {
    let zipper = Zipper::from_sequence(vec![1, 2, 3]).circle_step(SequenceDirection::Original);
    let copy = zipper.clone();
    assert_eq!(copy, zipper);
    assert_eq!(copy.focus(), Some(&2));
    let moved = copy.circle_step(SequenceDirection::Original);
    assert_ne!(moved, zipper);
    assert_eq!(zipper.focus(), Some(&2));
}

#[test]
fn listing_puts_each_part_after_a_space_and_before_a_comma() {
    assert_eq!(format_listing(&Vec::new()), "[]");
    assert_eq!(format_listing(&vec!["a".to_string()]), "[ a,]");
    assert_eq!(
        format_listing(&vec!["a".to_string(), "".to_string(), "b c".to_string()]),
        "[ a, , b c,]"
    );
}

#[test]
fn to_string_starts_at_the_focus() {
    let zipper = Zipper::from_sequence(vec!["x", "y", "z"]);
    assert_eq!(zipper.to_string(), "[ x, y, z,]");
    let zipper = zipper.circle_step(SequenceDirection::Reverse);
    assert_eq!(zipper.to_string(), "[ z, x, y,]");
}
