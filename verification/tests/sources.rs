use livechart::source::{choose_source, SourceChoice, SyntheticSource, STEP_END, STEP_LOW};

#[test]
fn an_open_port_is_used() {
    assert_eq!(choose_source(true, false), SourceChoice::Port);
    assert_eq!(choose_source(true, true), SourceChoice::Port);
}

#[test]
fn a_closed_port_is_fatal_unless_the_fallback_is_allowed() {
    assert_eq!(choose_source(false, true), SourceChoice::Synthetic);
    assert_eq!(choose_source(false, false), SourceChoice::GiveUp);
}

#[test]
fn the_walk_starts_at_zero_and_moves_by_the_step() {
    let mut source = SyntheticSource::new();
    assert_eq!(source.current(), 0);
    assert!(source.room_for_step());
    assert_eq!(source.move_by(2), 2);
    assert_eq!(source.move_by(-5), -3);
    assert_eq!(source.current(), -3);
    assert_eq!(source.move_by(i32::MAX), i32::MAX - 3);
    assert!(source.room_for_step());
    assert_eq!(source.move_by(1), i32::MAX - 2);
    assert!(source.room_for_step());
    assert_eq!(source.move_by(1), i32::MAX - 1);
    assert!(!source.room_for_step());
}

#[test]
fn the_walk_has_room_down_to_two_above_the_lowest_value() {
    let mut source = SyntheticSource::new();
    source.move_by(i32::MIN + 2);
    assert!(source.room_for_step());
    source.move_by(-1);
    assert!(!source.room_for_step());
}

#[test]
fn random_steps_are_small_and_vary() {
    assert_eq!((STEP_LOW, STEP_END), (-2, 3));
    let mut source = SyntheticSource::new();
    let mut seen = [false; 5];
    for _ in 0..2000 {
        let before = source.current();
        let value = source.next_value();
        assert_eq!(value, source.current());
        let step = value - before;
        assert!((-2..3).contains(&step), "step {}", step);
        seen[(step + 2) as usize] = true;
    }
    assert!(seen.iter().filter(|s| **s).count() >= 2);
}
