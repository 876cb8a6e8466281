use thatch::autoexplore::AutoexploreState;
use thatch::{Direction, Position};

#[test]
fn test_autoexplore_state_creation() {
    let autoexplore = AutoexploreState::new();
    assert!(!autoexplore.enabled);
    assert!(autoexplore.current_path.is_empty());
    assert!(autoexplore.target.is_none());
}

#[test]
fn test_autoexplore_toggle() {
    let mut autoexplore = AutoexploreState::new();

    // Toggle on
    assert!(autoexplore.toggle());
    assert!(autoexplore.enabled);

    // Toggle off
    assert!(!autoexplore.toggle());
    assert!(!autoexplore.enabled);
}

#[test]
fn test_direction_calculation() {
    let autoexplore = AutoexploreState::new();

    let from = Position::new(5, 5);
    let to = Position::new(5, 4); // North
    assert_eq!(
        autoexplore.get_direction_to_position(from, to),
        Some(Direction::North)
    );

    let to = Position::new(6, 5); // East
    assert_eq!(
        autoexplore.get_direction_to_position(from, to),
        Some(Direction::East)
    );

    let to = Position::new(4, 5); // West
    assert_eq!(
        autoexplore.get_direction_to_position(from, to),
        Some(Direction::West)
    );
}

#[test]
fn pacing_of_steps() {
    let mut autoexplore = AutoexploreState::new();
    assert!(autoexplore.can_perform_action());
    assert!(autoexplore.ready_after(None));
    assert!(!autoexplore.ready_after(Some(49)));
    assert!(autoexplore.ready_after(Some(50)));
    autoexplore.mark_action_performed();
    assert!(autoexplore.last_action_time.is_some());
    autoexplore.action_delay_ms = 1_000_000;
    assert!(!autoexplore.can_perform_action());
    autoexplore.toggle();
    autoexplore.current_path.push(Position::new(1, 1));
    assert!(!autoexplore.toggle());
    assert!(autoexplore.current_path.is_empty());
    assert!(autoexplore.last_action_time.is_none());
    assert_eq!(
        autoexplore.get_direction_to_position(Position::new(0, 0), Position::new(1, 1)),
        None
    );
}
