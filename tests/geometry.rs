use thatch::{Direction, Position};

#[test]
fn test_position_creation() {
    let pos = Position::new(5, 10);
    assert_eq!(pos.x, 5);
    assert_eq!(pos.y, 10);
}

#[test]
fn test_position_manhattan_distance() {
    let pos1 = Position::new(0, 0);
    let pos2 = Position::new(3, 4);
    assert_eq!(pos1.manhattan_distance(pos2), 7);
}

#[test]
fn test_position_adjacent() {
    let pos = Position::new(5, 5);
    let adjacent = pos.adjacent_positions();
    assert_eq!(adjacent.len(), 4);
    assert!(!adjacent.contains(&Position::new(4, 4)));
    assert!(!adjacent.contains(&Position::new(6, 6)));
}

#[test]
fn test_position_cardinal_adjacent() {
    let pos = Position::new(5, 5);
    let adjacent = pos.cardinal_adjacent_positions();
    assert_eq!(adjacent.len(), 4);
    assert!(adjacent.contains(&Position::new(5, 4))); // North
    assert!(adjacent.contains(&Position::new(4, 5))); // West
    assert!(!adjacent.contains(&Position::new(4, 4))); // No diagonal
}

#[test]
fn test_position_arithmetic() {
    let pos1 = Position::new(5, 10);
    let pos2 = Position::new(3, 2);
    assert_eq!(pos1 + pos2, Position::new(8, 12));
    assert_eq!(pos1 - pos2, Position::new(2, 8));
}

#[test]
fn test_direction_to_delta() {
    assert_eq!(Direction::North.to_delta(), Position::new(0, -1));
    assert_eq!(Direction::East.to_delta(), Position::new(1, 0));
    assert_eq!(Direction::North.to_delta(), Position::new(0, -1));
}

#[test]
fn origin_is_zero() {
    assert_eq!(Position::origin(), Position::new(0, 0));
}

#[test]
fn manhattan_distance_of_negative_offsets() {
    assert_eq!(Position::new(-3, 2).manhattan_distance(Position::new(4, -5)), 14);
    assert_eq!(Position::new(7, 7).manhattan_distance(Position::new(7, 7)), 0);
}

#[test]
fn cardinal_neighbours_in_order() {
    let adjacent = Position::new(2, 3).cardinal_adjacent_positions();
    assert_eq!(
        adjacent,
        vec![
            Position::new(2, 2),
            Position::new(1, 3),
            Position::new(3, 3),
            Position::new(2, 4),
        ]
    );
}

#[test]
fn direction_round_trips_through_delta() {
    for d in Direction::all() {
        assert_eq!(Direction::from_delta(d.to_delta()), Some(d));
    }
    assert_eq!(Direction::from_delta(Position::new(1, 1)), None);
    assert_eq!(Direction::from_delta(Position::new(0, 0)), None);
    assert_eq!(Direction::cardinal(), Direction::all());
    assert_eq!(Direction::South.to_delta(), Position::new(0, 1));
    assert_eq!(Direction::West.to_delta(), Position::new(-1, 0));
}
