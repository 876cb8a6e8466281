use std::collections::HashSet;
use thatch::room::{find_connection_point, rooms_are_adjacent};
use thatch::{Position, Room, RoomType};

#[test]
fn test_room_creation() {
    let room = Room::new(1, Position::new(5, 5), 10, 8, RoomType::Normal);
    assert_eq!(room.id, 1);
    assert_eq!(room.top_left, Position::new(5, 5));
    assert_eq!(room.width, 10);
    assert_eq!(room.height, 8);
    assert_eq!(room.area(), 80);
    assert_eq!(room.inner_area(), 48); // (10-2) * (8-2)
}

#[test]
fn test_room_geometry() {
    let room = Room::new(1, Position::new(5, 5), 10, 8, RoomType::Normal);

    assert_eq!(room.bottom_right(), Position::new(14, 12));
    assert_eq!(room.center(), Position::new(10, 9));

    assert!(room.contains(Position::new(7, 7)));
    assert!(room.contains(Position::new(5, 5))); // Top-left corner
    assert!(room.contains(Position::new(14, 12))); // Bottom-right corner
    assert!(!room.contains(Position::new(4, 5))); // Outside left
    assert!(!room.contains(Position::new(15, 12))); // Outside right

    assert!(room.is_border(Position::new(5, 5))); // Top-left corner
    assert!(room.is_border(Position::new(10, 5))); // Top edge
    assert!(!room.is_border(Position::new(7, 7))); // Interior
}

#[test]
fn test_room_overlap() {
    let room1 = Room::new(1, Position::new(5, 5), 10, 8, RoomType::Normal);
    let room2 = Room::new(2, Position::new(10, 8), 6, 6, RoomType::Normal); // Overlaps
    let room3 = Room::new(3, Position::new(20, 20), 5, 5, RoomType::Normal); // No overlap

    assert!(room1.overlaps(&room2));
    assert!(room2.overlaps(&room1));
    assert!(!room1.overlaps(&room3));
    assert!(!room3.overlaps(&room1));
}

#[test]
fn test_room_positions() {
    let room = Room::new(1, Position::new(5, 5), 4, 4, RoomType::Normal);

    let floor_positions = room.floor_positions();
    let wall_positions = room.wall_positions();

    // 4x4 room should have 2x2 = 4 floor tiles
    assert_eq!(floor_positions.len(), 4);

    // Should have 4*4 - 2*2 = 12 wall tiles
    assert_eq!(wall_positions.len(), 12);

    // Check that floor and wall positions don't overlap
    let floor_set: HashSet<_> = floor_positions.into_iter().collect();
    let wall_set: HashSet<_> = wall_positions.into_iter().collect();
    assert!(floor_set.is_disjoint(&wall_set));
}

#[test]
fn test_room_connections() {
    let mut room = Room::new(1, Position::new(5, 5), 10, 8, RoomType::Normal);

    assert!(room.connections.is_empty());

    room.add_connection(2);
    room.add_connection(3);
    assert_eq!(room.connections.len(), 2);
    assert!(room.connections.contains(&2));
    assert!(room.connections.contains(&3));

    // Adding same connection should not duplicate
    room.add_connection(2);
    assert_eq!(room.connections.len(), 2);

    room.remove_connection(2);
    assert_eq!(room.connections.len(), 1);
    assert!(!room.connections.contains(&2));
    assert!(room.connections.contains(&3));
}

#[test]
fn test_room_metadata() {
    let mut room = Room::new(1, Position::new(5, 5), 10, 8, RoomType::Normal);

    assert!(room.get_metadata("description").is_none());

    room.set_metadata("description".to_string(), "A dark chamber".to_string());
    assert_eq!(
        room.get_metadata("description"),
        Some(&"A dark chamber".to_string())
    );

    room.set_metadata("loot_level".to_string(), "high".to_string());
    assert_eq!(room.get_metadata("loot_level"), Some(&"high".to_string()));
}

#[test]
fn test_utils_room_adjacency() {
    let room1 = Room::new(1, Position::new(5, 5), 5, 5, RoomType::Normal);
    let room2 = Room::new(2, Position::new(12, 5), 5, 5, RoomType::Normal); // Close
    let room3 = Room::new(3, Position::new(50, 50), 5, 5, RoomType::Normal); // Far

    assert!(rooms_are_adjacent(&room1, &room2, 20));
    assert!(!rooms_are_adjacent(&room1, &room3, 20));
}

#[test]
fn metadata_is_replaced_not_duplicated() {
    let mut room = Room::new(1, Position::new(0, 0), 3, 3, RoomType::Normal);
    room.set_metadata("k".to_string(), "v1".to_string());
    room.set_metadata("k".to_string(), "v2".to_string());
    assert_eq!(room.metadata.len(), 1);
    assert_eq!(room.get_metadata("k"), Some(&"v2".to_string()));
}

#[test]
fn remove_connection_keeps_order_of_the_rest() {
    let mut room = Room::new(1, Position::new(0, 0), 3, 3, RoomType::Normal);
    room.add_connection(4);
    room.add_connection(7);
    room.add_connection(9);
    room.remove_connection(7);
    assert_eq!(room.connections, vec![4, 9]);
    room.remove_connection(42);
    assert_eq!(room.connections, vec![4, 9]);
}

#[test]
fn positions_of_a_room() {
    let room = Room::new(0, Position::new(2, 3), 3, 2, RoomType::Normal);
    let all: HashSet<_> = room.all_positions().into_iter().collect();
    assert_eq!(room.all_positions().len(), 6);
    assert!(all.contains(&Position::new(4, 4)));
    assert!(!all.contains(&Position::new(5, 4)));
    assert!(room.floor_positions().is_empty());
    assert_eq!(room.inner_area(), 0);
    let thin = Room::new(0, Position::new(0, 0), 1, 1, RoomType::Normal);
    assert_eq!(thin.inner_area(), 0);
    assert_eq!(thin.center(), Position::new(0, 0));
}

#[test]
fn connection_points_are_centres() {
    let a = Room::new(1, Position::new(0, 0), 4, 4, RoomType::Normal);
    let b = Room::new(2, Position::new(10, 6), 5, 3, RoomType::Shop);
    assert_eq!(find_connection_point(&a, &b), (Position::new(2, 2), Position::new(12, 7)));
    assert!(rooms_are_adjacent(&a, &b, 15));
    assert!(!rooms_are_adjacent(&a, &b, 14));
}
