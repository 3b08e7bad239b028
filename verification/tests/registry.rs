use voxel_grid::chunk::{generate, Block};
use voxel_grid::coords::Coord;
use voxel_grid::registry::{BlockRegistry, InsertError};

#[test]
fn new_registry_is_empty() {
    let reg = BlockRegistry::new();
    assert_eq!(reg.len(), 0);
    assert!(!reg.contains(Coord { x: 0, y: 0, z: 0 }));
    assert_eq!(reg.get(Coord { x: 0, y: 0, z: 0 }), None);
}

#[test]
fn insert_then_lookup() {
    let mut reg = BlockRegistry::new();
    let c = Coord { x: 2, y: 0, z: -3 };
    assert_eq!(reg.insert(Block { kind: 5, coord: c }), Ok(()));
    assert!(reg.contains(c));
    assert_eq!(reg.get(c), Some(5));
    assert_eq!(reg.len(), 1);
}

#[test]
fn occupied_insert_is_refused() {
    let mut reg = BlockRegistry::new();
    let c = Coord { x: 1, y: 0, z: 1 };
    assert_eq!(reg.insert(Block { kind: 1, coord: c }), Ok(()));
    assert_eq!(
        reg.insert(Block { kind: 2, coord: c }),
        Err(InsertError::Occupied(c))
    );
    // the refused insert changed nothing
    assert_eq!(reg.get(c), Some(1));
    assert_eq!(reg.len(), 1);
}

#[test]
fn remove_twice_is_idempotent() {
    let mut reg = BlockRegistry::new();
    let c = Coord { x: 4, y: 0, z: 4 };
    assert_eq!(reg.insert(Block { kind: 1, coord: c }), Ok(()));
    // first call reports "removed"
    assert!(reg.remove(c));
    // second call reports "not found" and is harmless
    assert!(!reg.remove(c));
    assert_eq!(reg.len(), 0);
}

#[test]
fn remove_absent_coordinate_is_a_noop() {
    let mut reg = BlockRegistry::new();
    assert_eq!(reg.insert(Block { kind: 1, coord: Coord { x: 0, y: 0, z: 0 } }), Ok(()));
    assert!(!reg.remove(Coord { x: 9, y: 9, z: 9 }));
    assert_eq!(reg.len(), 1);
}

#[test]
fn register_chunk_accepts_a_fresh_chunk() {
    let mut reg = BlockRegistry::new();
    let blocks = generate(16, 16, (0, 0), 1);
    assert_eq!(reg.register_chunk(&blocks), Ok(()));
    assert_eq!(reg.len(), 256);
    assert_eq!(reg.get(Coord { x: 0, y: 0, z: 0 }), Some(1));
    assert_eq!(reg.get(Coord { x: 15, y: 0, z: 15 }), Some(1));
}

#[test]
fn register_chunk_refuses_an_occupied_coordinate_atomically() {
    let mut reg = BlockRegistry::new();
    let c = Coord { x: 3, y: 0, z: 3 };
    assert_eq!(reg.insert(Block { kind: 9, coord: c }), Ok(()));
    let blocks = generate(8, 8, (0, 0), 1);
    assert_eq!(reg.register_chunk(&blocks), Err(InsertError::Occupied(c)));
    // nothing of the chunk was kept
    assert_eq!(reg.len(), 1);
    assert!(!reg.contains(Coord { x: 0, y: 0, z: 0 }));
}

#[test]
fn register_chunk_refuses_a_duplicate_inside_the_chunk() {
    let mut reg = BlockRegistry::new();
    let c = Coord { x: 1, y: 0, z: 2 };
    let blocks = vec![
        Block { kind: 1, coord: Coord { x: 0, y: 0, z: 0 } },
        Block { kind: 1, coord: c },
        Block { kind: 2, coord: c },
    ];
    assert_eq!(reg.register_chunk(&blocks), Err(InsertError::Occupied(c)));
    assert_eq!(reg.len(), 0);
}
