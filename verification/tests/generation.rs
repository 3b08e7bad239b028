use voxel_grid::chunk::{generate, Block};
use voxel_grid::coords::Coord;

#[test]
fn generates_width_times_length_blocks() {
    let blocks = generate(16, 16, (0, 0), 1);
    assert_eq!(blocks.len(), 256);
    let blocks = generate(3, 5, (0, 0), 1);
    assert_eq!(blocks.len(), 15);
    let blocks = generate(1, 1, (7, -7), 2);
    assert_eq!(blocks.len(), 1);
    assert_eq!(blocks[0], Block { kind: 2, coord: Coord { x: 7, y: 0, z: -7 } });
}

#[test]
fn generates_row_major_order() {
    let blocks = generate(3, 2, (10, -5), 7);
    assert_eq!(blocks.len(), 6);
    for x in 0..2i32 {
        for z in 0..3i32 {
            let b = blocks[(x * 3 + z) as usize];
            assert_eq!(b.kind, 7);
            assert_eq!(b.coord, Coord { x: 10 + x, y: 0, z: -5 + z });
        }
    }
}

#[test]
fn generated_coordinates_are_distinct_and_flat() {
    let blocks = generate(16, 16, (-8, -8), 1);
    for i in 0..blocks.len() {
        assert_eq!(blocks[i].coord.y, 0);
        assert!(blocks[i].coord.x >= -8 && blocks[i].coord.x < 8);
        assert!(blocks[i].coord.z >= -8 && blocks[i].coord.z < 8);
        for j in 0..i {
            assert_ne!(blocks[i].coord, blocks[j].coord);
        }
    }
}

#[test]
fn generate_covers_the_whole_rectangle() {
    let blocks = generate(4, 3, (100, 200), 9);
    for x in 100..103i32 {
        for z in 200..204i32 {
            assert!(blocks.iter().any(|b| b.coord == Coord { x, y: 0, z }));
        }
    }
}
