use voxel_grid::chunk::generate;
use voxel_grid::coords::{Coord, WorldPoint};
use voxel_grid::cursor::LockState;
use voxel_grid::frame::{frame_step, FrameInput};
use voxel_grid::input::InputSnapshot;
use voxel_grid::pick::PickOutcome;
use voxel_grid::registry::BlockRegistry;

fn snap(primary: bool, escape: bool) -> InputSnapshot {
    InputSnapshot { primary_down: primary, escape_down: escape }
}

#[test]
fn end_to_end_pick_and_repeat() {
    // generate a 16 x 16 chunk at offset (0, 0) and register all 256 blocks
    let mut reg = BlockRegistry::new();
    let blocks = generate(16, 16, (0, 0), 1);
    assert_eq!(reg.register_chunk(&blocks), Ok(()));
    assert_eq!(reg.len(), 256);

    // pick at the world point (0.4, 0.6, 0.4): hit (0, 0, 0)
    let p = WorldPoint { x: 400, y: 600, z: 400 };
    let input = FrameInput { prev: snap(false, false), curr: snap(true, false), intersection: Some(p) };
    let (lock, outcome) = frame_step(&mut reg, LockState::Free, input);
    assert_eq!(lock, LockState::Locked);
    assert_eq!(outcome, Some(PickOutcome::Hit(Coord { x: 0, y: 0, z: 0 })));
    assert_eq!(reg.len(), 255);
    assert!(!reg.contains(Coord { x: 0, y: 0, z: 0 }));

    // release the button, then pick the same point again: miss, nothing removed
    let input = FrameInput { prev: snap(true, false), curr: snap(false, false), intersection: Some(p) };
    let (_, outcome) = frame_step(&mut reg, lock, input);
    assert_eq!(outcome, None);
    let input = FrameInput { prev: snap(false, false), curr: snap(true, false), intersection: Some(p) };
    let (_, outcome) = frame_step(&mut reg, lock, input);
    assert_eq!(outcome, Some(PickOutcome::Miss(Coord { x: 0, y: 0, z: 0 })));
    assert_eq!(reg.len(), 255);
}

#[test]
fn held_button_fires_no_second_pick() {
    let mut reg = BlockRegistry::new();
    let blocks = generate(2, 2, (0, 0), 1);
    assert_eq!(reg.register_chunk(&blocks), Ok(()));
    let p = WorldPoint { x: 400, y: 600, z: 400 };
    let press = FrameInput { prev: snap(false, false), curr: snap(true, false), intersection: Some(p) };
    let (_, outcome) = frame_step(&mut reg, LockState::Free, press);
    assert_eq!(outcome, Some(PickOutcome::Hit(Coord { x: 0, y: 0, z: 0 })));
    // the button is still held on the next frame: the resolver must not run
    let held = FrameInput { prev: snap(true, false), curr: snap(true, false), intersection: Some(p) };
    let (_, outcome) = frame_step(&mut reg, LockState::Locked, held);
    assert_eq!(outcome, None);
    assert_eq!(reg.len(), 3);
}

#[test]
fn no_intersection_means_no_pick() {
    let mut reg = BlockRegistry::new();
    let blocks = generate(2, 2, (0, 0), 1);
    assert_eq!(reg.register_chunk(&blocks), Ok(()));
    let press = FrameInput { prev: snap(false, false), curr: snap(true, false), intersection: None };
    let (lock, outcome) = frame_step(&mut reg, LockState::Free, press);
    assert_eq!(lock, LockState::Locked);
    assert_eq!(outcome, None);
    assert_eq!(reg.len(), 4);
}
