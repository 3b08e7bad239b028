use voxel_grid::cursor::{lock_step, CursorGrab, LockState};
use voxel_grid::input::InputSnapshot;

fn snap(primary: bool, escape: bool) -> InputSnapshot {
    InputSnapshot { primary_down: primary, escape_down: escape }
}

#[test]
fn cursor_lock_scenario() {
    let idle = snap(false, false);
    // starting Free, a primary-mouse press locks
    let s = LockState::Free;
    let s = lock_step(s, idle, snap(true, false));
    assert_eq!(s, LockState::Locked);
    // a subsequent escape press frees
    let s = lock_step(s, snap(true, false), snap(false, true));
    assert_eq!(s, LockState::Free);
    // a second escape press while already Free is a no-op
    let s = lock_step(s, idle, snap(false, true));
    assert_eq!(s, LockState::Free);
}

#[test]
fn held_buttons_do_not_retrigger() {
    let held = snap(true, false);
    // primary stays down across the frame: no just-pressed edge, no change
    assert_eq!(lock_step(LockState::Free, held, held), LockState::Free);
    assert_eq!(lock_step(LockState::Locked, held, held), LockState::Locked);
}

#[test]
fn escape_wins_when_both_are_pressed_in_one_frame() {
    let idle = snap(false, false);
    let both = snap(true, true);
    assert_eq!(lock_step(LockState::Free, idle, both), LockState::Free);
    assert_eq!(lock_step(LockState::Locked, idle, both), LockState::Free);
}

#[test]
fn repeated_lock_is_harmless() {
    let s = lock_step(LockState::Locked, snap(false, false), snap(true, false));
    assert_eq!(s, LockState::Locked);
}

#[test]
fn states_drive_visibility_and_grab() {
    assert!(LockState::Free.visible());
    assert_eq!(LockState::Free.grab(), CursorGrab::Released);
    assert!(!LockState::Locked.visible());
    assert_eq!(LockState::Locked.grab(), CursorGrab::Locked);
}
