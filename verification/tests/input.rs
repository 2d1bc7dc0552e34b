use swiftflow::input::{
    Phase, PointerAction, TouchTracker, LIFECYCLE_BACKGROUND, LIFECYCLE_FOREGROUND,
    LIFECYCLE_TERMINATE,
};

#[test]
fn one_finger_produces_the_ordinary_sequence() {
    let mut t = TouchTracker::default();
    assert_eq!(t.update(7, Phase::Started), PointerAction::Down);
    assert_eq!(t.update(7, Phase::Moved), PointerAction::Moved);
    assert_eq!(t.update(7, Phase::Ended), PointerAction::Up);
    assert_eq!(t.update(9, Phase::Started), PointerAction::Down);
}

#[test]
fn a_second_finger_is_ignored_entirely() {
    let mut t = TouchTracker::default();
    assert_eq!(t.update(1, Phase::Started), PointerAction::Down);
    assert_eq!(t.update(2, Phase::Started), PointerAction::Ignore);
    assert_eq!(t.update(2, Phase::Moved), PointerAction::Ignore);
    assert_eq!(t.update(2, Phase::Ended), PointerAction::Ignore);
    assert_eq!(t.update(1, Phase::Moved), PointerAction::Moved);
}

#[test]
fn a_cancelled_touch_still_releases_the_gesture() {
    let mut t = TouchTracker::default();
    t.update(3, Phase::Started);
    assert_eq!(t.update(3, Phase::Cancelled), PointerAction::Up);
    assert_eq!(t.update(4, Phase::Started), PointerAction::Down);
}

#[test]
fn a_move_without_a_press_is_not_a_drag() {
    let mut t = TouchTracker::default();
    assert_eq!(t.update(1, Phase::Moved), PointerAction::Ignore);
    assert_eq!(t.update(1, Phase::Ended), PointerAction::Ignore);
}

#[test]
fn losing_the_surface_frees_the_slot() {
    let mut t = TouchTracker::default();
    t.update(1, Phase::Started);
    t.reset();
    assert_eq!(t.update(2, Phase::Started), PointerAction::Down);
}

#[test]
fn lifecycle_codes_are_stable() {
    assert_eq!((LIFECYCLE_FOREGROUND, LIFECYCLE_BACKGROUND, LIFECYCLE_TERMINATE), (0, 1, 2));
}
