use swiftflow::file_dialog::{
    request_open_folder, store_picked, take_picked, take_request, FolderRequest, PickedFolder,
};
use swiftflow::pacing::{
    abandon_post, on_vsync, post_callback, start, stop, take_frame, FramePacer,
};

#[test]
fn a_folder_request_is_taken_once() {
    let mut request = FolderRequest::default();
    assert!(!take_request(&mut request));
    request_open_folder(&mut request);
    request_open_folder(&mut request);
    assert!(take_request(&mut request));
    assert!(!take_request(&mut request));
}

#[test]
fn the_picked_folder_is_handed_over_exactly_once() {
    let mut slot = PickedFolder::default();
    assert_eq!(take_picked(&mut slot), None);
    store_picked(&mut slot, Some("/home/x/project".to_string()));
    assert_eq!(take_picked(&mut slot).as_deref(), Some("/home/x/project"));
    assert_eq!(take_picked(&mut slot), None);
}

#[test]
fn a_dismissed_or_unrepresentable_pick_leaves_nothing() {
    let mut slot = PickedFolder::default();
    store_picked(&mut slot, Some("/a".to_string()));
    store_picked(&mut slot, None);
    assert_eq!(take_picked(&mut slot), None);
    store_picked(&mut slot, Some("/a\0b".to_string()));
    assert_eq!(take_picked(&mut slot), None);
}

#[test]
fn pacing_keeps_one_callback_and_hands_each_frame_out_once() {
    let mut pacer = FramePacer::default();
    assert!(!post_callback(&mut pacer), "nothing is asked for before pacing starts");
    assert!(start(&mut pacer));
    assert!(!post_callback(&mut pacer), "one callback at a time");
    assert_eq!(take_frame(&mut pacer), None);
    assert!(on_vsync(&mut pacer, 1_000));
    assert_eq!(take_frame(&mut pacer), Some(1_000));
    assert_eq!(take_frame(&mut pacer), None);
}

#[test]
fn stopping_drops_the_pending_frame_and_the_next_callback() {
    let mut pacer = FramePacer::default();
    start(&mut pacer);
    on_vsync(&mut pacer, 5);
    stop(&mut pacer);
    assert_eq!(take_frame(&mut pacer), None);
    assert!(!on_vsync(&mut pacer, 6), "a stopped pacer registers no further callback");
    assert_eq!(take_frame(&mut pacer), Some(6));
}

#[test]
fn a_failed_registration_can_be_retried() {
    let mut pacer = FramePacer::default();
    assert!(start(&mut pacer));
    abandon_post(&mut pacer);
    assert!(post_callback(&mut pacer));
}

#[test]
fn every_handoff_starts_empty() {
    assert!(take_picked(&mut PickedFolder::default()).is_none());
    assert!(!take_request(&mut FolderRequest::default()));
    assert_eq!(take_frame(&mut FramePacer::default()), None);
}
