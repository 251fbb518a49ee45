use stacked_worlds::draw::CameraMode;

#[test]
fn it_works() {
    assert_eq!(2 + 2, 4);
}

#[test]
fn camera_modes_alternate() {
    assert_eq!(CameraMode::Normal.next_mode(), CameraMode::EditorMode);
    assert_eq!(CameraMode::EditorMode.next_mode(), CameraMode::Normal);
}
