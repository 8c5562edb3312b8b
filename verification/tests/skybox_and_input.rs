use alloy::canvas::{CanvasSettings, Phong};
use alloy::input::{
    is_freeflight_key, plan_camera_frame, requests_freeflight_toggle, CanvasModifiers, DragAction,
    Movement, MovementKeys, WheelAction,
};
use alloy::skybox::{Skybox, SkyboxSource};

#[test]
fn hdri_from_url_uses_1024_pixel_faces() {
    let skybox = Skybox::hdri_from_url("/source/sky.hdr".to_string());
    match skybox.source() {
        SkyboxSource::Hdr { url, face_size } => {
            assert_eq!(url, "/source/sky.hdr");
            assert_eq!(*face_size, 1024);
        }
        _ => panic!("expected an HDR skybox"),
    }
}

#[test]
fn hdri_face_size_is_at_least_one() {
    match Skybox::hdri_from_url_with_face_size("a.hdr".to_string(), 0).source() {
        SkyboxSource::Hdr { face_size, .. } => assert_eq!(*face_size, 1),
        _ => panic!("expected an HDR skybox"),
    }
    match Skybox::hdri_from_url_with_face_size("a.hdr".to_string(), 256).source() {
        SkyboxSource::Hdr { face_size, .. } => assert_eq!(*face_size, 256),
        _ => panic!("expected an HDR skybox"),
    }
}

#[test]
fn cubemap_keeps_face_order() {
    let names = ["px", "nx", "py", "ny", "pz", "nz"].map(|s| s.to_string());
    match Skybox::cubemap_from_urls(names.clone()).source() {
        SkyboxSource::Cubemap { face_urls } => assert_eq!(face_urls, &names),
        _ => panic!("expected a cubemap skybox"),
    }
}

#[test]
fn default_skybox_faces() {
    match Skybox::default().source() {
        SkyboxSource::Cubemap { face_urls } => {
            assert_eq!(face_urls[0], "/skybox/px.jpg");
            assert_eq!(face_urls[1], "/skybox/nx.jpg");
            assert_eq!(face_urls[2], "/skybox/py.jpg");
            assert_eq!(face_urls[3], "/skybox/ny.jpg");
            assert_eq!(face_urls[4], "/skybox/pz.jpg");
            assert_eq!(face_urls[5], "/skybox/nz.jpg");
        }
        _ => panic!("expected a cubemap skybox"),
    }
}

#[test]
fn freeflight_keys() {
    for code in ["KeyW", "KeyA", "KeyS", "KeyD", "Space", "ShiftLeft", "ShiftRight", "KeyF"] {
        assert!(is_freeflight_key(code), "{code}");
    }
    for code in ["KeyQ", "keyw", "Shift", "", "KeyWW", "Enter"] {
        assert!(!is_freeflight_key(code), "{code}");
    }
}

#[test]
fn key_f_toggles_unless_repeated() {
    assert!(requests_freeflight_toggle("KeyF", false));
    assert!(!requests_freeflight_toggle("KeyF", true));
    assert!(!requests_freeflight_toggle("KeyG", false));
}

fn no_keys() -> MovementKeys {
    MovementKeys {
        key_w: false,
        key_a: false,
        key_s: false,
        key_d: false,
        space: false,
        shift_left: false,
        shift_right: false,
    }
}

fn ctrl() -> CanvasModifiers {
    CanvasModifiers { ctrl: true, ..CanvasModifiers::default() }
}

#[test]
fn ctrl_left_drag_orbits() {
    let frame = plan_camera_frame(false, false, 1, ctrl(), no_keys(), false);
    assert!(!frame.freeflight);
    assert_eq!(frame.drag, DragAction::Orbit);
    assert_eq!(frame.movement, None);
    assert_eq!(frame.wheel, WheelAction::Idle);
}

#[test]
fn ctrl_middle_drag_pans_and_right_drag_dollies() {
    assert_eq!(plan_camera_frame(false, false, 4, ctrl(), no_keys(), false).drag, DragAction::Pan);
    assert_eq!(plan_camera_frame(false, false, 2, ctrl(), no_keys(), false).drag, DragAction::Dolly);
    assert_eq!(plan_camera_frame(false, false, 5, ctrl(), no_keys(), false).drag, DragAction::Orbit);
    assert_eq!(plan_camera_frame(false, false, 6, ctrl(), no_keys(), false).drag, DragAction::Pan);
}

#[test]
fn drag_without_ctrl_does_nothing() {
    let none = CanvasModifiers::default();
    assert_eq!(plan_camera_frame(false, false, 1, none, no_keys(), false).drag, DragAction::Idle);
}

#[test]
fn wheel_dollies_in_both_modes() {
    assert_eq!(plan_camera_frame(false, false, 0, ctrl(), no_keys(), true).wheel, WheelAction::Dolly);
    assert_eq!(plan_camera_frame(true, false, 0, ctrl(), no_keys(), true).wheel, WheelAction::DollyReversed);
}

#[test]
fn freeflight_moves_with_keys() {
    let keys = MovementKeys { key_w: true, key_a: true, space: false, shift_left: true, shift_right: true, ..no_keys() };
    let frame = plan_camera_frame(true, false, 0, CanvasModifiers::default(), keys, false);
    assert!(frame.freeflight);
    assert_eq!(frame.drag, DragAction::Look);
    assert_eq!(frame.movement, Some(Movement { forward: 1, strafe: -1, vertical: -2 }));
}

#[test]
fn toggle_switches_mode_and_twice_returns() {
    let first = plan_camera_frame(false, true, 0, CanvasModifiers::default(), no_keys(), false);
    assert!(first.toggle && first.freeflight);
    let second = plan_camera_frame(first.freeflight, true, 0, CanvasModifiers::default(), no_keys(), false);
    assert!(!second.freeflight);
}

#[test]
fn canvas_settings_builders() {
    let settings = CanvasSettings::new();
    assert_eq!(settings.update_frequency, 60);
    assert!(!settings.event_logging && !settings.start_in_freeflight);
    let settings = settings.shading(Phong).camera().freeflight().enable_logging().update_frequency(0);
    assert_eq!(settings.update_frequency, 1);
    assert!(settings.event_logging && settings.start_in_freeflight);
    assert_eq!(settings.update_frequency(144).update_frequency, 144);
}
