use birei::controls::slider_class_name;
use birei::map_tiles::{marker_drag_pointer, marker_drag_starts, map_viewer_class_name, pan_starts, wheel_zooms};
use birei::sign_pad::SignPadContent;

const DOCUMENT: &str = "<svg viewBox=\"0 0 10 10\"><path d=\"M0 0\" /></svg>";

#[test]
fn map_viewer_classes_and_gates() {
    assert_eq!(map_viewer_class_name(false, false, None), "birei-map-picker");
    assert_eq!(
        map_viewer_class_name(true, true, Some("wide")),
        "birei-map-picker birei-map-picker--disabled birei-map-picker--readonly wide"
    );
    assert!(pan_starts(false, false, false));
    assert!(!pan_starts(true, false, false));
    assert!(!pan_starts(false, true, false));
    assert!(!pan_starts(false, false, true));
    assert!(wheel_zooms(false));
    assert!(!wheel_zooms(true));
    assert!(marker_drag_starts(false, false, true));
    assert!(!marker_drag_starts(false, true, true));
    assert!(!marker_drag_starts(false, false, false));
    assert!(marker_drag_pointer(Some(3), 3));
    assert!(!marker_drag_pointer(Some(3), 4));
    assert!(!marker_drag_pointer(None, 3));
}

#[test]
fn slider_classes() {
    assert_eq!(slider_class_name("birei-slider--md", false, false, None, None), "birei-slider birei-slider--md");
    assert_eq!(
        slider_class_name("birei-slider--sm", true, true, Some("x"), Some(true)),
        "birei-slider birei-slider--sm birei-slider--disabled birei-slider--invalid x birei-slider--ripple-a"
    );
    assert_eq!(
        slider_class_name("birei-slider--lg", false, false, None, Some(false)),
        "birei-slider birei-slider--lg birei-slider--ripple-b"
    );
}

#[test]
fn sign_pad_load_and_clear() {
    let mut pad = SignPadContent::new();
    assert!(pad.is_empty());
    assert!(pad.load_svg(DOCUMENT).is_ok());
    assert_eq!(pad.imported.as_deref(), Some("<path d=\"M0 0\" />"));
    assert!(!pad.is_empty());
    assert!(pad.shows_clear_button(true));
    assert!(!pad.shows_clear_button(false));
    assert!(pad.load_svg("<div></div>").is_err());
    assert!(!pad.is_empty());
    assert!(pad.load_svg("   ").is_ok());
    assert!(pad.is_empty());
    pad.load_svg(DOCUMENT).unwrap();
    pad.clear();
    assert!(pad.is_empty());
    assert_eq!(pad.class_name(false, true, None), "birei-sign-pad birei-sign-pad--readonly birei-sign-pad--empty");
}

#[test]
fn sign_pad_strokes() {
    let mut pad = SignPadContent::new();
    assert!(!pad.begin_stroke(false, 1, true));
    assert!(!pad.begin_stroke(true, 1, false));
    assert!(pad.begin_stroke(true, 1, true));
    assert!(!pad.begin_stroke(true, 2, true));
    assert!(pad.move_draws(true, 1));
    assert!(!pad.move_draws(true, 2));
    pad.push_point();
    assert_eq!(pad.active_points, Some(2));
    pad.finish_stroke(2);
    assert_eq!(pad.active_pointer, Some(1));
    pad.finish_stroke(1);
    assert_eq!(pad.strokes, 1);
    assert_eq!(pad.active_points, None);
    assert!(!pad.is_empty());
    assert_eq!(pad.class_name(false, false, None), "birei-sign-pad");
}

#[test]
fn sign_pad_external_value() {
    let mut pad = SignPadContent::new();
    pad.external_value(Some(DOCUMENT.to_string()));
    assert!(!pad.is_empty());
    pad.begin_stroke(true, 1, true);
    pad.finish_stroke(1);
    pad.external_value(Some(DOCUMENT.to_string()));
    assert_eq!(pad.strokes, 1);
    pad.external_value(Some("not svg".to_string()));
    assert_eq!(pad.strokes, 1);
    assert_eq!(pad.last_external.as_deref(), Some("not svg"));
    pad.external_value(None);
    assert!(pad.is_empty());
}
