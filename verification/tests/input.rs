use rust_viewer_pro::input::{InputState, ViewerKey};

#[test]
fn default_input_has_no_intent() {
    let k = InputState::default();
    assert!(!(k.next || k.prev || k.first || k.last || k.zoom_in || k.zoom_out));
    assert!(!(k.reset_view || k.toggle_fullscreen || k.toggle_help));
}

#[test]
fn keys_map_to_their_intents() {
    let none = InputState::read(&Vec::new());
    assert!(!(none.next || none.prev || none.first || none.last || none.zoom_in));
    assert!(!(none.zoom_out || none.reset_view || none.toggle_fullscreen || none.toggle_help));

    let cases = [
        (ViewerKey::ArrowRight, "next"),
        (ViewerKey::Space, "next"),
        (ViewerKey::ArrowLeft, "prev"),
        (ViewerKey::Backspace, "prev"),
        (ViewerKey::Home, "first"),
        (ViewerKey::End, "last"),
        (ViewerKey::Plus, "zoom_in"),
        (ViewerKey::Equals, "zoom_in"),
        (ViewerKey::Minus, "zoom_out"),
        (ViewerKey::Num0, "reset_view"),
        (ViewerKey::R, "reset_view"),
        (ViewerKey::F11, "toggle_fullscreen"),
        (ViewerKey::F, "toggle_fullscreen"),
        (ViewerKey::H, "toggle_help"),
        (ViewerKey::F1, "toggle_help"),
    ];
    for (key, intent) in cases {
        let k = InputState::read(&vec![key]);
        let set = [
            ("next", k.next),
            ("prev", k.prev),
            ("first", k.first),
            ("last", k.last),
            ("zoom_in", k.zoom_in),
            ("zoom_out", k.zoom_out),
            ("reset_view", k.reset_view),
            ("toggle_fullscreen", k.toggle_fullscreen),
            ("toggle_help", k.toggle_help),
        ];
        for (name, on) in set {
            assert_eq!(on, name == intent, "{key:?} -> {name}");
        }
    }
}

#[test]
fn several_keys_combine() {
    let k = InputState::read(&vec![ViewerKey::Space, ViewerKey::End, ViewerKey::Space]);
    assert!(k.next && k.last);
    assert!(!(k.prev || k.first || k.zoom_in || k.toggle_help));
}
