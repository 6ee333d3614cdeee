use rust_viewer_pro::input::InputState;
use rust_viewer_pro::viewer::Viewer;

fn playlist(n: usize) -> Vec<String> {
    (0..n).map(|i| format!("img{i}.png")).collect()
}

fn keys() -> InputState {
    InputState::default()
}

#[test]
fn empty_viewer_requests_nothing() {
    let mut v: Viewer<u32> = Viewer::new(Vec::new(), "");
    assert!(v.is_empty());
    assert_eq!(v.index(), 0);
    assert!(v.window_indices().is_empty());
    assert!(v.ensure_window_loaded().is_empty());
    assert!(v.next().is_empty());
    assert!(v.prev().is_empty());
    assert!(v.current_texture().is_none());
    assert!(v.fit());
}

#[test]
fn opening_at_a_file_selects_it() {
    let v: Viewer<u32> = Viewer::new(playlist(5), "img3.png");
    assert_eq!(v.index(), 3);
    assert_eq!(v.window_indices(), vec![3, 4, 2]);
    let v: Viewer<u32> = Viewer::new(playlist(5), "missing.png");
    assert_eq!(v.index(), 0);
    assert_eq!(v.window_indices(), vec![0, 1, 4]);
}

#[test]
fn window_of_one_and_two_images() {
    let v: Viewer<u32> = Viewer::new(playlist(1), "img0.png");
    assert_eq!(v.window_indices(), vec![0]);
    let mut v: Viewer<u32> = Viewer::new(playlist(2), "img1.png");
    assert_eq!(v.window_indices(), vec![1, 0, 0]);
    assert_eq!(v.ensure_window_loaded(), vec![1, 0]);
}

#[test]
fn first_load_requests_current_then_neighbours() {
    let mut v: Viewer<u32> = Viewer::new(playlist(5), "img0.png");
    assert_eq!(v.ensure_window_loaded(), vec![0, 1, 4]);
    // Already awaited: nothing is asked twice.
    assert!(v.ensure_window_loaded().is_empty());
}

#[test]
fn next_and_prev_wrap_around() {
    let mut v: Viewer<u32> = Viewer::new(playlist(3), "img2.png");
    v.ensure_window_loaded();
    assert!(v.next().is_empty());
    assert_eq!(v.index(), 0);
    v.prev();
    assert_eq!(v.index(), 2);
    v.prev();
    assert_eq!(v.index(), 1);
    v.next();
    assert_eq!(v.index(), 2);
}

#[test]
fn moving_requests_the_new_neighbour_and_evicts_the_old() {
    let mut v: Viewer<u32> = Viewer::new(playlist(10), "img0.png");
    for i in v.ensure_window_loaded() {
        v.record_decoded(i, Ok(i as u32 * 100));
    }
    assert_eq!(v.current_texture(), Some(&0));
    assert_eq!(v.next(), vec![2]);
    assert_eq!(v.index(), 1);
    assert_eq!(v.current_texture(), Some(&100));
    // Image 9 left the window and was dropped.
    assert_eq!(v.prev(), vec![9]);
    assert_eq!(v.current_texture(), Some(&0));
}

#[test]
fn decode_errors_are_reported_for_the_current_image_only() {
    let mut v: Viewer<u32> = Viewer::new(playlist(4), "img0.png");
    v.ensure_window_loaded();
    v.record_decoded(1, Err(String::from("bad neighbour")));
    assert!(v.error().is_none());
    v.record_decoded(0, Err(String::from("bad current")));
    assert_eq!(v.error().map(String::as_str), Some("bad current"));
    v.record_decoded(0, Ok(7));
    assert!(v.error().is_none());
    assert_eq!(v.current_texture(), Some(&7));
}

#[test]
fn a_later_result_replaces_an_earlier_one() {
    let mut v: Viewer<u32> = Viewer::new(playlist(4), "img0.png");
    v.ensure_window_loaded();
    v.record_decoded(0, Ok(1));
    v.record_decoded(0, Ok(2));
    assert_eq!(v.current_texture(), Some(&2));
}

#[test]
fn navigation_clears_the_error_and_fits_again() {
    let mut v: Viewer<u32> = Viewer::new(playlist(4), "img0.png");
    v.ensure_window_loaded();
    v.record_decoded(0, Err(String::from("e")));
    v.stop_fitting();
    assert!(!v.fit());
    v.next();
    assert!(v.error().is_none());
    assert!(v.fit());
}

#[test]
fn go_to_ignores_out_of_range_and_current() {
    let mut v: Viewer<u32> = Viewer::new(playlist(4), "img1.png");
    v.ensure_window_loaded();
    v.stop_fitting();
    assert!(v.go_to(9).is_empty());
    assert!(v.go_to(1).is_empty());
    assert!(!v.fit());
    assert_eq!(v.go_to(3), vec![3]);
    assert_eq!(v.index(), 3);
}

#[test]
fn keys_first_and_last() {
    let mut v: Viewer<u32> = Viewer::new(playlist(6), "img2.png");
    v.ensure_window_loaded();
    let mut k = keys();
    k.last = true;
    v.handle_keys(&k);
    assert_eq!(v.index(), 5);
    let mut k = keys();
    k.first = true;
    v.handle_keys(&k);
    assert_eq!(v.index(), 0);
}

#[test]
fn keys_are_applied_in_order() {
    let mut v: Viewer<u32> = Viewer::new(playlist(6), "img2.png");
    v.ensure_window_loaded();
    // next, then first: ends at the first image.
    let mut k = keys();
    k.next = true;
    k.first = true;
    v.handle_keys(&k);
    assert_eq!(v.index(), 0);
    // next and prev cancel out, but the view is refitted.
    v.stop_fitting();
    let mut k = keys();
    k.next = true;
    k.prev = true;
    v.handle_keys(&k);
    assert_eq!(v.index(), 0);
    assert!(v.fit());
}

#[test]
fn zoom_and_reset_keys_drive_fitting() {
    let mut v: Viewer<u32> = Viewer::new(playlist(3), "img0.png");
    let mut k = keys();
    k.zoom_in = true;
    assert!(v.handle_keys(&k).is_empty());
    assert!(!v.fit());
    let mut k = keys();
    k.zoom_out = true;
    k.reset_view = true;
    v.handle_keys(&k);
    assert!(v.fit());
    // Moving and zooming in the same frame leaves the view unfitted.
    let mut k = keys();
    k.next = true;
    k.zoom_in = true;
    v.handle_keys(&k);
    assert_eq!(v.index(), 1);
    assert!(!v.fit());
}

#[test]
fn help_toggles() {
    let mut v: Viewer<u32> = Viewer::new(playlist(3), "img0.png");
    assert!(!v.show_help());
    let mut k = keys();
    k.toggle_help = true;
    v.handle_keys(&k);
    assert!(v.show_help());
    v.handle_keys(&k);
    assert!(!v.show_help());
    v.set_show_help(true);
    assert!(v.show_help());
}

#[test]
fn opening_a_new_playlist_drops_the_old_cache() {
    let mut v: Viewer<u32> = Viewer::new(playlist(3), "img0.png");
    for i in v.ensure_window_loaded() {
        v.record_decoded(i, Ok(i as u32));
    }
    let requests = v.open(vec![String::from("a.png"), String::from("b.png")], "b.png");
    assert_eq!(requests, vec![1, 0]);
    assert_eq!(v.index(), 1);
    assert_eq!(v.len(), 2);
    assert!(v.current_texture().is_none());
    assert_eq!(v.path(1).map(String::as_str), Some("b.png"));
    assert!(v.path(2).is_none());
}

#[test]
fn single_image_does_not_move() {
    let mut v: Viewer<u32> = Viewer::new(playlist(1), "img0.png");
    assert_eq!(v.ensure_window_loaded(), vec![0]);
    v.stop_fitting();
    assert!(v.next().is_empty());
    assert!(v.prev().is_empty());
    assert!(!v.fit());
}

#[test]
fn a_late_result_outside_the_window_is_dropped() {
    let mut v: Viewer<u32> = Viewer::new(playlist(6), "img0.png");
    assert_eq!(v.ensure_window_loaded(), vec![0, 1, 5]);
    v.record_decoded(0, Ok(10));
    // Move two steps on before index 5 comes back: 5 has left the window.
    v.next();
    v.next();
    assert_eq!(v.window_indices(), vec![2, 3, 1]);
    v.record_decoded(5, Ok(50));
    v.go_to(5);
    assert!(v.current_texture().is_none());
    // A result inside the window is kept.
    let mut v: Viewer<u32> = Viewer::new(playlist(6), "img0.png");
    v.ensure_window_loaded();
    v.record_decoded(5, Ok(50));
    v.prev();
    assert_eq!(v.current_texture(), Some(&50));
}
