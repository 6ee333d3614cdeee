use std::cmp::Ordering;

use rust_viewer_pro::path_order::path_order;
use rust_viewer_pro::image_loader::{
    index_of, is_image, is_supported_extension, playlist_entries, playlist_from_entries, walk_plan,
};

#[test]
fn recognises_supported_extensions() {
    assert!(is_image("photo.png"));
    assert!(is_image("PHOTO.JPG"));
    assert!(is_image("a/b/c.webp"));
}

#[test]
fn rejects_unsupported_and_extensionless() {
    assert!(!is_image("notes.txt"));
    assert!(!is_image("archive.tar.gz"));
    assert!(!is_image("README"));
}

#[test]
fn index_of_defaults_to_zero_when_missing() {
    let images = vec![String::from("a.png"), String::from("b.png")];
    assert_eq!(index_of(&images, "b.png"), 1);
    assert_eq!(index_of(&images, "z.png"), 0);
}

#[test]
fn every_supported_extension_in_any_case() {
    for ext in ["png", "jpg", "jpeg", "bmp", "webp", "gif", "PnG", "JPEG", "Gif"] {
        assert!(is_supported_extension(ext), "{ext}");
    }
    for ext in ["", "pn", "pngg", "tiff", "svg", "jpg ", "é"] {
        assert!(!is_supported_extension(ext), "{ext}");
    }
}

#[test]
fn hidden_files_and_directories_are_not_images() {
    assert!(!is_image(".png"));
    assert!(!is_image("dir/.gif"));
    assert!(!is_image("pictures.png/notes"));
    assert!(is_image("pictures/.hidden.gif"));
}

#[test]
fn index_of_finds_the_first_same_path() {
    let images = vec![
        String::from("x/a.png"),
        String::from("x/b.png"),
        String::from("x//b.png"),
    ];
    assert_eq!(index_of(&images, "x/b.png"), 1);
    assert_eq!(index_of(&images, "x/./a.png"), 0);
    assert_eq!(index_of(&[], "x/a.png"), 0);
}

#[test]
fn playlist_keeps_sorted_images_only() {
    let entries = vec![
        String::from("dir/b.png"),
        String::from("dir/notes.txt"),
        String::from("dir"),
        String::from("dir/a.JPG"),
        String::from("dir/sub/c.gif"),
    ];
    let list = playlist_from_entries("dir", false, entries);
    assert_eq!(list, vec!["dir/a.JPG", "dir/b.png", "dir/sub/c.gif"]);
}

#[test]
fn playlist_sorts_by_path_components() {
    let entries = vec![String::from("d/a-b.png"), String::from("d/a/b.png")];
    let list = playlist_from_entries("d", false, entries);
    assert_eq!(list, vec!["d/a/b.png", "d/a-b.png"]);
}

#[test]
fn requested_file_is_kept_even_when_filtered_out() {
    let entries = vec![String::from("dir/b.png"), String::from("dir/c.tiff")];
    let list = playlist_from_entries("dir/c.tiff", true, entries);
    assert_eq!(list, vec!["dir/b.png", "dir/c.tiff"]);

    let entries = vec![String::from("dir/b.png"), String::from("dir/a.png")];
    let list = playlist_from_entries("dir/b.png", true, entries);
    assert_eq!(list, vec!["dir/a.png", "dir/b.png"]);
}

#[test]
fn requested_image_appears_once() {
    let entries = vec![
        String::from("dir"),
        String::from("dir/c.png"),
        String::from("dir/a.png"),
        String::from("dir/b.gif"),
    ];
    let list = playlist_from_entries("dir/c.png", true, entries);
    assert_eq!(list, vec!["dir/a.png", "dir/b.gif", "dir/c.png"]);
    assert_eq!(list.iter().filter(|p| p.as_str() == "dir/c.png").count(), 1);
}

#[test]
fn requested_file_missing_from_the_walk_is_added() {
    let list = playlist_from_entries("solo.png", true, Vec::new());
    assert_eq!(list, vec!["solo.png"]);
    let list = playlist_from_entries("dir", false, Vec::new());
    assert!(list.is_empty());
}

#[test]
fn every_image_of_the_walk_is_kept() {
    let entries: Vec<String> = (0..20).rev().map(|i| format!("d/{i:02}.png")).collect();
    let list = playlist_from_entries("d", false, entries);
    let expected: Vec<String> = (0..20).map(|i| format!("d/{i:02}.png")).collect();
    assert_eq!(list, expected);
}

#[test]
fn walk_plan_uses_the_folder_of_a_file() {
    assert_eq!(walk_plan("dir/sub/a.png", true), (String::from("dir/sub"), false));
    assert_eq!(walk_plan("/a.png", true), (String::from("/"), false));
    assert_eq!(walk_plan("a.png", true), (String::from("."), false));
    assert_eq!(walk_plan("dir/sub", false), (String::from("dir/sub"), true));
}

#[test]
fn path_order_compares_component_by_component() {
    let a = String::from("d/a/b.png");
    let b = String::from("d/a-b.png");
    assert_eq!(path_order(&a, &a), Ordering::Equal);
    assert_eq!(path_order(&a, &b), Ordering::Less);
    assert_eq!(path_order(&b, &a), Ordering::Greater);
}

#[test]
fn walked_folders_are_dropped_and_dot_prefix_removed() {
    let walked = vec![
        (String::from("."), false),
        (String::from("./b.png"), true),
        (String::from("./pics.png"), false),
        (String::from("./a.png"), true),
    ];
    let entries = playlist_entries(walked, ".");
    assert_eq!(entries, vec!["b.png", "a.png"]);
    let list = playlist_from_entries("a.png", true, entries);
    assert_eq!(list, vec!["a.png", "b.png"]);

    let walked = vec![(String::from("./x/a.png"), true), (String::from("x"), false)];
    assert_eq!(playlist_entries(walked, "x"), vec!["./x/a.png"]);
}

#[test]
fn file_names_follow_path_components() {
    assert!(is_image("x.png/"));
    assert!(is_image("dir/x.png/."));
    assert!(is_image("./x.GIF"));
    assert!(!is_image("x.png/.."));
    assert!(!is_image("/"));
}

#[test]
fn same_path_spellings_are_found() {
    let images = vec![String::from("a.png"), String::from("d/b.png")];
    assert_eq!(index_of(&images, "d//b.png"), 1);
    assert_eq!(index_of(&images, "d/./b.png"), 1);
    assert_eq!(index_of(&images, "./d/b.png"), 0);
    let list = playlist_from_entries("d//b.png", true, vec![String::from("d/b.png")]);
    assert_eq!(list, vec!["d/b.png"]);
}
