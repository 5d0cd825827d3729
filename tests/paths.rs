use camtrap_detector::paths::{enumerate_images, is_image_path, sort_paths, WalkEntry};

#[test]
fn image_extensions_any_case() {
    assert!(is_image_path("a.jpg"));
    assert!(is_image_path("dir/a.JPG"));
    assert!(is_image_path("/x/y/b.Jpeg"));
    assert!(is_image_path("c.png"));
    assert!(is_image_path("archive.tar.PNG"));
}

#[test]
fn non_image_paths() {
    assert!(!is_image_path("d.gif"));
    assert!(!is_image_path(".jpg"));
    assert!(!is_image_path("dir/.png"));
    assert!(!is_image_path("dir.jpg/file"));
    assert!(!is_image_path("noext"));
    assert!(!is_image_path("a.jpgx"));
    assert!(!is_image_path(""));
    assert!(!is_image_path("a.jpg/.."));
    assert!(!is_image_path("/"));
}

#[test]
fn trailing_separators_are_ignored() {
    assert!(is_image_path("d/a.jpg/"));
    assert!(is_image_path("d/a.jpg/."));
    assert!(is_image_path("d/a.PNG//"));
    assert!(is_image_path("a.jpeg/./"));
}

fn entry(path: &str, depth: usize, is_file: bool) -> WalkEntry {
    WalkEntry { path: path.to_string(), depth, is_file }
}

fn walk() -> Vec<WalkEntry> {
    vec![
        entry("/root", 0, false),
        entry("/root/a.jpg", 1, true),
        entry("/root/b.JPG", 1, true),
        entry("/root/notes.txt", 1, true),
        entry("/root/sub", 1, false),
        entry("/root/sub/c.jpg", 2, true),
        entry("/root/sub/d.png", 2, true),
        entry("/root/sub/deeper/e.jpeg", 3, true),
    ]
}

#[test]
fn shallow_walk_skips_subdirectories() {
    assert_eq!(enumerate_images(walk(), false), vec!["/root/a.jpg", "/root/b.JPG"]);
}

#[test]
fn recursive_walk_takes_every_image() {
    assert_eq!(
        enumerate_images(walk(), true),
        vec!["/root/a.jpg", "/root/b.JPG", "/root/sub/c.jpg", "/root/sub/d.png", "/root/sub/deeper/e.jpeg"]
    );
}

#[test]
fn empty_walk_has_no_images() {
    assert!(enumerate_images(vec![], true).is_empty());
}

#[test]
fn enumeration_is_sorted_whatever_the_walk_order() {
    let mut w = walk();
    w.reverse();
    assert_eq!(
        enumerate_images(w, true),
        vec!["/root/a.jpg", "/root/b.JPG", "/root/sub/c.jpg", "/root/sub/d.png", "/root/sub/deeper/e.jpeg"]
    );
}

#[test]
fn sort_paths_orders_by_character_code() {
    let v = vec![String::from("b"), String::from("B"), String::from("a/b"), String::from("a.b"), String::from("a")];
    assert_eq!(sort_paths(v), vec!["B", "a", "a.b", "a/b", "b"]);
}
