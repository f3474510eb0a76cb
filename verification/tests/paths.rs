use wallfacer::paths::{extension, file_name, join, renamed_file_name};
use wallfacer::{filename, filter_images, full_path, is_image, PathBufExt, PathBufNumericSort};

#[test]
fn file_names() {
    assert_eq!(filename("/a/b/c.jpg"), "c.jpg");
    assert_eq!(filename("c.jpg"), "c.jpg");
    assert_eq!(filename("/a/b/"), "b");
    assert_eq!(file_name("/"), None);
    assert_eq!(file_name("a/.."), None);
    assert_eq!(file_name("a/b/."), Some("b".to_string()));
    assert_eq!(file_name(""), None);
}

#[test]
fn extensions() {
    assert_eq!(extension("a/b.tar.gz"), Some("gz".to_string()));
    assert_eq!(extension(".bashrc"), None);
    assert_eq!(extension("a."), Some("".to_string()));
    assert_eq!(extension("noext"), None);
    assert_eq!(extension("dir.d/file"), None);
}

#[test]
fn joining_paths() {
    assert_eq!(join("/a", "b"), "/a/b");
    assert_eq!(join("/a/", "b"), "/a/b");
    assert_eq!(join("/a", "/b"), "/b");
    assert_eq!(join("", "b"), "b");
    assert_eq!(full_path("~/Pictures", "/home/u"), "/home/u/Pictures");
    assert_eq!(full_path("/abs/dir", "/home/u"), "/abs/dir");
    assert_eq!(full_path("~user/x", "/home/u"), "~user/x");
    assert_eq!("x/y/z.png".to_string().with_directory("/w"), "/w/z.png");
}

#[test]
fn renaming_extensions() {
    assert_eq!(renamed_file_name("a/b.jpg", "png"), "b.png");
    assert_eq!(renamed_file_name("a/b", "png"), "b.png");
    assert_eq!(renamed_file_name("a/.hidden", "png"), ".hidden.png");
    assert_eq!(renamed_file_name("a/b.tar.gz", "webp"), "b.tar.webp");
    assert_eq!(renamed_file_name("a/b.jpg", ""), "b");
}

#[test]
fn images_by_extension() {
    assert!(is_image("a.jpg", true));
    assert!(is_image("/x/a.jpeg", true));
    assert!(is_image("a.png", true));
    assert!(is_image("a.webp", true));
    assert!(!is_image("a.JPG", true));
    assert!(!is_image("a.jpg", false));
    assert!(!is_image("a.gif", true));
    assert!(!is_image("jpg", true));
}

#[test]
fn filter_keeps_images_in_order() {
    let entries = vec![
        ("a.jpg".to_string(), true),
        ("b.txt".to_string(), true),
        ("c.png".to_string(), false),
        ("d.webp".to_string(), true),
    ];
    assert_eq!(filter_images(&entries), vec!["a.jpg".to_string(), "d.webp".to_string()]);
    assert_eq!(filter_images(&vec![]), Vec::<String>::new());
}

#[test]
fn numeric_sort_reads_numbers() {
    let mut v = vec!["/a/img10.jpg".to_string(), "/b/img2.jpg".to_string(), "/c/img1.jpg".to_string()];
    v.numeric_sort();
    assert_eq!(v, vec!["/c/img1.jpg".to_string(), "/b/img2.jpg".to_string(), "/a/img10.jpg".to_string()]);
    let mut w = vec!["b.png".to_string(), "a.png".to_string(), "a.png".to_string()];
    w.numeric_sort();
    assert_eq!(w, vec!["a.png".to_string(), "a.png".to_string(), "b.png".to_string()]);
    // paths with the same file name keep their order
    let mut x = vec!["/z/b.png".to_string(), "/y/a.png".to_string(), "/x/a.png".to_string()];
    x.numeric_sort();
    assert_eq!(x, vec!["/y/a.png".to_string(), "/x/a.png".to_string(), "/z/b.png".to_string()]);
}
