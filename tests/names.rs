use zip_compare::names::{is_image, is_junk, same_name};

#[test]
fn junk_names() {
    assert!(is_junk("__MACOSX/a.txt"));
    assert!(is_junk(".DS_Store"));
    assert!(is_junk("deep/dir/.DS_Store"));
    assert!(!is_junk("MACOSX/a.txt"));
    assert!(!is_junk("x/__MACOSX/a.txt"));
    assert!(!is_junk(".DS_Store.bak"));
    assert!(!is_junk(""));
}

#[test]
fn image_names() {
    assert!(is_image("a.png"));
    assert!(is_image("b.jpeg"));
    assert!(is_image("xpng"));
    assert!(!is_image("a.PNG"));
    assert!(!is_image("a.txt"));
    assert!(!is_image("png.txt"));
}

#[test]
fn name_equality() {
    assert!(same_name("é.txt", "é.txt"));
    assert!(!same_name("a.txt", "A.txt"));
    assert!(!same_name("a", "ab"));
}
