use image_catalog::names::{
    extension_start, find_last_dot, is_image_name, suffix_start, is_plain_basename_exec, name_less, str_equals, tail_equals,
};

#[test]
fn extension_positions() {
    assert_eq!(extension_start("a.jpg"), Some(2));
    assert_eq!(extension_start("a.b.png"), Some(4));
    assert_eq!(extension_start(".hidden"), None);
    assert_eq!(extension_start("plain"), None);
    assert_eq!(extension_start("é.webp"), Some(2));
}

#[test]
fn image_names() {
    assert!(is_image_name("x.jpg"));
    assert!(is_image_name("x.webp"));
    assert!(!is_image_name("x.jpeg"));
    assert!(!is_image_name("x.JPG"));
    assert!(!is_image_name("png"));
}

#[test]
fn name_order() {
    assert!(name_less("a.jpg", "b.jpg"));
    assert!(!name_less("b.jpg", "a.jpg"));
    assert!(!name_less("a.jpg", "a.jpg"));
    assert!(name_less("a", "a.jpg"));
    assert!(name_less("Z.jpg", "a.jpg"));
    assert!(name_less("z.jpg", "é.jpg"));
}

#[test]
fn string_comparisons() {
    assert!(str_equals("small", "small"));
    assert!(!str_equals("small", "smal"));
    assert!(tail_equals("a.jpg", 2, "jpg"));
    assert!(!tail_equals("a.jpg", 1, "jpg"));
}

#[test]
fn plain_basenames() {
    assert!(is_plain_basename_exec("a.jpg"));
    assert!(is_plain_basename_exec("...jpg"));
    assert!(!is_plain_basename_exec(".."));
    assert!(!is_plain_basename_exec("x/y"));
}

#[test]
fn last_dot_positions() {
    assert_eq!(find_last_dot("a.b.jpg"), Some(3));
    assert_eq!(find_last_dot(".jpg"), Some(0));
    assert_eq!(find_last_dot("plain"), None);
    assert_eq!(suffix_start(".jpg"), Some(1));
    assert_eq!(suffix_start("x.png"), Some(2));
    assert_eq!(suffix_start("png"), None);
}
