use image_catalog::catalog::{catalog_of, list_canonical, CatalogError, DirEntryInfo};

fn file(name: &str) -> DirEntryInfo {
    DirEntryInfo { name: name.to_string(), is_file: true }
}

fn dir(name: &str) -> DirEntryInfo {
    DirEntryInfo { name: name.to_string(), is_file: false }
}

#[test]
fn listing_is_sorted_and_filtered() {
    let entries = vec![
        file("zebra.png"),
        file("notes.txt"),
        file("apple.jpg"),
        file("mango.webp"),
        file("README"),
        file("banana.jpeg"),
    ];
    let names = list_canonical(Some(entries)).unwrap();
    assert_eq!(names, vec!["apple.jpg", "mango.webp", "zebra.png"]);
}

#[test]
fn listing_skips_directories_and_hidden_names() {
    let entries = vec![dir("album.jpg"), file(".jpg"), file("b.jpg"), file("a.b.png")];
    let names = list_canonical(Some(entries)).unwrap();
    assert_eq!(names, vec!["a.b.png", "b.jpg"]);
}

#[test]
fn listing_order_is_by_bytes() {
    let entries = vec![file("b.jpg"), file("B.jpg"), file("a.jpg"), file("é.jpg"), file("z.jpg")];
    let names = list_canonical(Some(entries)).unwrap();
    assert_eq!(names, vec!["B.jpg", "a.jpg", "b.jpg", "z.jpg", "é.jpg"]);
}

#[test]
fn listing_holds_no_duplicates() {
    let entries = vec![file("a.jpg"), file("c.png"), file("a.jpg"), file("b.webp")];
    let names = catalog_of(&entries);
    assert_eq!(names, vec!["a.jpg", "b.webp", "c.png"]);
}

#[test]
fn listing_of_empty_directory_is_empty_success() {
    assert_eq!(list_canonical(Some(Vec::new())), Ok(Vec::<String>::new()));
    let only_other = vec![file("notes.txt"), dir("sub")];
    assert_eq!(list_canonical(Some(only_other)), Ok(Vec::<String>::new()));
}

#[test]
fn listing_of_missing_root_fails() {
    assert_eq!(list_canonical(None), Err(CatalogError::DirectoryUnavailable));
}

#[test]
fn listing_extension_is_case_sensitive() {
    let entries = vec![file("photo.PNG"), file("photo.png"), file("x.Jpg")];
    let names = list_canonical(Some(entries)).unwrap();
    assert_eq!(names, vec!["photo.png"]);
}

#[test]
fn listing_does_not_depend_on_scan_order() {
    let a = vec![file("c.png"), file("a.jpg"), dir("x"), file("b.webp")];
    let b = vec![file("b.webp"), file("notes.txt"), file("c.png"), file("a.jpg")];
    assert_eq!(list_canonical(Some(a)), list_canonical(Some(b)));
}
