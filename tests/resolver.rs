use image_catalog::catalog::{list_canonical, DirEntryInfo};
use image_catalog::resolver::{content_type_for, serve_contents, ContentType, ServeError};
use image_catalog::variant::{FallbackPolicy, ImageDirs};

fn dirs() -> ImageDirs {
    ImageDirs::new(
        "/img/o".to_string(),
        "/img/l".to_string(),
        "/img/m".to_string(),
        "/img/s".to_string(),
    )
}

#[test]
fn serve_medium_jpeg() {
    let d = dirs();
    let path = d.asset_path("medium", "sunset.jpg").unwrap();
    assert_eq!(path, "/img/m/sunset.jpg");
    let bytes = vec![0xff, 0xd8, 0xff, 0xe0, 1, 2, 3];
    let asset = serve_contents("sunset.jpg", Some(bytes.clone())).unwrap();
    assert_eq!(asset.bytes, bytes);
    assert_eq!(asset.content_type, ContentType::Jpeg);
    assert_eq!(asset.content_type.mime(), "image/jpeg");
}

#[test]
fn serve_missing_file_is_not_found() {
    let d = dirs();
    assert_eq!(d.asset_path("original", "missing.png").unwrap(), "/img/o/missing.png");
    assert!(matches!(serve_contents("missing.png", None), Err(ServeError::AssetNotFound)));
}

#[test]
fn serve_uppercase_extension_is_generic_binary() {
    let d = dirs();
    assert_eq!(d.asset_path("original", "photo.PNG").unwrap(), "/img/o/photo.PNG");
    let asset = serve_contents("photo.PNG", Some(vec![0x89, 0x50])).unwrap();
    assert_eq!(asset.content_type, ContentType::OctetStream);
    assert_eq!(asset.content_type.mime(), "application/octet-stream");
    assert_eq!(asset.bytes, vec![0x89, 0x50]);
}

#[test]
fn scenario_original_and_small_roots() {
    let d = dirs();
    let listing = vec![DirEntryInfo { name: "a.jpg".to_string(), is_file: true }];
    assert_eq!(list_canonical(Some(listing)).unwrap(), vec!["a.jpg"]);
    assert_eq!(d.asset_path("small", "a.jpg").unwrap(), "/img/s/a.jpg");
    let asset = serve_contents("a.jpg", Some(vec![7, 8, 9])).unwrap();
    assert_eq!(asset.bytes, vec![7, 8, 9]);
    assert_eq!(asset.content_type.mime(), "image/jpeg");
}

#[test]
fn unknown_label_serves_from_original() {
    let d = dirs();
    assert_eq!(d.asset_path("bogus", "a.jpg").unwrap(), "/img/o/a.jpg");
    assert_eq!(d.asset_path("huge", "a.jpg").unwrap(), d.asset_path("original", "a.jpg").unwrap());
}

#[test]
fn rejected_label_is_invalid_variant() {
    let d = dirs().with_fallback(FallbackPolicy::Reject);
    assert!(matches!(d.asset_path("bogus", "a.jpg"), Err(ServeError::InvalidVariant)));
    assert!(matches!(d.asset_path("bogus", "../x"), Err(ServeError::InvalidVariant)));
}

#[test]
fn traversal_names_are_refused() {
    let d = dirs();
    for name in ["../secret.jpg", "..", ".", "", "a/b.jpg", "a\\b.jpg", "/etc/passwd"] {
        assert!(
            matches!(d.asset_path("small", name), Err(ServeError::AssetNotFound)),
            "{name} must be refused"
        );
    }
    assert_eq!(d.asset_path("small", "..jpg").unwrap(), "/img/s/..jpg");
}

#[test]
fn content_types_by_extension() {
    assert_eq!(content_type_for("a.jpg"), ContentType::Jpeg);
    assert_eq!(content_type_for("a.jpeg"), ContentType::Jpeg);
    assert_eq!(content_type_for("a.png"), ContentType::Png);
    assert_eq!(content_type_for("a.tar.webp"), ContentType::Webp);
    assert_eq!(content_type_for("a.gif"), ContentType::OctetStream);
    assert_eq!(content_type_for("jpg"), ContentType::OctetStream);
    assert_eq!(content_type_for(".png"), ContentType::Png);
    assert_eq!(content_type_for("a."), ContentType::OctetStream);
    assert_eq!(content_type_for("a.png."), ContentType::OctetStream);
    assert_eq!(ContentType::Png.mime(), "image/png");
    assert_eq!(ContentType::Webp.mime(), "image/webp");
}

#[test]
fn hidden_jpeg_is_served_as_jpeg() {
    let d = dirs();
    assert_eq!(d.asset_path("original", ".jpg").unwrap(), "/img/o/.jpg");
    let asset = serve_contents(".jpg", Some(vec![1])).unwrap();
    assert_eq!(asset.content_type, ContentType::Jpeg);
}

#[test]
fn every_listed_name_is_servable() {
    let d = dirs();
    let listing = vec![
        DirEntryInfo { name: "a\\b.jpg".to_string(), is_file: true },
        DirEntryInfo { name: "c.png".to_string(), is_file: true },
    ];
    let names = list_canonical(Some(listing)).unwrap();
    assert_eq!(names, vec!["c.png"]);
    for n in &names {
        assert!(d.asset_path("original", n).is_ok());
        assert_ne!(content_type_for(n), ContentType::OctetStream);
    }
}
