use rx::image::Path;

#[test]
fn test_image_path() {
    assert!(Path::try_from("/").is_err());
    assert!(Path::try_from("").is_err());
    assert!(Path::try_from("..").is_err());
    assert!(Path::try_from("acme").is_err());
    assert!(Path::try_from("/acme/..").is_err());
    assert!(Path::try_from("acme/rx").is_err());
    assert!(Path::try_from(".png").is_err());
    assert!(Path::try_from("acme.yaml").is_err());

    for p in ["../../acme.png", "/acme.png", "acme.png", "rx/acme.png", "acme.beb.png", ".acme.png"].iter() {
        assert_eq!(Path::try_from(p).unwrap().to_string(), *p);
    }
}

#[test]
fn image_path_parts() {
    let p = Path::try_from("rx/acme.beb.png").unwrap();
    assert_eq!(p.parent(), "rx");
    assert_eq!(p.file_stem(), "acme.beb");
    assert_eq!(p.extension(), "png");
    assert_eq!(Path::try_from("acme.yaml").unwrap_err(), "`acme.yaml` is not a valid path");
}
