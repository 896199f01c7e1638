use e_agent::image::{
    attach_image_from_path, check_image_type, hex, image_file, image_mime_from_extension,
    image_sha256, image_store_dir, IMAGE_MAX_BYTES, NO_IMAGE_STORE,
};

#[test]
fn content_addresses_are_sha_256() {
    assert_eq!(
        image_sha256(b"abc"),
        "ba7816bf8f01cfea414140de5dae2223b00361a396177a9cb410ff61f20015ad"
    );
    assert_eq!(
        image_sha256(b""),
        "e3b0c44298fc1c149afbf4c8996fb92427ae41e4649b934ca495991b7852b855"
    );
    assert_eq!(image_sha256(b"same-content"), image_sha256(b"same-content"));
    assert_eq!(hex(&vec![0, 15, 255]), "000fff");
}

#[test]
fn image_types_go_by_the_extension() {
    assert_eq!(image_mime_from_extension("a.PNG"), Some("image/png"));
    assert_eq!(image_mime_from_extension("a.jpg"), Some("image/jpeg"));
    assert_eq!(image_mime_from_extension("a.jpeg"), Some("image/jpeg"));
    assert_eq!(image_mime_from_extension("a.webp"), Some("image/webp"));
    assert_eq!(image_mime_from_extension("a.gif"), Some("image/gif"));
    assert_eq!(image_mime_from_extension("a.txt"), None);
    assert_eq!(image_mime_from_extension("a.png.txt"), None);
    assert_eq!(image_mime_from_extension("noextension"), None);
    assert_eq!(check_image_type("x/a.png").unwrap(), "image/png");
    assert_eq!(
        check_image_type("a.txt").unwrap_err(),
        "unsupported image type for a.txt: expected .png, .jpeg/.jpg, .webp, or .gif"
    );
}

#[test]
fn attachments_are_checked_in_order() {
    let (part, file) =
        attach_image_from_path("a.png", Ok(b"abc".to_vec()), Some("/store")).unwrap();
    assert_eq!(part.mime, "image/png");
    assert_eq!(part.hash, image_sha256(b"abc"));
    assert_eq!(file, format!("/store/{}", part.hash));
    assert_eq!(image_file("/store", "h"), "/store/h");
    assert!(attach_image_from_path("a.txt", Err("gone".into()), None)
        .unwrap_err()
        .starts_with("unsupported image type"));
    assert_eq!(
        attach_image_from_path("a.png", Err("gone".into()), None).unwrap_err(),
        "cannot read image a.png: gone"
    );
    assert_eq!(
        attach_image_from_path("a.png", Ok(vec![0; IMAGE_MAX_BYTES + 1]), None).unwrap_err(),
        format!(
            "image a.png is {} bytes, exceeding the 10 MiB limit",
            IMAGE_MAX_BYTES + 1
        )
    );
    assert!(
        attach_image_from_path("a.png", Ok(vec![0; IMAGE_MAX_BYTES]), Some("/s")).is_ok()
    );
    assert_eq!(
        attach_image_from_path("a.png", Ok(vec![]), None).unwrap_err(),
        NO_IMAGE_STORE
    );
}

#[test]
fn the_image_store_follows_the_environment() {
    assert_eq!(
        image_store_dir(Some("/state"), Some("/home/u")),
        Some("/state/e-agent/images".to_string())
    );
    assert_eq!(
        image_store_dir(Some(""), Some("/home/u")),
        Some("/home/u/.config/e-agent/images".to_string())
    );
    assert_eq!(image_store_dir(None, None), None);
}
