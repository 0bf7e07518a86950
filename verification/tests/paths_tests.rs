use training_manifest::paths::{
    extract_class, get_base_dir, get_file_name, get_relative_filename, is_supported_image,
    supported_images,
};

#[test]
fn supported_extensions_match_case_insensitively() {
    assert!(is_supported_image(&b"images/t-80/a.jpg".to_vec()));
    assert!(is_supported_image(&b"a.jpeg".to_vec()));
    assert!(is_supported_image(&b"a.png".to_vec()));
    assert!(is_supported_image(&b"a.bmp".to_vec()));
    assert!(is_supported_image(&b"A.JPG".to_vec()));
    assert!(is_supported_image(&b"shot.PnG".to_vec()));
}

#[test]
fn unsupported_or_missing_extensions_do_not_match() {
    assert!(!is_supported_image(&b"a.txt".to_vec()));
    assert!(!is_supported_image(&b"a.gif".to_vec()));
    assert!(!is_supported_image(&b"noext".to_vec()));
    assert!(!is_supported_image(&b"".to_vec()));
    assert!(!is_supported_image(&b".png".to_vec()));
    assert!(!is_supported_image(&b"dir/.png".to_vec()));
    assert!(!is_supported_image(&b"archive.jpg/readme".to_vec()));
    assert!(!is_supported_image(&b"trailing.".to_vec()));
}

#[test]
fn base_dir_is_prefix_before_last_separator() {
    assert_eq!(get_base_dir(&b"images/t-80/a.jpg".to_vec()), b"images/t-80".to_vec());
    assert_eq!(get_base_dir(&b"images/t-80".to_vec()), b"images".to_vec());
    assert_eq!(get_base_dir(&b"a.jpg".to_vec()), b"".to_vec());
}

#[test]
fn file_name_is_suffix_after_last_separator() {
    assert_eq!(get_file_name(&b"images/t-80/a.jpg".to_vec()), b"a.jpg".to_vec());
    assert_eq!(get_file_name(&b"a.jpg".to_vec()), b"a.jpg".to_vec());
}

#[test]
fn extract_class_reads_the_parent_directory_name() {
    assert_eq!(extract_class(&b"images/t-80/a.jpg".to_vec()), Some(b"t-80".to_vec()));
    assert_eq!(extract_class(&b"t-80/a.jpg".to_vec()), Some(b"t-80".to_vec()));
    assert_eq!(extract_class(&b"a.jpg".to_vec()), None);
}

#[test]
fn relative_filename_strips_the_base_directory() {
    assert_eq!(
        get_relative_filename(&b"images/t-80/a.jpg".to_vec(), &b"images".to_vec()),
        b"t-80/a.jpg".to_vec()
    );
    assert_eq!(
        get_relative_filename(&b"images/t-80/a.jpg".to_vec(), &b"images/t-80".to_vec()),
        b"a.jpg".to_vec()
    );
    assert_eq!(
        get_relative_filename(&b"images/t-80/a.jpg".to_vec(), &b"other".to_vec()),
        b"images/t-80/a.jpg".to_vec()
    );
    assert_eq!(
        get_relative_filename(&b"a.jpg".to_vec(), &b"".to_vec()),
        b"a.jpg".to_vec()
    );
}

#[test]
fn supported_images_keeps_matching_paths_in_order() {
    let files = vec![
        b"images/t-80/a.jpg".to_vec(),
        b"images/t-80/notes.txt".to_vec(),
        b"images/t-80/b.PNG".to_vec(),
        b"images/t-80/c".to_vec(),
        b"images/t-80/d.bmp".to_vec(),
    ];
    let kept = supported_images(files);
    assert_eq!(
        kept,
        vec![
            b"images/t-80/a.jpg".to_vec(),
            b"images/t-80/b.PNG".to_vec(),
            b"images/t-80/d.bmp".to_vec(),
        ]
    );
}
