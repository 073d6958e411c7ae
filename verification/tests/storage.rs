use webview_proxy::storage::{
    classify_public_dir, AudioDir, DirectoryError, GeneralPurposeDir, ImageDir, PublicDirKind,
    VideoDir,
};

fn v(s: &str) -> Vec<u8> {
    s.as_bytes().to_vec()
}

#[test]
fn image_defaults_to_pictures() {
    let r = classify_public_dir(b"image", None);
    assert_eq!(r, Ok(PublicDirKind::Image(ImageDir::Pictures)));
}

#[test]
fn classification_is_case_insensitive() {
    let sub = v("DCIM");
    let r = classify_public_dir(b"IMAGE", Some(&sub));
    assert_eq!(r, Ok(PublicDirKind::Image(ImageDir::Dcim)));
}

#[test]
fn video_defaults_to_movies() {
    let r = classify_public_dir(b"video", None);
    assert_eq!(r, Ok(PublicDirKind::Video(VideoDir::Movies)));
}

#[test]
fn audio_subdirectories_resolve() {
    let cases: Vec<(&str, AudioDir)> = vec![
        ("music", AudioDir::Music),
        ("alarms", AudioDir::Alarms),
        ("audiobooks", AudioDir::Audiobooks),
        ("notifications", AudioDir::Notifications),
        ("podcasts", AudioDir::Podcasts),
        ("ringtones", AudioDir::Ringtones),
        ("recordings", AudioDir::Recordings),
    ];
    for (name, dir) in cases {
        let sub = v(name);
        let r = classify_public_dir(b"audio", Some(&sub));
        assert_eq!(r, Ok(PublicDirKind::Audio(dir)));
    }
    let r = classify_public_dir(b"audio", None);
    assert_eq!(r, Ok(PublicDirKind::Audio(AudioDir::Music)));
}

#[test]
fn general_purpose_subdirectories_resolve() {
    let sub = v("download");
    let r = classify_public_dir(b"general_purpose", Some(&sub));
    assert_eq!(r, Ok(PublicDirKind::GeneralPurpose(GeneralPurposeDir::Download)));
    let r = classify_public_dir(b"general_purpose", None);
    assert_eq!(r, Ok(PublicDirKind::GeneralPurpose(GeneralPurposeDir::Documents)));
}

#[test]
fn unknown_directory_type_is_rejected() {
    let r = classify_public_dir(b"text", None);
    assert_eq!(r, Err(DirectoryError::InvalidDirectoryType));
    assert_eq!(
        DirectoryError::InvalidDirectoryType.message(),
        "Invalid public directory type"
    );
}

#[test]
fn unknown_subdirectory_is_rejected() {
    let sub = v("screenshots");
    let r = classify_public_dir(b"image", Some(&sub));
    assert_eq!(r, Err(DirectoryError::InvalidSubdirectoryType));
    assert_eq!(
        DirectoryError::InvalidSubdirectoryType.message(),
        "Invalid subdirectory type"
    );
}
