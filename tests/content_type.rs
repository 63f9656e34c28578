use rsstreamslice_server::get_content_type;

#[test]
fn mp4_is_video() {
    assert_eq!(get_content_type("video.mp4"), "video/mp4");
    assert_eq!(get_content_type("/srv/media/clip.mp4"), "video/mp4");
}

#[test]
fn mp3_is_audio() {
    assert_eq!(get_content_type("mp3.mp3"), "audio/mpeg");
}

#[test]
fn unknown_extension_is_octet_stream() {
    assert_eq!(get_content_type("file.unknown"), "application/octet-stream");
}

#[test]
fn no_extension_is_octet_stream() {
    assert_eq!(get_content_type("README"), "application/octet-stream");
    assert_eq!(get_content_type(""), "application/octet-stream");
    assert_eq!(get_content_type("dir.mp4/file"), "application/octet-stream");
}

#[test]
fn leading_dot_is_not_an_extension() {
    assert_eq!(get_content_type(".mp4"), "application/octet-stream");
    assert_eq!(get_content_type("media/.mp3"), "application/octet-stream");
    assert_eq!(get_content_type("..mp4"), "video/mp4");
}

#[test]
fn trailing_separators_and_current_dir_are_skipped() {
    assert_eq!(get_content_type("clip.mp4/"), "video/mp4");
    assert_eq!(get_content_type("clip.mp4/./"), "video/mp4");
    assert_eq!(get_content_type("clip.mp4/.."), "application/octet-stream");
}

#[test]
fn extension_is_case_sensitive() {
    assert_eq!(get_content_type("clip.MP4"), "application/octet-stream");
    assert_eq!(get_content_type("archive.tar.mp3"), "audio/mpeg");
}
