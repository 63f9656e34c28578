use rsstreamslice_server::{
    respond, serve_full_file, serve_partial_file, ContentRange, FileStreamer, ACCEPT_RANGES,
    BUFSIZE, STATUS_OK, STATUS_PARTIAL_CONTENT,
};

fn resource(len: usize) -> Vec<u8> {
    (0..len).map(|i| (i * 7 % 256) as u8).collect()
}

fn drain(mut s: FileStreamer, content: &[u8]) -> Vec<u8> {
    let mut out = Vec::new();
    while let Some((offset, n)) = s.next_read() {
        let from = (offset as usize).min(content.len());
        let to = (offset as usize).saturating_add(n).min(content.len());
        match s.accept(content[from..to].to_vec()) {
            Some(chunk) => out.extend_from_slice(&chunk),
            None => break,
        }
    }
    out
}

#[test]
fn end_to_end_partial_request() {
    let content = resource(10_000);
    let r = respond("video.mp4", 10_000, Some("bytes=100-199"), BUFSIZE);
    assert_eq!(r.framing.status, 206);
    assert_eq!(r.framing.content_length, 100);
    assert_eq!(
        r.framing.content_range,
        Some(ContentRange { start: 100, end: 199, total: 10_000 })
    );
    assert_eq!(r.framing.content_type, "video/mp4");
    assert_eq!(r.framing.accept_ranges, "bytes");
    assert_eq!(drain(r.body, &content), content[100..200].to_vec());
}

#[test]
fn full_response_framing() {
    let r = serve_full_file(10_000, "audio/mpeg", BUFSIZE);
    assert_eq!(r.framing.status, STATUS_OK);
    assert_eq!(r.framing.content_length, 10_000);
    assert_eq!(
        r.framing.content_range,
        Some(ContentRange { start: 0, end: 9_999, total: 10_000 })
    );
    assert_eq!(r.framing.content_type, "audio/mpeg");
    assert_eq!(r.framing.accept_ranges, ACCEPT_RANGES);
}

#[test]
fn full_length_matches_streamed_bytes() {
    for size in [0usize, 1, 8191, 8192, 8193, 30_000] {
        let content = resource(size);
        let r = serve_full_file(size as u64, "video/mp4", BUFSIZE);
        let body = drain(r.body, &content);
        assert_eq!(r.framing.content_length, body.len() as u64);
        assert_eq!(body, content);
    }
}

#[test]
fn full_response_of_empty_resource_names_no_range() {
    let r = serve_full_file(0, "video/mp4", BUFSIZE);
    assert_eq!(r.framing.content_length, 0);
    assert_eq!(r.framing.content_range, None);
}

#[test]
fn partial_range_reports_request_not_what_is_read() {
    let content = resource(300);
    let r = serve_partial_file(1000, "bytes=200-599", "video/mp4", BUFSIZE);
    assert_eq!(r.framing.status, STATUS_PARTIAL_CONTENT);
    assert_eq!(
        r.framing.content_range,
        Some(ContentRange { start: 200, end: 599, total: 1000 })
    );
    assert_eq!(r.framing.content_length, 400);
    assert_eq!(drain(r.body, &content).len(), 100);
}

#[test]
fn inverted_range_declares_zero_length() {
    let r = serve_partial_file(1000, "bytes=600-100", "video/mp4", BUFSIZE);
    assert_eq!(r.framing.content_length, 0);
    assert_eq!(
        r.framing.content_range,
        Some(ContentRange { start: 600, end: 100, total: 1000 })
    );
    assert_eq!(drain(r.body, &resource(1000)), Vec::<u8>::new());
}

#[test]
fn widest_range_length_saturates() {
    let r = serve_partial_file(1000, "bytes=0-18446744073709551615", "video/mp4", BUFSIZE);
    assert_eq!(r.framing.content_length, u64::MAX);
}

#[test]
fn respond_without_range_serves_whole_file() {
    let r = respond("song.mp3", 500, None, BUFSIZE);
    assert_eq!(r.framing.status, 200);
    assert_eq!(r.framing.content_length, 500);
    assert_eq!(r.framing.content_type, "audio/mpeg");
}

#[test]
fn respond_to_range_on_empty_resource_serves_whole_file() {
    let r = respond("clip.bin", 0, Some("bytes=0-10"), BUFSIZE);
    assert_eq!(r.framing.status, 200);
    assert_eq!(r.framing.content_length, 0);
    assert_eq!(r.framing.content_type, "application/octet-stream");
}
