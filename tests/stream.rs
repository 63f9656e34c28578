use rsstreamslice_server::{file_stream, file_stream_partial, FileStreamer, BUFSIZE};

fn resource(len: usize) -> Vec<u8> {
    (0..len).map(|i| (i % 251) as u8).collect()
}

/// Drives a stream over an in-memory resource, serving each read in full.
fn drain(mut s: FileStreamer, content: &[u8]) -> Vec<Vec<u8>> {
    let mut out = Vec::new();
    while let Some((offset, n)) = s.next_read() {
        let from = (offset as usize).min(content.len());
        let to = (offset as usize).saturating_add(n).min(content.len());
        match s.accept(content[from..to].to_vec()) {
            Some(chunk) => out.push(chunk),
            None => break,
        }
    }
    out
}

#[test]
fn partial_stream_covers_interval() {
    let content = resource(50_000);
    let chunks = drain(file_stream_partial(1000, 30_000, BUFSIZE), &content);
    let body: Vec<u8> = chunks.concat();
    assert_eq!(body.len(), 29_001);
    assert_eq!(body, content[1000..30_001].to_vec());
}

#[test]
fn chunk_sizes_are_full_but_the_last() {
    let content = resource(50_000);
    let chunks = drain(file_stream_partial(1000, 30_000, BUFSIZE), &content);
    let lens: Vec<usize> = chunks.iter().map(|c| c.len()).collect();
    assert_eq!(lens, vec![8192, 8192, 8192, 29_001 % 8192]);
}

#[test]
fn evenly_divisible_interval_ends_with_full_chunk() {
    let content = resource(100);
    let chunks = drain(file_stream_partial(10, 49, 10), &content);
    assert_eq!(chunks.len(), 4);
    assert!(chunks.iter().all(|c| c.len() == 10));
}

#[test]
fn inverted_interval_streams_nothing() {
    let content = resource(100);
    let s = file_stream_partial(60, 10, BUFSIZE);
    assert!(s.next_read().is_none());
    assert!(drain(s, &content).is_empty());
}

#[test]
fn whole_stream_of_empty_resource_is_empty() {
    let s = file_stream(0, BUFSIZE);
    assert!(s.next_read().is_none());
    assert!(drain(s, &[]).is_empty());
}

#[test]
fn whole_stream_covers_resource() {
    let content = resource(20_000);
    let body: Vec<u8> = drain(file_stream(20_000, BUFSIZE), &content).concat();
    assert_eq!(body, content);
}

#[test]
fn stream_stops_when_resource_ends_early() {
    let content = resource(150);
    let body: Vec<u8> = drain(file_stream_partial(100, 400, 64), &content).concat();
    assert_eq!(body, content[100..150].to_vec());
}

#[test]
fn accept_truncates_at_interval_end() {
    let mut s = file_stream_partial(5, 7, 16);
    assert_eq!(s.next_read(), Some((5, 16)));
    let chunk = s.accept(vec![1, 2, 3, 4, 5, 6]);
    assert_eq!(chunk, Some(vec![1, 2, 3]));
    assert!(s.finished);
    assert_eq!(s.next_read(), None);
}

#[test]
fn accept_advances_on_short_read() {
    let mut s = file_stream_partial(0, 99, 16);
    assert_eq!(s.accept(vec![9; 10]), Some(vec![9; 10]));
    assert_eq!(s.next_read(), Some((10, 16)));
}

#[test]
fn empty_read_ends_stream() {
    let mut s = file_stream_partial(0, 99, 16);
    assert_eq!(s.accept(Vec::new()), None);
    assert!(s.finished);
}

#[test]
fn failure_ends_stream() {
    let mut s = file_stream_partial(0, 99, 16);
    s.fail();
    assert_eq!(s.next_read(), None);
    assert_eq!(s.accept(vec![1]), None);
}

#[test]
fn interval_reaching_largest_offset_does_not_overflow() {
    let mut s = file_stream_partial(u64::MAX - 1, u64::MAX, 16);
    assert_eq!(s.accept(vec![1, 2, 3]), Some(vec![1, 2]));
    assert!(s.finished);
}
