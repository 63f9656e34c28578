use vstd::prelude::*;
use vstd::string::StringSliceAdditionalSpecFns;
use crate::content_type::{content_type_of, get_content_type};
use crate::range::{parse_range, requested_range};
use crate::stream::{
    chunks, file_stream, file_stream_partial, interval_len, interval_stream,
    law_chunks_cover_interval, whole_stream, FileStreamer,
};

verus! {

/// Value of the `Accept-Ranges` header of every response.
pub const ACCEPT_RANGES: &'static str = "bytes";

/// Status of a response that carries the whole resource.
pub const STATUS_OK: u16 = 200;

/// Status of a response that carries a byte range of the resource.
pub const STATUS_PARTIAL_CONTENT: u16 = 206;

/// The `Content-Range` header: `bytes <start>-<end>/<total>`.
#[derive(Clone, Copy, Debug, PartialEq, Eq, Structural)]
pub struct ContentRange {
    pub start: u64,
    pub end: u64,
    pub total: u64,
}

/// Status and headers of a response, fixed before its body is streamed.
#[derive(Clone, Debug)]
pub struct ResponseFraming {
    pub status: u16,
    pub content_type: String,
    pub content_length: u64,
    /// Absent only for the whole of an empty resource, which has no byte to
    /// name.
    pub content_range: Option<ContentRange>,
    pub accept_ranges: &'static str,
}

/// What the framing of a response states.
pub ghost struct FramingView {
    pub status: u16,
    pub content_type: Seq<char>,
    pub content_length: u64,
    pub content_range: Option<ContentRange>,
    pub accept_ranges: Seq<char>,
}

impl View for ResponseFraming {
    type V = FramingView;

    open spec fn view(&self) -> FramingView {
        FramingView {
            status: self.status,
            content_type: self.content_type@,
            content_length: self.content_length,
            content_range: self.content_range,
            accept_ranges: self.accept_ranges@,
        }
    }
}

/// A response: its framing, and the stream that produces its body.
#[derive(Clone, Debug)]
pub struct StreamResponse {
    pub framing: ResponseFraming,
    pub body: FileStreamer,
}

/// The framing of a `200` response that carries all `size` bytes.
pub open spec fn full_framing(size: u64, content_type: Seq<char>) -> FramingView {
    FramingView {
        status: STATUS_OK,
        content_type,
        content_length: size,
        content_range: if size == 0 {
            None
        } else {
            Some(ContentRange { start: 0, end: (size - 1) as u64, total: size })
        },
        accept_ranges: "bytes"@,
    }
}

/// The `Content-Length` of a response for `[start, end]`: the interval's byte
/// count, `0` for an inverted interval, and `u64::MAX` for the one interval
/// whose count does not fit in 64 bits.
pub open spec fn partial_length(start: u64, end: u64) -> u64 {
    if interval_len(start, end) <= u64::MAX {
        interval_len(start, end) as u64
    } else {
        u64::MAX
    }
}

/// The framing of a `206` response for the requested interval
/// `[start, end]` of a resource of `size` bytes. `Content-Range` names the
/// interval as requested, whatever the resource holds.
pub open spec fn partial_framing(start: u64, end: u64, size: u64, content_type: Seq<char>) -> FramingView {
    FramingView {
        status: STATUS_PARTIAL_CONTENT,
        content_type,
        content_length: partial_length(start, end),
        content_range: Some(ContentRange { start, end, total: size }),
        accept_ranges: "bytes"@,
    }
}

/// The response that carries a whole resource of `file_size` bytes:
/// status `200`, `Content-Length: <file_size>`,
/// `Content-Range: bytes 0-<file_size - 1>/<file_size>`, and a body that
/// streams every byte from the first.
pub fn serve_full_file(file_size: u64, content_type: &str, buffer_size: usize) -> (r: StreamResponse)
    ensures
        r.framing@ == full_framing(file_size, content_type@),
        r.body == whole_stream(file_size, buffer_size),
{
    proof {
        reveal_strlit("bytes");
    }
    let content_range = if file_size == 0 {
        None
    } else {
        Some(ContentRange { start: 0, end: file_size - 1, total: file_size })
    };
    let framing = ResponseFraming {
        status: STATUS_OK,
        content_type: content_type.to_owned(),
        content_length: file_size,
        content_range,
        accept_ranges: ACCEPT_RANGES,
    };
    StreamResponse { framing, body: file_stream(file_size, buffer_size) }
}

/// The response to a `Range` header on a resource of `file_size` bytes:
/// status `206`, the interval that the header asks for (as `parse_range`
/// reads it) in `Content-Range`, its byte count in `Content-Length`, and a
/// body that streams that interval.
pub fn serve_partial_file(
    file_size: u64,
    range_header: &str,
    content_type: &str,
    buffer_size: usize,
) -> (r: StreamResponse)
    requires
        file_size > 0,
    ensures
        ({
            let (start, end) = requested_range(range_header.spec_bytes(), file_size);
            &&& r.framing@ == partial_framing(start, end, file_size, content_type@)
            &&& r.body == interval_stream(start, end, buffer_size)
        }),
{
    proof {
        reveal_strlit("bytes");
    }
    let (start, end) = parse_range(range_header, file_size);
    let content_length = if start > end {
        0
    } else if end - start == u64::MAX {
        u64::MAX
    } else {
        end - start + 1
    };
    let framing = ResponseFraming {
        status: STATUS_PARTIAL_CONTENT,
        content_type: content_type.to_owned(),
        content_length,
        content_range: Some(ContentRange { start, end, total: file_size }),
        accept_ranges: ACCEPT_RANGES,
    };
    StreamResponse { framing, body: file_stream_partial(start, end, buffer_size) }
}

/// The response to a request for the file at `file_path`, of `file_size`
/// bytes, given the value of its `Range` header if it has one: a partial
/// response where a range is asked of a non-empty resource, else the whole
/// resource. The content type follows the file's extension.
pub fn respond(
    file_path: &str,
    file_size: u64,
    range_header: Option<&str>,
    buffer_size: usize,
) -> (r: StreamResponse)
    ensures
        ({
            let ct = content_type_of(file_path.spec_bytes());
            match range_header {
                Some(h) if file_size > 0 => {
                    let (start, end) = requested_range(h.spec_bytes(), file_size);
                    &&& r.framing@ == partial_framing(start, end, file_size, ct)
                    &&& r.body == interval_stream(start, end, buffer_size)
                },
                _ => {
                    &&& r.framing@ == full_framing(file_size, ct)
                    &&& r.body == whole_stream(file_size, buffer_size)
                },
            }
        }),
{
    let content_type = get_content_type(file_path);
    match range_header {
        Some(h) if file_size > 0 => serve_partial_file(file_size, h, content_type, buffer_size),
        _ => serve_full_file(file_size, content_type, buffer_size),
    }
}

/// A full response declares in `Content-Length` exactly the number of bytes
/// its body streams from a resource of that size, each read served in full;
/// an empty resource included.
pub proof fn law_full_length_matches_body(
    file_size: u64,
    content_type: Seq<char>,
    buffer_size: usize,
    content: Seq<u8>,
)
    requires
        content.len() == file_size,
        buffer_size > 0,
    ensures
        chunks(whole_stream(file_size, buffer_size), content).flatten().len() == full_framing(
            file_size,
            content_type,
        ).content_length,
{
    if file_size == 0 {
        assert(chunks(whole_stream(file_size, buffer_size), content) =~= Seq::<Seq<u8>>::empty());
    } else {
        law_chunks_cover_interval(0, (file_size - 1) as u64, buffer_size, content);
    }
}

/// A partial response for an interval that lies within the resource declares
/// in `Content-Length` exactly the number of bytes its body streams, each read
/// served in full.
pub proof fn law_partial_length_matches_body(
    start: u64,
    end: u64,
    file_size: u64,
    content_type: Seq<char>,
    buffer_size: usize,
    content: Seq<u8>,
)
    requires
        start <= end < file_size,
        content.len() == file_size,
        buffer_size > 0,
    ensures
        chunks(interval_stream(start, end, buffer_size), content).flatten().len()
            == partial_framing(start, end, file_size, content_type).content_length,
{
    law_chunks_cover_interval(start, end, buffer_size, content);
}

} // verus!
