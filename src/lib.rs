pub mod content_type;
pub mod range;
pub mod response;
pub mod stream;

pub use content_type::get_content_type;
pub use range::parse_range;
pub use response::{
    respond, serve_full_file, serve_partial_file, ContentRange, ResponseFraming, StreamResponse,
    ACCEPT_RANGES, STATUS_OK, STATUS_PARTIAL_CONTENT,
};
pub use stream::{file_stream, file_stream_partial, FileStreamer, BUFSIZE};
